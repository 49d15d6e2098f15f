//! What is said of bytes that are no trace.
use vstd::prelude::*;
use crate::layout_laws::number_at;
use crate::saying_laws::Saying;

verus! {

/// The numbers of the bytes, with commas between them.
pub open spec fn numbers(b: Seq<u8>) -> Saying
    decreases b.len(),
{
    if b.len() == 0 {
        Saying::Nothing
    } else if b.len() == 1 {
        Saying::Nothing.number(b[0] as int)
    } else {
        numbers(b.drop_last()).words(", "@).number(b.last() as int)
    }
}

/// The numbers of the bytes in brackets.
pub open spec fn list(b: Seq<u8>) -> Saying {
    crate::saying_laws::line("["@).and(numbers(b)).words("]"@)
}

proof fn lemma_numbers(b: Seq<u8>)
    ensures
        crate::saying_laws::says(crate::text::byte_items(b), numbers(b)),
    decreases b.len(),
{
    broadcast use crate::saying_laws::group_says;

    if b.len() > 1 {
        lemma_numbers(b.drop_last());
    } else if b.len() == 0 {
        crate::saying_laws::lemma_says_nothing();
        assert(crate::text::byte_items(b) =~= Seq::<char>::empty());
    }
}

pub broadcast proof fn lemma_list(b: Seq<u8>)
    ensures
        #[trigger] crate::saying_laws::says(crate::text::byte_list(b), list(b)),
{
    broadcast use {crate::saying_laws::group_says, crate::saying_laws::lemma_says_and};

    lemma_numbers(b);
    assert(crate::saying_laws::says(
        "["@ + crate::text::byte_items(b),
        crate::saying_laws::line("["@).and(numbers(b)),
    ));
}

/// What is said of a header or a closing mark that is wrong.
pub open spec fn frame_trouble(b: Seq<u8>) -> Saying {
    if b.len() < 32 {
        crate::saying_laws::line("incomplete trace: size "@).number(b.len() as int).words(
            " bytes is smaller than minimum header + footer size (32 bytes)"@,
        )
    } else if b.subrange(0, 8) != seq![67u8, 65u8, 85u8, 83u8, 65u8, 76u8, 0u8, 0u8] {
        crate::saying_laws::line("invalid trace header magic: expected "@).and(
            list(seq![67u8, 65u8, 85u8, 83u8, 65u8, 76u8, 0u8, 0u8]),
        ).words(", got "@).and(list(b.subrange(0, 8)))
    } else if number_at(b, 8, 4) < 1 || number_at(b, 8, 4) > 4 {
        crate::saying_laws::line("unsupported trace format version "@).number(
            number_at(b, 8, 4),
        ).words("; supported versions: 1, 2, 3, 4"@)
    } else if number_at(b, 12, 2) != 1 {
        crate::saying_laws::line("unsupported trace architecture id "@).number(
            number_at(b, 12, 2),
        )
    } else if b[14] != 1 {
        crate::saying_laws::line("unsupported byte order id "@).number(b[14] as int)
    } else if b[15] != 8 {
        crate::saying_laws::line("unsupported pointer width "@).number(b[15] as int)
    } else {
        crate::saying_laws::line(
            "incomplete trace: completion footer missing or invalid footer magic (got "@,
        ).and(list(b.subrange(b.len() - 8, b.len() as int))).words(")"@)
    }
}

proof fn lemma_u32(b: Seq<u8>, at: int)
    requires
        0 <= at,
        at + 4 <= b.len(),
    ensures
        crate::parser::u32_at(b, at) == number_at(b, at, 4),
{
    crate::bytes::lemma_bounds();
    crate::bytes::lemma_bytes_of_value(b.subrange(at, at + 4));
    crate::layout_laws::lemma_total(b.subrange(at, at + 4));
}

proof fn lemma_u64(b: Seq<u8>, at: int)
    requires
        0 <= at,
        at + 8 <= b.len(),
    ensures
        crate::parser::u64_at(b, at) == number_at(b, at, 8),
{
    crate::bytes::lemma_bounds();
    crate::bytes::lemma_bytes_of_value(b.subrange(at, at + 8));
    crate::layout_laws::lemma_total(b.subrange(at, at + 8));
}

/// A wrong header or a missing closing mark is told with what stands there.
pub proof fn law_wrong_frame_is_explained(b: Seq<u8>)
    requires
        crate::parser::frame_complaint(b) is Some,
    ensures
        crate::parser::parsed(b) == Err::<crate::trace::Trace, Seq<char>>(
            crate::parser::frame_complaint(b)->0,
        ),
        crate::saying_laws::says(crate::parser::frame_complaint(b)->0, frame_trouble(b)),
{
    broadcast use {
        crate::saying_laws::group_says,
        crate::saying_laws::lemma_says_and,
        lemma_list,
    };

    let magic = seq![67u8, 65u8, 85u8, 83u8, 65u8, 76u8, 0u8, 0u8];
    assert(crate::trace::TRACE_HEADER_MAGIC@ =~= magic);
    if b.len() >= 32 {
        lemma_u32(b, 8);
        crate::layout_laws::lemma_total(b.subrange(12, 14));
    }
}

/// What is said of a record that holds no event, where event `id` is due.
pub open spec fn record_trouble(version: u32, id: u64, b: Seq<u8>) -> Saying {
    let tid = number_at(b, 12, 4);
    let about = crate::saying_laws::line("trace event "@).number(id as int);
    if b.len() < 16 {
        crate::saying_laws::line("record body is shorter than minimum event header"@)
    } else if b[1] != 0 || b[2] != 0 || b[3] != 0 {
        crate::saying_laws::line("nonzero reserved bytes in event "@).number(id as int).words(
            ": "@,
        ).and(list(b.subrange(1, 4)))
    } else if number_at(b, 4, 8) != id {
        crate::saying_laws::line("non-monotonic event id: observed "@).number(
            number_at(b, 4, 8),
        ).words(", expected "@).number(id as int)
    } else if tid == 0 {
        crate::saying_laws::line("invalid tid 0 in event "@).number(id as int)
    } else if b[0] == 1 {
        about.words(": SyscallEnter record length "@).number(b.len() as int).words(
            ", expected 72"@,
        )
    } else if b[0] == 2 {
        about.words(": SyscallExit record length "@).number(b.len() as int).words(
            ", expected 32"@,
        )
    } else if b[0] == 3 {
        if version < 2 {
            crate::saying_laws::line(
                "KernelMemoryWrite event kind 3 is not supported in trace format V1"@,
            )
        } else if b.len() < 40 {
            about.words(": KernelMemoryWrite record length "@).number(b.len() as int).words(
                " is smaller than minimum header 40"@,
            )
        } else if number_at(b, 36, 4) != 0 {
            about.words(": nonzero payload_reserved in KernelMemoryWrite: "@).number(
                number_at(b, 36, 4),
            )
        } else {
            about.words(": record length "@).number(b.len() as int).words(
                " does not match 40 + data_len ("@,
            ).number(number_at(b, 32, 4)).words(")"@)
        }
    } else {
        crate::saying_laws::line("unknown event kind "@).number(b[0] as int)
    }
}

/// A record of a syscall or of data that holds no event, or of no known kind, is told with what
/// is wrong with it.
pub proof fn law_wrong_record_is_explained(version: u32, id: u64, b: Seq<u8>)
    requires
        crate::parser::event_of(version, id, b) is Err,
        b.len() >= 16 ==> b[0] < 4 || b[0] > 7,
    ensures
        crate::saying_laws::says(
            crate::parser::event_of(version, id, b)->Err_0,
            record_trouble(version, id, b),
        ),
{
    broadcast use {
        crate::saying_laws::group_says,
        crate::saying_laws::lemma_says_and,
        lemma_list,
    };

    if b.len() >= 16 {
        lemma_u64(b, 4);
        lemma_u32(b, 12);
        if b.len() >= 40 {
            lemma_u32(b, 32);
            lemma_u32(b, 36);
        }
    }
}

/// What is said of a record of a signal that holds no event.
pub open spec fn signal_record_trouble(version: u32, id: u64, b: Seq<u8>) -> Saying {
    let about = crate::saying_laws::line("trace event "@).number(id as int);
    let signal = crate::parser::i32_at(b, 16) as int;
    if version < 4 {
        crate::saying_laws::line(
            "SignalDelivery event kind 7 is not supported in trace format V"@,
        ).number(version as int)
    } else if b.len() < 32 {
        about.words(": SignalDelivery record length "@).number(b.len() as int).words(
            " is smaller than minimum header 32"@,
        )
    } else if signal < 1 || signal > 64 {
        about.words(": invalid signal number "@).number(signal)
    } else if number_at(b, 28, 4) != 128 {
        about.words(": invalid siginfo_len "@).number(number_at(b, 28, 4)).words(
            ", expected 128"@,
        )
    } else if b.len() != 160 {
        about.words(": record length "@).number(b.len() as int).words(
            " does not match 32 + siginfo_len ("@,
        ).number(128).words(")"@)
    } else if crate::parser::i32_at(b, 32) != signal {
        about.words(": raw siginfo "@).words("si_signo"@).words(" "@).number(
            crate::parser::i32_at(b, 32) as int,
        ).words(" does not match explicit "@).words("signal_number"@).words(" "@).number(signal)
    } else if crate::parser::i32_at(b, 36) != crate::parser::i32_at(b, 20) {
        about.words(": raw siginfo "@).words("si_errno"@).words(" "@).number(
            crate::parser::i32_at(b, 36) as int,
        ).words(" does not match explicit "@).words("si_errno"@).words(" "@).number(
            crate::parser::i32_at(b, 20) as int,
        )
    } else {
        about.words(": raw siginfo "@).words("si_code"@).words(" "@).number(
            crate::parser::i32_at(b, 40) as int,
        ).words(" does not match explicit "@).words("si_code"@).words(" "@).number(
            crate::parser::i32_at(b, 24) as int,
        )
    }
}

/// A record of a signal that holds no event is told with what is wrong with it.
pub proof fn law_wrong_signal_record_is_explained(version: u32, id: u64, b: Seq<u8>)
    requires
        crate::parser::event_of(version, id, b) is Err,
        b.len() >= 16,
        b[0] == 7,
        b[1] == 0,
        b[2] == 0,
        b[3] == 0,
        number_at(b, 4, 8) == id,
        number_at(b, 12, 4) != 0,
    ensures
        crate::saying_laws::says(
            crate::parser::event_of(version, id, b)->Err_0,
            signal_record_trouble(version, id, b),
        ),
{
    broadcast use crate::saying_laws::group_says;

    lemma_u64(b, 4);
    lemma_u32(b, 12);
    if b.len() >= 32 {
        lemma_u32(b, 28);
    }
}

/// What is said of a region that cannot be decoded where `at` is, and where decoding stops.
pub proof fn law_wrong_descriptor_is_explained(b: Seq<u8>, at: int)
    requires
        0 <= at <= b.len(),
        crate::descriptor::decoded(b, at).0 is Err,
    ensures
        ({
            let text = crate::descriptor::decoded(b, at).0->Err_0;
            let end = crate::descriptor::decoded(b, at).1;
            let label = number_at(b, at + 44, 4);
            if at + 48 > b.len() {
                text == "truncated region descriptor header"@ && end == at
            } else if b[at + 42] != 0 || b[at + 43] != 0 {
                crate::saying_laws::says(
                    text,
                    crate::saying_laws::line("nonzero descriptor reserved bytes: "@).and(
                        list(b.subrange(at + 42, at + 44)),
                    ),
                ) && end == at
            } else if b[at + 40] > 7 {
                crate::saying_laws::says(
                    text,
                    crate::saying_laws::line("invalid prot bits "@).number(b[at + 40] as int),
                ) && end == at
            } else if b[at + 41] != 1 && b[at + 41] != 2 {
                crate::saying_laws::says(
                    text,
                    crate::saying_laws::line("invalid sharing byte "@).number(b[at + 41] as int),
                ) && end == at
            } else if at + 48 + label > b.len() {
                text == "label length extends past descriptor boundary"@ && end == at + 48
            } else {
                crate::saying_laws::says(
                    text,
                    crate::reason_laws::bounds_trouble(
                        crate::descriptor::region_at(b, at, label),
                    ),
                ) && end == at + 48 + label
            }
        }),
{
    broadcast use {
        crate::saying_laws::group_says,
        crate::saying_laws::lemma_says_and,
        lemma_list,
    };

    if at + 48 <= b.len() {
        crate::layout_laws::lemma_total(b.subrange(at + 44, at + 48));
    }
}

/// What is said of a record of a map delta that holds no event, apart from what is wrong with
/// its region.
pub open spec fn delta_record_told(
    version: u32,
    id: u64,
    b: Seq<u8>,
    kind: int,
    name: Seq<char>,
    text: Seq<char>,
) -> bool {
    if version < 3 {
        crate::saying_laws::says(
            text,
            Saying::Nothing.words(name).words(" event kind "@).number(kind).words(
                " is not supported in trace format V"@,
            ).number(version as int),
        )
    } else if b.len() < 72 {
        crate::saying_laws::says(
            text,
            crate::saying_laws::line("trace event "@).number(id as int).words(": "@).words(
                name,
            ).words(" record length "@).number(b.len() as int).words(
                " is smaller than minimum header"@,
            ),
        )
    } else {
        match crate::descriptor::decoded(b, 24).0 {
            Err(reason) => text == reason,
            Ok(_) => crate::saying_laws::says(
                text,
                crate::saying_laws::line("trace event "@).number(id as int).words(
                    ": trailing garbage in "@,
                ).words(name).words(" record"@),
            ),
        }
    }
}

/// A record of a map delta that holds no event is told with what is wrong with it.
pub proof fn law_wrong_delta_record_is_explained(version: u32, id: u64, b: Seq<u8>)
    requires
        crate::parser::event_of(version, id, b) is Err,
        b.len() >= 16,
        b[0] == 5 || b[0] == 6,
        b[1] == 0,
        b[2] == 0,
        b[3] == 0,
        number_at(b, 4, 8) == id,
        number_at(b, 12, 4) != 0,
    ensures
        delta_record_told(
            version,
            id,
            b,
            b[0] as int,
            if b[0] == 5 { "MemoryMapAdd"@ } else { "MemoryMapRemove"@ },
            crate::parser::event_of(version, id, b)->Err_0,
        ),
{
    broadcast use crate::saying_laws::group_says;

    lemma_u64(b, 4);
    lemma_u32(b, 12);
}

/// What is said of a record of a snapshot that holds no event, apart from what is wrong with its
/// regions.
pub proof fn law_wrong_snapshot_record_is_explained(version: u32, id: u64, b: Seq<u8>)
    requires
        crate::parser::event_of(version, id, b) is Err,
        b.len() >= 16,
        b[0] == 4,
        b[1] == 0,
        b[2] == 0,
        b[3] == 0,
        number_at(b, 4, 8) == id,
        number_at(b, 12, 4) != 0,
    ensures
        ({
            let text = crate::parser::event_of(version, id, b)->Err_0;
            let about = crate::saying_laws::line("trace event "@).number(id as int);
            let regions = crate::parser::regions_of(
                b,
                24,
                number_at(b, 16, 4) as nat,
                Seq::empty(),
            );
            if version < 3 {
                crate::saying_laws::says(
                    text,
                    crate::saying_laws::line(
                        "MemoryMapSnapshot event kind 4 is not supported in trace format V"@,
                    ).number(version as int),
                )
            } else if b.len() < 24 {
                crate::saying_laws::says(
                    text,
                    about.words(": MemoryMapSnapshot record length "@).number(
                        b.len() as int,
                    ).words(" is smaller than minimum header 24"@),
                )
            } else if number_at(b, 20, 4) != 0 {
                crate::saying_laws::says(
                    text,
                    about.words(": nonzero reserved in MemoryMapSnapshot: "@).number(
                        number_at(b, 20, 4),
                    ),
                )
            } else if regions is Err {
                text == regions->Err_0
            } else if regions->Ok_0.1 != b.len() {
                crate::saying_laws::says(
                    text,
                    about.words(
                        ": trailing garbage in MemoryMapSnapshot record (parsed "@,
                    ).number(regions->Ok_0.1).words(" bytes, body len "@).number(
                        b.len() as int,
                    ).words(")"@),
                )
            } else {
                crate::reason_laws::order_told(regions->Ok_0.0, text)
            }
        }),
{
    broadcast use crate::saying_laws::group_says;

    lemma_u64(b, 4);
    lemma_u32(b, 12);
    if b.len() >= 24 {
        lemma_u32(b, 16);
        lemma_u32(b, 20);
        let regions = crate::parser::regions_of(b, 24, number_at(b, 16, 4) as nat, Seq::empty());
        if regions is Ok && crate::maps::order_complaint(regions->Ok_0.0) is Some {
            crate::reason_laws::lemma_order_told(regions->Ok_0.0);
        }
    }
}

/// A record whose length does not fit what is left before the footer is told so, and so is a
/// number of events in the footer that is not that of the records.
pub proof fn law_wrong_lengths_are_explained(
    version: u32,
    b: Seq<u8>,
    at: int,
    end: int,
    got: Seq<crate::trace::Event>,
)
    requires
        0 <= at < end <= b.len(),
    ensures
        at + 4 > end ==> crate::parser::events_of(version, b, at, end, got) == Err::<
            Seq<crate::trace::Event>,
            Seq<char>,
        >("truncated record length prefix"@),
        at + 4 <= end && at + 4 + number_at(b, at, 4) > end ==> {
            let r = crate::parser::events_of(version, b, at, end, got);
            r is Err && crate::saying_laws::says(
                r->Err_0,
                crate::saying_laws::line("record length "@).number(number_at(b, at, 4)).words(
                    " extends past event data region into footer"@,
                ),
            )
        },
        ({
            let v = crate::parser::u32_at(b, 8);
            let events = crate::parser::events_of(v, b, 16, b.len() - 16, Seq::empty());
            crate::parser::frame_complaint(b) is None && events is Ok && events->Ok_0.len()
                != number_at(b, b.len() - 16, 8) ==> crate::parser::parsed(b) is Err
                && crate::saying_laws::says(
                crate::parser::parsed(b)->Err_0,
                crate::saying_laws::line("event count mismatch: footer specifies "@).number(
                    number_at(b, b.len() - 16, 8),
                ).words(", but parsed "@).number(events->Ok_0.len() as int),
            )
        }),
{
    broadcast use crate::saying_laws::group_says;

    if at + 4 <= end {
        lemma_u32(b, at);
    }
    if b.len() >= 32 {
        lemma_u64(b, b.len() - 16);
    }
}

} // verus!
