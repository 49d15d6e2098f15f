//! What lines of text say: the words and the numbers that they are made of.
use vstd::prelude::*;
use crate::maps::MemoryRegion;
use crate::trace::{ParsedTrace, TraceEvent};

verus! {

/// What a digit counts, in bases of at most sixteen; a character that is no digit counts 16.
pub open spec fn digit_worth(c: char) -> int {
    if '0' <= c <= '9' {
        c as int - '0' as int
    } else if 'a' <= c <= 'f' {
        c as int - 'a' as int + 10
    } else {
        16
    }
}

/// What a row of digits counts.
pub open spec fn worth(s: Seq<char>, base: int) -> int
    decreases s.len(),
{
    if s.len() == 0 {
        0
    } else {
        worth(s.drop_last(), base) * base + digit_worth(s.last())
    }
}

/// `s` is the number `n` in `base`, with at least `width` digits and no more than it takes.
pub open spec fn numeral(s: Seq<char>, n: int, base: int, width: int) -> bool {
    &&& s.len() >= 1
    &&& s.len() >= width
    &&& forall|i: int| 0 <= i < s.len() ==> 0 <= digit_worth(#[trigger] s[i]) < base
    &&& worth(s, base) == n
    &&& s.len() > 1 && s.len() > width ==> s[0] != '0'
}

/// The characters at `2 * i` and behind it are the two hexadecimal digits of the byte, the
/// higher one first.
pub open spec fn pair_at(s: Seq<char>, i: int, byte: u8) -> bool {
    &&& 0 <= digit_worth(s[2 * i]) < 16
    &&& 0 <= digit_worth(s[2 * i + 1]) < 16
    &&& 16 * digit_worth(s[2 * i]) + digit_worth(s[2 * i + 1]) == byte
}

/// Two hexadecimal digits to each byte.
pub open spec fn hex_pairs(s: Seq<char>, bytes: Seq<u8>) -> bool {
    &&& s.len() == 2 * bytes.len()
    &&& forall|i: int| 0 <= i < bytes.len() ==> pair_at(s, i, #[trigger] bytes[i])
}

/// A part of a line.
pub enum Part {
    Words(Seq<char>),
    /// A number in base ten.
    Number(int),
    /// A number in base ten, filled up with zeros to a width.
    Padded(int, int),
    /// A number in base sixteen, filled up with zeros to a width.
    Hex(int, int),
    /// Bytes in base sixteen.
    Bytes(Seq<u8>),
}

/// The parts of a line, one after the other.
pub enum Saying {
    Nothing,
    Then(Box<Saying>, Part),
}

impl Saying {
    pub open spec fn words(self, s: Seq<char>) -> Saying {
        Saying::Then(Box::new(self), Part::Words(s))
    }

    pub open spec fn number(self, n: int) -> Saying {
        Saying::Then(Box::new(self), Part::Number(n))
    }

    pub open spec fn padded(self, n: int, width: int) -> Saying {
        Saying::Then(Box::new(self), Part::Padded(n, width))
    }

    pub open spec fn hex(self, n: int, width: int) -> Saying {
        Saying::Then(Box::new(self), Part::Hex(n, width))
    }

    pub open spec fn bytes(self, s: Seq<u8>) -> Saying {
        Saying::Then(Box::new(self), Part::Bytes(s))
    }

    /// The parts of `self`, then those of `more`.
    pub open spec fn and(self, more: Saying) -> Saying
        decreases more,
    {
        match more {
            Saying::Nothing => self,
            Saying::Then(before, p) => Saying::Then(Box::new(self.and(*before)), p),
        }
    }
}

/// A line that begins with the words.
pub open spec fn line(s: Seq<char>) -> Saying {
    Saying::Nothing.words(s)
}

/// The text is the part.
#[verifier::opaque]
pub open spec fn is_part(s: Seq<char>, p: Part) -> bool {
    match p {
        Part::Words(w) => s == w,
        Part::Number(n) => if n < 0 {
            s.len() >= 1 && s[0] == '-' && numeral(s.skip(1), -n, 10, 1)
        } else {
            numeral(s, n, 10, 1)
        },
        Part::Padded(n, width) => numeral(s, n, 10, width),
        Part::Hex(n, width) => numeral(s, n, 16, width),
        Part::Bytes(b) => hex_pairs(s, b),
    }
}

/// The text is made of the parts.
#[verifier::opaque]
pub open spec fn says(text: Seq<char>, what: Saying) -> bool
    decreases what,
{
    match what {
        Saying::Nothing => text.len() == 0,
        Saying::Then(before, p) => exists|k: int|
            0 <= k <= text.len() && says(#[trigger] text.take(k), *before) && is_part(
                text.skip(k),
                p,
            ),
    }
}

pub broadcast proof fn lemma_says_on(text: Seq<char>, what: Saying, s: Seq<char>, p: Part)
    requires
        says(text, what),
        is_part(s, p),
    ensures
        #[trigger] says(text + s, Saying::Then(Box::new(what), p)),
{
    reveal(says);
    let all = text + s;
    let k = text.len() as int;
    assert(all.take(k) =~= text);
    assert(all.skip(k) =~= s);
}

pub broadcast proof fn lemma_says_first(s: Seq<char>, p: Part)
    requires
        is_part(s, p),
    ensures
        #[trigger] says(s, Saying::Then(Box::new(Saying::Nothing), p)),
{
    reveal(says);
    assert(s.take(0).len() == 0);
    assert(s.skip(0) =~= s);
    assert(says(s.take(0), Saying::Nothing));
}

/// Nothing is said by no text.
pub proof fn lemma_says_nothing()
    ensures
        says(Seq::<char>::empty(), Saying::Nothing),
{
    reveal(says);
}

proof fn lemma_digit_char(d: int)
    requires
        0 <= d < 16,
    ensures
        digit_worth(crate::text::digit_char(d)) == d,
        crate::text::digit_char(d) == '0' <==> d == 0,
{
}

proof fn lemma_digits(n: nat, base: nat)
    requires
        base == 10 || base == 16,
    ensures
        numeral(crate::text::digits(n, base), n as int, base as int, 1),
        n > 0 ==> crate::text::digits(n, base)[0] != '0',
    decreases n,
{
    let s = crate::text::digits(n, base);
    if n < base {
        lemma_digit_char(n as int);
        assert(s.drop_last() =~= Seq::<char>::empty());
        assert(worth(s.drop_last(), base as int) == 0);
    } else {
        let high = n / base;
        let low = n % base;
        assert(0 < high < n && high * base + low == n) by (nonlinear_arith)
            requires
                n >= base,
                base == 10 || base == 16,
                high == n / base,
                low == n % base,
        ;
        lemma_digits(high, base);
        lemma_digit_char(low as int);
        let t = crate::text::digits(high, base);
        assert(s == t.push(crate::text::digit_char(low as int)));
        assert(s.drop_last() =~= t);
        assert forall|i: int| 0 <= i < s.len() implies 0 <= digit_worth(#[trigger] s[i]) < base by {
            if i < t.len() {
                assert(s[i] == t[i]);
            }
        }
    }
}

proof fn lemma_zeros(s: Seq<char>, zeros: nat, base: int)
    ensures
        worth(Seq::new(zeros, |i: int| '0') + s, base) == worth(s, base),
    decreases zeros + s.len(),
{
    let z = Seq::new(zeros, |i: int| '0');
    let all = z + s;
    if s.len() > 0 {
        assert(all.drop_last() =~= z + s.drop_last());
        lemma_zeros(s.drop_last(), zeros, base);
    } else if zeros > 0 {
        let fewer = Seq::new((zeros - 1) as nat, |i: int| '0');
        assert(all.drop_last() =~= fewer + s);
        assert(all.last() == '0');
        lemma_zeros(s, (zeros - 1) as nat, base);
        assert(worth(s, base) == 0);
        assert(0 * base == 0);
    } else {
        assert(all =~= s);
    }
}

proof fn lemma_padded(n: nat, base: nat, width: nat)
    requires
        base == 10 || base == 16,
    ensures
        numeral(
            crate::text::zero_padded(crate::text::digits(n, base), width),
            n as int,
            base as int,
            width as int,
        ),
{
    let d = crate::text::digits(n, base);
    let s = crate::text::zero_padded(d, width);
    lemma_digits(n, base);
    if d.len() < width {
        let zeros = (width - d.len()) as nat;
        lemma_zeros(d, zeros, base as int);
        assert forall|i: int| 0 <= i < s.len() implies 0 <= digit_worth(#[trigger] s[i]) < base by {
            if i >= zeros {
                assert(s[i] == d[i - zeros]);
            } else {
                assert(s[i] == '0');
            }
        }
    }
}

pub broadcast proof fn lemma_words(s: Seq<char>)
    ensures
        #[trigger] is_part(s, Part::Words(s)),
{
    reveal(is_part);
}

pub broadcast proof fn lemma_number(n: int)
    ensures
        #[trigger] is_part(crate::text::dec(n), Part::Number(n)),
{
    reveal(is_part);
    reveal_strlit("-");
    if n < 0 {
        lemma_digits((-n) as nat, 10);
        assert(crate::text::dec(n).skip(1) =~= crate::text::digits((-n) as nat, 10));
    } else {
        lemma_digits(n as nat, 10);
    }
}

pub broadcast proof fn lemma_padded_number(n: int, width: nat, w: int)
    requires
        n >= 0,
        w == width,
    ensures
        #[trigger] is_part(
            crate::text::zero_padded(crate::text::dec(n), width),
            Part::Padded(n, w),
        ),
{
    reveal(is_part);
    lemma_padded(n as nat, 10, width);
}

pub broadcast proof fn lemma_hex(n: int)
    requires
        n >= 0,
    ensures
        #[trigger] is_part(crate::text::hex(n), Part::Hex(n, 1)),
{
    reveal(is_part);
    lemma_digits(n as nat, 16);
}

pub broadcast proof fn lemma_padded_hex(n: int, width: nat, w: int)
    requires
        n >= 0,
        w == width,
    ensures
        #[trigger] is_part(
            crate::text::zero_padded(crate::text::hex(n), width),
            Part::Hex(n, w),
        ),
{
    reveal(is_part);
    lemma_padded(n as nat, 16, width);
}

pub broadcast group group_says {
    lemma_says_on,
    lemma_says_first,
    lemma_words,
    lemma_number,
    lemma_padded_number,
    lemma_hex,
    lemma_padded_hex,
}

pub broadcast proof fn lemma_says_and(a: Seq<char>, first: Saying, b: Seq<char>, more: Saying)
    requires
        says(a, first),
        says(b, more),
    ensures
        #[trigger] says(a + b, first.and(more)),
    decreases more,
{
    reveal(says);
    match more {
        Saying::Nothing => {
            assert(a + b =~= a);
        },
        Saying::Then(before, p) => {
            let k = choose|k: int|
                0 <= k <= b.len() && says(#[trigger] b.take(k), *before) && is_part(b.skip(k), p);
            lemma_says_and(a, first, b.take(k), *before);
            lemma_says_on(a + b.take(k), first.and(*before), b.skip(k), p);
            assert(a + b.take(k) + b.skip(k) =~= a + b);
        },
    }
}

/// One byte as two digits.
proof fn lemma_one_byte(x: u8)
    ensures
        hex_pairs(crate::text::zero_padded(crate::text::hex(x as int), 2), seq![x]),
{
    let n = x as nat;
    let d = crate::text::digits(n, 16);
    let s = crate::text::zero_padded(d, 2);
    reveal_with_fuel(crate::text::digits, 3);
    if n < 16 {
        lemma_digit_char(n as int);
        assert(s[0] == '0' && s[1] == crate::text::digit_char(n as int));
    } else {
        lemma_digit_char((n / 16) as int);
        lemma_digit_char((n % 16) as int);
        assert(d == crate::text::digits(n / 16, 16).push(crate::text::digit_char((n % 16) as int)));
        assert(s[0] == crate::text::digit_char((n / 16) as int));
        assert(s[1] == crate::text::digit_char((n % 16) as int));
    }
}

pub broadcast proof fn lemma_hex_bytes(b: Seq<u8>)
    ensures
        #[trigger] is_part(crate::dump::hex_bytes(b), Part::Bytes(b)),
    decreases b.len(),
{
    reveal(is_part);
    if b.len() > 0 {
        let d = b.drop_last();
        let n = d.len() as int;
        let before = crate::dump::hex_bytes(d);
        let last = crate::text::zero_padded(crate::text::hex(b.last() as int), 2);
        let s = crate::dump::hex_bytes(b);
        lemma_hex_bytes(d);
        lemma_one_byte(b.last());
        assert(hex_pairs(before, d));
        assert(hex_pairs(last, seq![b.last()]));
        assert(s == before + last);
        assert forall|i: int| 0 <= i < b.len() implies pair_at(s, i, #[trigger] b[i]) by {
            if i < n {
                assert(pair_at(before, i, d[i]));
                assert(s[2 * i] == before[2 * i] && s[2 * i + 1] == before[2 * i + 1]);
            } else {
                let one = seq![b.last()];
                assert(pair_at(last, 0, one[0]));
                assert(s[2 * i] == last[0] && s[2 * i + 1] == last[1]);
            }
        }
        assert(s.len() == 2 * b.len());
        assert(hex_pairs(s, b));
    } else {
        assert(hex_pairs(crate::dump::hex_bytes(b), b));
    }
}

/// What the line of a region says, with `label` as the text of its label.
pub open spec fn region_saying(r: MemoryRegion, label: Seq<char>) -> Saying {
    let fields = Saying::Nothing.hex(r.start as int, 8).words("-"@).hex(r.end as int, 8).words(
        " "@,
    ).words(if r.prot_read { "r"@ } else { "-"@ }).words(
        if r.prot_write { "w"@ } else { "-"@ },
    ).words(if r.prot_exec { "x"@ } else { "-"@ }).words(
        if r.shared { "s"@ } else { "p"@ },
    ).words(" "@).hex(r.file_offset as int, 8).words(" "@).hex(r.dev_major as int, 2).words(
        ":"@,
    ).hex(r.dev_minor as int, 2).words(" "@).number(r.inode as int);
    if label.len() == 0 {
        fields
    } else {
        fields.words(" "@).words(label)
    }
}

proof fn lemma_region_line(r: MemoryRegion, label: Seq<char>)
    ensures
        says(r@.line(label), region_saying(r, label)),
{
    broadcast use group_says;

}

/// The line of a region gives its bounds with eight hexadecimal digits at least, a letter or a
/// hyphen for each permission, offset and device in hexadecimal, the inode in base ten, and the
/// label behind a blank.
pub proof fn law_region_line_says(r: MemoryRegion, label: &str, s: String)
    requires
        call_ensures(MemoryRegion::maps_line, (&r, label), s),
    ensures
        says(s@, region_saying(r, label@)),
{
    lemma_region_line(r, label@);
}

/// A label that is text stands in the line of its region as that text.
pub proof fn law_text_label_stands_in_the_line(r: MemoryRegion, s: String)
    requires
        call_ensures(MemoryRegion::format_maps_line, (&r,), s),
        vstd::utf8::valid_utf8(r.label@),
    ensures
        says(s@, region_saying(r, vstd::utf8::decode_utf8(r.label@))),
{
    lemma_region_line(r, vstd::utf8::decode_utf8(r.label@));
}

/// What the line of an event says. Of data, all is shown if it is at most 32 bytes, else the
/// first 16 and three dots.
pub open spec fn event_saying(e: TraceEvent) -> Saying {
    match e {
        TraceEvent::SyscallEnter { event_id, tid, number, args } => Saying::Nothing.padded(
            event_id as int,
            6,
        ).words(" syscall-enter tid="@).number(tid as int).words(" nr="@).number(
            number as int,
        ).words(" args=["@).number(args[0] as int).words(", "@).number(args[1] as int).words(
            ", "@,
        ).number(args[2] as int).words(", "@).number(args[3] as int).words(", "@).number(
            args[4] as int,
        ).words(", "@).number(args[5] as int).words("]"@),
        TraceEvent::SyscallExit { event_id, tid, number, result } => Saying::Nothing.padded(
            event_id as int,
            6,
        ).words(" syscall-exit  tid="@).number(tid as int).words(" nr="@).number(
            number as int,
        ).words(" result="@).number(result as int),
        TraceEvent::KernelMemoryWrite {
            event_id,
            tid,
            source_event_id,
            recorded_address,
            data,
        } => {
            let head = Saying::Nothing.padded(event_id as int, 6).words(
                " kernel-memory-write tid="@,
            ).number(tid as int).words(" source="@).padded(source_event_id as int, 6).words(
                " addr=0x"@,
            ).hex(recorded_address as int, 1).words(" len="@).number(data@.len() as int).words(
                " data_hex="@,
            );
            if data@.len() <= 32 {
                head.bytes(data@)
            } else {
                head.bytes(data@.subrange(0, 16)).words("..."@)
            }
        },
        TraceEvent::MemoryMapSnapshot { event_id, tid, regions } => Saying::Nothing.padded(
            event_id as int,
            6,
        ).words(" memory-map-snapshot tid="@).number(tid as int).words(" regions="@).number(
            regions@.len() as int,
        ),
        TraceEvent::MemoryMapAdd { event_id, tid, source_event_id, region } =>
            Saying::Nothing.padded(event_id as int, 6).words(" memory-map-add    tid="@).number(
            tid as int,
        ).words(" source="@).padded(source_event_id as int, 6).words(" "@).and(
            region_saying(region, crate::maps::lossy_text(region.label@)),
        ),
        TraceEvent::MemoryMapRemove { event_id, tid, source_event_id, region } =>
            Saying::Nothing.padded(event_id as int, 6).words(" memory-map-remove tid="@).number(
            tid as int,
        ).words(" source="@).padded(source_event_id as int, 6).words(" "@).and(
            region_saying(region, crate::maps::lossy_text(region.label@)),
        ),
        TraceEvent::SignalDelivery {
            event_id,
            tid,
            signal_number,
            si_errno,
            si_code,
            siginfo_bytes,
        } => Saying::Nothing.padded(event_id as int, 6).words(" signal-delivery tid="@).number(
            tid as int,
        ).words(" sig="@).number(signal_number as int).words(" code="@).number(
            si_code as int,
        ).words(" errno="@).number(si_errno as int).words(" siginfo_len="@).number(
            siginfo_bytes@.len() as int,
        ),
    }
}

proof fn lemma_delta_says(
    head: Seq<char>,
    what: Saying,
    region: MemoryRegion,
    label: Seq<char>,
)
    requires
        says(head, what),
    ensures
        says(head + region@.line(label), what.and(region_saying(region, label))),
{
    lemma_region_line(region, label);
    lemma_says_and(head, what, region@.line(label), region_saying(region, label));
}

proof fn lemma_data_says(head: Seq<char>, what: Saying, data: Seq<u8>)
    requires
        says(head, what),
    ensures
        says(
            head + crate::dump::hex_preview(data),
            if data.len() <= 32 {
                what.bytes(data)
            } else {
                what.bytes(data.subrange(0, 16)).words("..."@)
            },
        ),
{
    broadcast use {group_says, lemma_hex_bytes};

    if data.len() > 32 {
        let first = crate::dump::hex_bytes(data.take(16));
        assert(data.take(16) =~= data.subrange(0, 16));
        assert(head + (first + "..."@) =~= head + first + "..."@);
        assert(says(head + first, what.bytes(data.subrange(0, 16))));
    }
}

proof fn lemma_event_line(e: TraceEvent)
    ensures
        says(crate::dump::event_text(e@), event_saying(e)),
{
    broadcast use group_says;

    match e {
        TraceEvent::KernelMemoryWrite {
            event_id,
            tid,
            source_event_id,
            recorded_address,
            data,
        } => {
            let head = crate::dump::padded_id(event_id) + " kernel-memory-write tid="@
                + crate::text::dec(tid as int) + " source="@ + crate::dump::padded_id(
                source_event_id,
            ) + " addr=0x"@ + crate::text::hex(recorded_address as int) + " len="@
                + crate::text::dec(data@.len() as int) + " data_hex="@;
            lemma_data_says(
                head,
                Saying::Nothing.padded(event_id as int, 6).words(
                    " kernel-memory-write tid="@,
                ).number(tid as int).words(" source="@).padded(source_event_id as int, 6).words(
                    " addr=0x"@,
                ).hex(recorded_address as int, 1).words(" len="@).number(
                    data@.len() as int,
                ).words(" data_hex="@),
                data@,
            );
        },
        TraceEvent::MemoryMapAdd { event_id, tid, source_event_id, region } => {
            let head = crate::dump::padded_id(event_id) + " memory-map-add    tid="@
                + crate::text::dec(tid as int) + " source="@ + crate::dump::padded_id(
                source_event_id,
            ) + " "@;
            lemma_delta_says(
                head,
                Saying::Nothing.padded(event_id as int, 6).words(
                    " memory-map-add    tid="@,
                ).number(tid as int).words(" source="@).padded(source_event_id as int, 6).words(
                    " "@,
                ),
                region,
                crate::maps::lossy_text(region.label@),
            );
        },
        TraceEvent::MemoryMapRemove { event_id, tid, source_event_id, region } => {
            let head = crate::dump::padded_id(event_id) + " memory-map-remove tid="@
                + crate::text::dec(tid as int) + " source="@ + crate::dump::padded_id(
                source_event_id,
            ) + " "@;
            lemma_delta_says(
                head,
                Saying::Nothing.padded(event_id as int, 6).words(
                    " memory-map-remove tid="@,
                ).number(tid as int).words(" source="@).padded(source_event_id as int, 6).words(
                    " "@,
                ),
                region,
                crate::maps::lossy_text(region.label@),
            );
        },
        _ => {},
    }
}

/// The line of an event gives its id, its thread and everything it holds, in this order and
/// under these names.
pub proof fn law_event_line_says(e: TraceEvent, s: String)
    requires
        call_ensures(crate::dump::dump_line, (&e,), s),
    ensures
        says(s@, event_saying(e)),
{
    lemma_event_line(e);
}

/// The text of a trace has one line to each event that is read from it, in order; bytes that
/// cannot be read have no text, for the same reason.
pub proof fn law_dump_has_a_line_for_each_event(
    bytes: &[u8],
    lines: Result<Vec<String>, String>,
    trace: Result<ParsedTrace, String>,
)
    requires
        call_ensures(crate::dump::dump_trace_bytes, (bytes,), lines),
        call_ensures(crate::parser::parse_trace_bytes, (bytes,), trace),
    ensures
        match trace {
            Ok(t) => {
                &&& lines is Ok
                &&& lines->Ok_0@.len() == t.events@.len()
                &&& forall|i: int|
                    0 <= i < t.events@.len() ==> says(
                        (#[trigger] lines->Ok_0@[i])@,
                        event_saying(t.events@[i]),
                    )
            },
            Err(text) => lines is Err && lines->Err_0@ == text@,
        },
{
    if trace is Ok {
        let t = trace->Ok_0;
        assert forall|i: int| 0 <= i < t.events@.len() implies says(
            (#[trigger] lines->Ok_0@[i])@,
            event_saying(t.events@[i]),
        ) by {
            lemma_event_line(t.events@[i]);
            assert(t@.events[i] == t.events@[i]@);
        }
    }
}

spec fn power(base: int, k: nat) -> int
    decreases k,
{
    if k == 0 {
        1
    } else {
        base * power(base, (k - 1) as nat)
    }
}

proof fn lemma_power(base: int, j: nat, k: nat)
    requires
        base >= 2,
        j <= k,
    ensures
        1 <= power(base, j) <= power(base, k),
    decreases k,
{
    if j < k {
        lemma_power(base, j, (k - 1) as nat);
        let p = power(base, (k - 1) as nat);
        assert(base * p >= p) by (nonlinear_arith)
            requires
                base >= 2,
                p >= 1,
        ;
    } else if k > 0 {
        lemma_power(base, (k - 1) as nat, (k - 1) as nat);
        let p = power(base, (k - 1) as nat);
        assert(base * p >= 1) by (nonlinear_arith)
            requires
                base >= 2,
                p >= 1,
        ;
    }
}

proof fn lemma_worth_bounds(s: Seq<char>, base: int)
    requires
        base >= 2,
        s.len() > 0,
        forall|i: int| 0 <= i < s.len() ==> 0 <= digit_worth(#[trigger] s[i]) < base,
    ensures
        0 <= worth(s, base) < power(base, s.len()),
        s[0] != '0' ==> worth(s, base) >= power(base, (s.len() - 1) as nat),
    decreases s.len(),
{
    let d = s.drop_last();
    let low = digit_worth(s[s.len() - 1]);
    assert(0 <= low < base);
    if d.len() == 0 {
        assert(worth(d, base) == 0);
        assert(0 * base == 0);
        assert(power(base, 0) == 1);
        assert(power(base, 1) == base * power(base, 0));
        assert(base * 1 == base);
    } else {
        assert forall|i: int| 0 <= i < d.len() implies 0 <= digit_worth(#[trigger] d[i]) < base by {
            assert(d[i] == s[i]);
        }
        lemma_worth_bounds(d, base);
        let h = worth(d, base);
        let p = power(base, d.len());
        let q = power(base, (d.len() - 1) as nat);
        assert(power(base, s.len()) == base * p);
        assert(p == base * q);
        assert(0 <= h * base + low < base * p) by (nonlinear_arith)
            requires
                0 <= h < p,
                0 <= low < base,
        ;
        if s[0] != '0' {
            assert(d[0] == s[0]);
            assert(h * base + low >= base * q) by (nonlinear_arith)
                requires
                    h >= q,
                    low >= 0,
                    base >= 2,
            ;
        }
    }
}

proof fn lemma_same_digits(a: Seq<char>, b: Seq<char>, base: int)
    requires
        2 <= base <= 16,
        a.len() == b.len(),
        forall|i: int| 0 <= i < a.len() ==> 0 <= digit_worth(#[trigger] a[i]) < base,
        forall|i: int| 0 <= i < b.len() ==> 0 <= digit_worth(#[trigger] b[i]) < base,
        worth(a, base) == worth(b, base),
    ensures
        a == b,
    decreases a.len(),
{
    if a.len() > 0 {
        let c = a.drop_last();
        let d = b.drop_last();
        let x = digit_worth(a[a.len() - 1]);
        let y = digit_worth(b[b.len() - 1]);
        assert forall|i: int| 0 <= i < c.len() implies 0 <= digit_worth(#[trigger] c[i]) < base by {
            assert(c[i] == a[i]);
        }
        assert forall|i: int| 0 <= i < d.len() implies 0 <= digit_worth(#[trigger] d[i]) < base by {
            assert(d[i] == b[i]);
        }
        let h = worth(c, base);
        let k = worth(d, base);
        assert(h == k && x == y) by (nonlinear_arith)
            requires
                h * base + x == k * base + y,
                0 <= x < base,
                0 <= y < base,
                base >= 2,
        ;
        lemma_same_digits(c, d, base);
        assert(a.last() == b.last());
        assert(a =~= c.push(a.last()));
        assert(b =~= d.push(b.last()));
    } else {
        assert(a =~= b);
    }
}

proof fn lemma_one_numeral(a: Seq<char>, b: Seq<char>, n: int, base: int, width: int)
    requires
        2 <= base <= 16,
        numeral(a, n, base, width),
        numeral(b, n, base, width),
        a.len() <= b.len(),
    ensures
        a == b,
{
    if a.len() < b.len() {
        lemma_worth_bounds(a, base);
        lemma_worth_bounds(b, base);
        lemma_power(base, a.len(), (b.len() - 1) as nat);
    } else {
        lemma_same_digits(a, b, base);
    }
}

proof fn lemma_one_part(a: Seq<char>, b: Seq<char>, p: Part)
    requires
        is_part(a, p),
        is_part(b, p),
    ensures
        a == b,
{
    reveal(is_part);
    match p {
        Part::Words(_) => {},
        Part::Number(n) => {
            if n < 0 {
                let c = a.skip(1);
                let d = b.skip(1);
                if c.len() <= d.len() {
                    lemma_one_numeral(c, d, -n, 10, 1);
                } else {
                    lemma_one_numeral(d, c, -n, 10, 1);
                }
                assert(a =~= seq!['-'] + c);
                assert(b =~= seq!['-'] + d);
            } else if a.len() <= b.len() {
                lemma_one_numeral(a, b, n, 10, 1);
            } else {
                lemma_one_numeral(b, a, n, 10, 1);
            }
        },
        Part::Padded(n, width) => {
            if a.len() <= b.len() {
                lemma_one_numeral(a, b, n, 10, width);
            } else {
                lemma_one_numeral(b, a, n, 10, width);
            }
        },
        Part::Hex(n, width) => {
            if a.len() <= b.len() {
                lemma_one_numeral(a, b, n, 16, width);
            } else {
                lemma_one_numeral(b, a, n, 16, width);
            }
        },
        Part::Bytes(bytes) => {
            assert forall|i: int| 0 <= i < a.len() implies a[i] == b[i] by {
                let k = i / 2;
                assert(pair_at(a, k, bytes[k]));
                assert(pair_at(b, k, bytes[k]));
                assert(i == 2 * k || i == 2 * k + 1);
            }
            assert(a =~= b);
        },
    }
}

/// What a line says leaves nothing open: two lines that say the same are the same line.
pub proof fn law_what_is_said_fixes_the_line(a: Seq<char>, b: Seq<char>, what: Saying)
    requires
        says(a, what),
        says(b, what),
    ensures
        a == b,
    decreases what,
{
    reveal(says);
    match what {
        Saying::Nothing => {
            assert(a =~= b);
        },
        Saying::Then(before, p) => {
            let i = choose|k: int|
                0 <= k <= a.len() && says(#[trigger] a.take(k), *before) && is_part(a.skip(k), p);
            let j = choose|k: int|
                0 <= k <= b.len() && says(#[trigger] b.take(k), *before) && is_part(b.skip(k), p);
            law_what_is_said_fixes_the_line(a.take(i), b.take(j), *before);
            lemma_one_part(a.skip(i), b.skip(j), p);
            assert(a =~= a.take(i) + a.skip(i));
            assert(b =~= b.take(j) + b.skip(j));
        },
    }
}

} // verus!
