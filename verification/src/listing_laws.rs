//! Lines that regions are printed as are read back as those regions.
use vstd::prelude::*;
use crate::maps::Region;
use crate::proc_maps::Perms;

verus! {

/// A digit of a base of at most sixteen, as it is printed.
pub open spec fn is_digit(c: char) -> bool {
    '0' <= c <= '9' || 'a' <= c <= 'f'
}

pub open spec fn all_digits(s: Seq<char>) -> bool {
    forall|i: int| 0 <= i < s.len() ==> is_digit(#[trigger] s[i])
}

/// A label that a line can end in: text, not beginning with a blank, free of line breaks, and
/// not ending in a carriage return.
pub open spec fn plain_label(label: Seq<u8>) -> bool {
    &&& vstd::utf8::valid_utf8(label)
    &&& label.len() > 0 ==> !crate::proc_maps::is_blank(label[0]) && label.last() != 13
    &&& forall|i: int| 0 <= i < label.len() ==> #[trigger] label[i] != 10
}

/// The bytes of the line that a region is printed as.
pub open spec fn line_bytes(r: Region) -> Seq<u8> {
    vstd::utf8::encode_utf8(r.line(vstd::utf8::decode_utf8(r.label)))
}

/// The lines of a map, each with a line break behind it.
pub open spec fn listing(s: Seq<Region>) -> Seq<u8>
    decreases s.len(),
{
    if s.len() == 0 {
        Seq::empty()
    } else {
        listing(s.drop_last()) + line_bytes(s.last()) + seq![10u8]
    }
}

/// The lines of a map with a line break between each and the next.
pub open spec fn joined_lines(s: Seq<Region>) -> Seq<char>
    decreases s.len(),
{
    if s.len() == 0 {
        Seq::empty()
    } else if s.len() == 1 {
        s[0].line(vstd::utf8::decode_utf8(s[0].label))
    } else {
        joined_lines(s.drop_last()) + seq!['\n'] + s.last().line(
            vstd::utf8::decode_utf8(s.last().label),
        )
    }
}

proof fn lemma_encode_concat(a: Seq<char>, b: Seq<char>)
    ensures
        vstd::utf8::encode_utf8(a + b) == vstd::utf8::encode_utf8(a) + vstd::utf8::encode_utf8(b),
    decreases a.len(),
{
    if a.len() == 0 {
        assert(a + b =~= b);
        assert(vstd::utf8::encode_utf8(a) =~= Seq::<u8>::empty());
        assert(Seq::<u8>::empty() + vstd::utf8::encode_utf8(b) =~= vstd::utf8::encode_utf8(b));
    } else {
        lemma_encode_concat(a.drop_first(), b);
        assert((a + b).drop_first() =~= a.drop_first() + b);
        assert((a + b)[0] == a[0]);
        let first = vstd::utf8::encode_scalar(a[0] as u32);
        assert(first + (vstd::utf8::encode_utf8(a.drop_first()) + vstd::utf8::encode_utf8(b))
            =~= first + vstd::utf8::encode_utf8(a.drop_first()) + vstd::utf8::encode_utf8(b));
    }
}

/// One ASCII character is encoded as its number.
proof fn lemma_encode_one(c: char)
    requires
        c <= '\u{7f}',
    ensures
        vstd::utf8::encode_utf8(seq![c]) == seq![c as u8],
{
    let s = seq![c];
    assert(vstd::utf8::is_ascii_chars(s));
    vstd::utf8::is_ascii_chars_encode_utf8(s);
    assert(s[0] as u8 == vstd::utf8::encode_utf8(s)[0]);
    assert(vstd::utf8::encode_utf8(s) =~= seq![c as u8]);
}

/// Digits are encoded one to a byte, and none of them is a separator.
proof fn lemma_encode_digits(s: Seq<char>)
    requires
        all_digits(s),
    ensures
        vstd::utf8::encode_utf8(s).len() == s.len(),
        forall|i: int|
            0 <= i < s.len() ==> ({
                let b = #[trigger] vstd::utf8::encode_utf8(s)[i];
                48 <= b <= 57 || 97 <= b <= 102
            }),
        vstd::utf8::valid_utf8(vstd::utf8::encode_utf8(s)),
        vstd::utf8::decode_utf8(vstd::utf8::encode_utf8(s)) == s,
{
    assert(vstd::utf8::is_ascii_chars(s)) by {
        assert forall|i: int| 0 <= i < s.len() implies '\0' <= #[trigger] s[i] <= '\u{7f}' by {
            assert(is_digit(s[i]));
        }
    }
    vstd::utf8::is_ascii_chars_encode_utf8(s);
    vstd::utf8::encode_utf8_valid_utf8(s);
    vstd::utf8::encode_utf8_decode_utf8(s);
    assert forall|i: int| 0 <= i < s.len() implies ({
        let b = #[trigger] vstd::utf8::encode_utf8(s)[i];
        48 <= b <= 57 || 97 <= b <= 102
    }) by {
        assert(is_digit(s[i]));
        assert(s[i] as u8 == vstd::utf8::encode_utf8(s)[i]);
    }
}

/// The digits of a number denote it.
proof fn lemma_digits_denote(n: nat, base: nat)
    requires
        base == 10 || base == 16,
    ensures
        crate::text::digits(n, base).len() > 0,
        all_digits(crate::text::digits(n, base)),
        crate::proc_maps::digits_value(crate::text::digits(n, base), base) == Some(n),
    decreases n,
{
    let s = crate::text::digits(n, base);
    let last = (n % base) as int;
    if n < base {
        assert(s.drop_last() =~= Seq::<char>::empty());
        assert(crate::proc_maps::digits_value(s.drop_last(), base) == Some(0nat));
        assert(n % base == n) by (nonlinear_arith)
            requires
                n < base,
        ;
        assert(s.last() == crate::text::digit_char(n as int));
        assert(crate::proc_maps::digit_value(s.last(), base) == Some(n));
    } else {
        assert(n / base < n) by (nonlinear_arith)
            requires
                n >= base,
                base >= 2,
        ;
        lemma_digits_denote(n / base, base);
        assert(s.drop_last() =~= crate::text::digits(n / base, base));
        assert(0 <= last < base) by (nonlinear_arith)
            requires
                last == (n % base) as int,
                base >= 2,
        ;
        assert(s.last() == crate::text::digit_char(last));
        assert(crate::proc_maps::digit_value(s.last(), base) == Some(last as nat));
        assert((n / base) * base + n % base == n) by (nonlinear_arith)
            requires
                base >= 2,
        ;
        assert forall|i: int| 0 <= i < s.len() implies is_digit(#[trigger] s[i]) by {
            if i < s.len() - 1 {
                assert(s[i] == crate::text::digits(n / base, base)[i]);
            }
        }
    }
}

/// Zeros in front change nothing.
proof fn lemma_leading_zeros(s: Seq<char>, zeros: nat, base: nat)
    requires
        base == 10 || base == 16,
    ensures
        crate::proc_maps::digits_value(Seq::new(zeros, |i: int| '0') + s, base)
            == crate::proc_maps::digits_value(s, base),
    decreases s.len(), zeros,
{
    let pad = Seq::new(zeros, |i: int| '0');
    let all = pad + s;
    if s.len() > 0 {
        lemma_leading_zeros(s.drop_last(), zeros, base);
        assert(all.drop_last() =~= pad + s.drop_last());
        assert(all.last() == s.last());
    } else if zeros > 0 {
        let fewer = Seq::new((zeros - 1) as nat, |i: int| '0');
        lemma_leading_zeros(s, (zeros - 1) as nat, base);
        assert(all.drop_last() =~= fewer + s);
        assert(all.last() == '0');
        assert(0 * base + 0 == 0) by (nonlinear_arith);
    } else {
        assert(all =~= s);
    }
}

/// A number printed with leading zeros is read back.
proof fn lemma_padded_reads(n: nat, base: nat, width: nat)
    requires
        base == 10 || base == 16,
    ensures
        ({
            let s = crate::text::zero_padded(crate::text::digits(n, base), width);
            &&& s.len() > 0
            &&& all_digits(s)
            &&& crate::proc_maps::number_value(s, base) == Some(n)
        }),
{
    let d = crate::text::digits(n, base);
    let s = crate::text::zero_padded(d, width);
    lemma_digits_denote(n, base);
    if d.len() < width {
        lemma_leading_zeros(d, (width - d.len()) as nat, base);
        assert forall|i: int| 0 <= i < s.len() implies is_digit(#[trigger] s[i]) by {
            if i >= width - d.len() {
                assert(s[i] == d[i - (width - d.len())]);
            }
        }
    }
    assert(is_digit(s[0]));
}

pub proof fn lemma_after_blanks(s: Seq<u8>, i: int, j: int)
    requires
        0 <= i <= j <= s.len(),
        forall|k: int| i <= k < j ==> crate::proc_maps::is_blank(#[trigger] s[k]),
        j < s.len() ==> !crate::proc_maps::is_blank(s[j]),
    ensures
        crate::proc_maps::after_blanks(s, i) == j,
    decreases j - i,
{
    if i < j {
        assert(crate::proc_maps::is_blank(s[i]));
        lemma_after_blanks(s, i + 1, j);
    }
}

pub proof fn lemma_field_end(s: Seq<u8>, i: int, j: int)
    requires
        0 <= i <= j <= s.len(),
        forall|k: int| i <= k < j ==> !crate::proc_maps::is_blank(#[trigger] s[k]),
        j < s.len() ==> crate::proc_maps::is_blank(s[j]),
    ensures
        crate::proc_maps::field_end(s, i) == j,
    decreases j - i,
{
    if i < j {
        assert(!crate::proc_maps::is_blank(s[i]));
        lemma_field_end(s, i + 1, j);
    }
}

pub proof fn lemma_position(s: Seq<u8>, c: u8, i: int, j: int)
    requires
        0 <= i <= j < s.len(),
        forall|k: int| i <= k < j ==> #[trigger] s[k] != c,
        s[j] == c,
    ensures
        crate::proc_maps::position_of(s, c, i) == j,
    decreases j - i,
{
    if i < j {
        assert(s[i] != c);
        lemma_position(s, c, i + 1, j);
    }
}

/// A word free of blanks that stands in a line, at its beginning or behind a blank, and before
/// a blank or the end, is the next field.
proof fn lemma_word_is_field(
    before: Seq<u8>,
    word: Seq<u8>,
    after: Seq<u8>,
    complaint: Seq<char>,
)
    requires
        word.len() > 0,
        forall|k: int| 0 <= k < word.len() ==> !crate::proc_maps::is_blank(#[trigger] word[k]),
        before.len() > 0 ==> before.last() == 32,
        after.len() > 0 ==> after[0] == 32,
    ensures
        ({
            let line = before + word + after;
            let from = if before.len() > 0 {
                before.len() - 1
            } else {
                0
            };
            crate::proc_maps::field_of(line, from, complaint) == Ok::<
                (Seq<u8>, int),
                Seq<char>,
            >((word, (before.len() + word.len()) as int))
        }),
{
    let line = before + word + after;
    let from = if before.len() > 0 {
        before.len() - 1
    } else {
        0
    };
    let start = before.len() as int;
    let end = (before.len() + word.len()) as int;
    assert(line[start] == word[0]);
    assert forall|k: int| from <= k < start implies crate::proc_maps::is_blank(
        #[trigger] line[k],
    ) by {
        assert(line[k] == before[k]);
    }
    lemma_after_blanks(line, from, start);
    assert forall|k: int| start <= k < end implies !crate::proc_maps::is_blank(
        #[trigger] line[k],
    ) by {
        assert(line[k] == word[k - start]);
    }
    if end < line.len() {
        assert(line[end] == after[0]);
    }
    lemma_field_end(line, start, end);
    assert(line.subrange(start, end) =~= word);
}

/// The bounds of a region as a word of its line; the other words follow.
#[verifier::opaque]
spec fn range_word(r: Region) -> Seq<u8> {
    hex_bytes(r.start as nat, 8) + seq![45u8] + hex_bytes(r.end as nat, 8)
}

#[verifier::opaque]
spec fn hex_bytes(n: nat, width: nat) -> Seq<u8> {
    vstd::utf8::encode_utf8(crate::text::zero_padded(crate::text::digits(n, 16), width))
}

#[verifier::opaque]
spec fn perms_word(r: Region) -> Seq<u8> {
    seq![
        if r.prot_read { 114u8 } else { 45u8 },
        if r.prot_write { 119u8 } else { 45u8 },
        if r.prot_exec { 120u8 } else { 45u8 },
        if r.shared { 115u8 } else { 112u8 },
    ]
}

#[verifier::opaque]
spec fn dev_word(r: Region) -> Seq<u8> {
    hex_bytes(r.dev_major as nat, 2) + seq![58u8] + hex_bytes(r.dev_minor as nat, 2)
}

#[verifier::opaque]
spec fn inode_word(r: Region) -> Seq<u8> {
    vstd::utf8::encode_utf8(crate::text::digits(r.inode as nat, 10))
}

spec fn no_blanks(s: Seq<u8>) -> bool {
    forall|k: int| 0 <= k < s.len() ==> !crate::proc_maps::is_blank(#[trigger] s[k])
}

spec fn no_breaks(s: Seq<u8>) -> bool {
    forall|k: int| 0 <= k < s.len() ==> #[trigger] s[k] != 10 && s[k] != 13
}

proof fn lemma_hex_word(n: nat, width: nat)
    ensures
        hex_bytes(n, width).len() > 0,
        no_blanks(hex_bytes(n, width)),
        no_breaks(hex_bytes(n, width)),
        forall|k: int|
            0 <= k < hex_bytes(n, width).len() ==> #[trigger] hex_bytes(n, width)[k] != 45
                && hex_bytes(n, width)[k] != 58,
        vstd::utf8::valid_utf8(hex_bytes(n, width)),
        crate::proc_maps::number_value(vstd::utf8::decode_utf8(hex_bytes(n, width)), 16) == Some(n),
{
    reveal(hex_bytes);
    lemma_padded_reads(n, 16, width);
    lemma_encode_digits(crate::text::zero_padded(crate::text::digits(n, 16), width));
}

proof fn lemma_range_reads(r: Region)
    ensures
        crate::proc_maps::range_of(range_word(r)) == Ok::<(u64, u64), Seq<char>>((r.start, r.end)),
        range_word(r).len() > 0,
        no_blanks(range_word(r)),
        no_breaks(range_word(r)),
{
    reveal(range_word);
    let a = hex_bytes(r.start as nat, 8);
    let b = hex_bytes(r.end as nat, 8);
    let w = range_word(r);
    lemma_hex_word(r.start as nat, 8);
    lemma_hex_word(r.end as nat, 8);
    assert forall|k: int| 0 <= k < a.len() implies #[trigger] w[k] != 45 by {
        assert(w[k] == a[k]);
    }
    lemma_position(w, 45, 0, a.len() as int);
    assert(w.take(a.len() as int) =~= a);
    assert(w.skip(a.len() as int + 1) =~= b);
    assert forall|k: int| 0 <= k < w.len() implies !crate::proc_maps::is_blank(#[trigger] w[k])
        && w[k] != 10 && w[k] != 13 by {
        if k < a.len() {
            assert(w[k] == a[k]);
        } else if k > a.len() {
            assert(w[k] == b[k - a.len() - 1]);
        }
    }
}

proof fn lemma_dev_reads(r: Region)
    ensures
        crate::proc_maps::dev_of(dev_word(r)) == Ok::<(u32, u32), Seq<char>>(
            (r.dev_major, r.dev_minor),
        ),
        dev_word(r).len() > 0,
        no_blanks(dev_word(r)),
        no_breaks(dev_word(r)),
{
    reveal(dev_word);
    let a = hex_bytes(r.dev_major as nat, 2);
    let b = hex_bytes(r.dev_minor as nat, 2);
    let w = dev_word(r);
    lemma_hex_word(r.dev_major as nat, 2);
    lemma_hex_word(r.dev_minor as nat, 2);
    assert forall|k: int| 0 <= k < a.len() implies #[trigger] w[k] != 58 by {
        assert(w[k] == a[k]);
    }
    lemma_position(w, 58, 0, a.len() as int);
    assert(w.take(a.len() as int) =~= a);
    assert(w.skip(a.len() as int + 1) =~= b);
    assert forall|k: int| 0 <= k < w.len() implies !crate::proc_maps::is_blank(#[trigger] w[k])
        && w[k] != 10 && w[k] != 13 by {
        if k < a.len() {
            assert(w[k] == a[k]);
        } else if k > a.len() {
            assert(w[k] == b[k - a.len() - 1]);
        }
    }
}

proof fn lemma_other_words_read(r: Region)
    ensures
        crate::proc_maps::perms_of(perms_word(r)) == Ok::<Perms, Seq<char>>(
            Perms {
                read: r.prot_read,
                write: r.prot_write,
                execute: r.prot_exec,
                shared: r.shared,
            },
        ),
        perms_word(r).len() > 0,
        no_blanks(perms_word(r)),
        no_breaks(perms_word(r)),
        crate::proc_maps::offset_of(hex_bytes(r.file_offset as nat, 8)) == Ok::<u64, Seq<char>>(
            r.file_offset,
        ),
        crate::proc_maps::inode_of(inode_word(r)) == Ok::<u64, Seq<char>>(r.inode),
        inode_word(r).len() > 0,
        no_blanks(inode_word(r)),
        no_breaks(inode_word(r)),
{
    reveal(perms_word);
    reveal(inode_word);
    lemma_hex_word(r.file_offset as nat, 8);
    lemma_padded_reads(r.inode as nat, 10, 0);
    lemma_encode_digits(crate::text::digits(r.inode as nat, 10));
}

/// The line as a row of words.
spec fn words(r: Region) -> Seq<u8> {
    five_words(
        range_word(r),
        perms_word(r),
        hex_bytes(r.file_offset as nat, 8),
        dev_word(r),
        inode_word(r),
    )
}

spec fn label_tail(r: Region) -> Seq<u8> {
    if r.label.len() == 0 {
        Seq::empty()
    } else {
        seq![32u8] + r.label
    }
}

proof fn lemma_flag(c: char, s: Seq<char>, b: u8)
    requires
        s == seq![c],
        c <= '\u{7f}',
        c as u8 == b,
    ensures
        vstd::utf8::encode_utf8(s) == seq![b],
{
    lemma_encode_one(c);
}

/// The encoding of the line's fixed part is the row of words.
#[verifier::rlimit(50)]
proof fn lemma_words_encode(r: Region)
    ensures
        vstd::utf8::encode_utf8(r.line(Seq::empty())) == words(r),
{
    reveal(range_word);
    reveal(hex_bytes);
    reveal(perms_word);
    reveal(dev_word);
    reveal(inode_word);
    reveal_strlit("-");
    reveal_strlit(" ");
    reveal_strlit("r");
    reveal_strlit("w");
    reveal_strlit("x");
    reveal_strlit("s");
    reveal_strlit("p");
    reveal_strlit(":");
    assert("-"@ =~= seq!['-']);
    assert(" "@ =~= seq![' ']);
    assert("r"@ =~= seq!['r']);
    assert("w"@ =~= seq!['w']);
    assert("x"@ =~= seq!['x']);
    assert("s"@ =~= seq!['s']);
    assert("p"@ =~= seq!['p']);
    assert(":"@ =~= seq![':']);
    lemma_flag('-', "-"@, 45);
    lemma_flag(' ', " "@, 32);
    lemma_flag('r', "r"@, 114);
    lemma_flag('w', "w"@, 119);
    lemma_flag('x', "x"@, 120);
    lemma_flag('s', "s"@, 115);
    lemma_flag('p', "p"@, 112);
    lemma_flag(':', ":"@, 58);
    let t0 = crate::text::zero_padded(crate::text::hex(r.start as int), 8);
    let t1 = t0 + "-"@;
    let u1 = crate::text::zero_padded(crate::text::hex(r.end as int), 8);
    let t2 = t1 + u1;
    let t3 = t2 + " "@;
    let f1 = if r.prot_read { "r"@ } else { "-"@ };
    let t4 = t3 + f1;
    let f2 = if r.prot_write { "w"@ } else { "-"@ };
    let t5 = t4 + f2;
    let f3 = if r.prot_exec { "x"@ } else { "-"@ };
    let t6 = t5 + f3;
    let f4 = if r.shared { "s"@ } else { "p"@ };
    let t7 = t6 + f4;
    let t8 = t7 + " "@;
    let u2 = crate::text::zero_padded(crate::text::hex(r.file_offset as int), 8);
    let t9 = t8 + u2;
    let t10 = t9 + " "@;
    let u3 = crate::text::zero_padded(crate::text::hex(r.dev_major as int), 2);
    let t11 = t10 + u3;
    let t12 = t11 + ":"@;
    let u4 = crate::text::zero_padded(crate::text::hex(r.dev_minor as int), 2);
    let t13 = t12 + u4;
    let t14 = t13 + " "@;
    let u5 = crate::text::dec(r.inode as int);
    let t15 = t14 + u5;
    assert(r.line(Seq::empty()) == t15);
    lemma_encode_concat(t0, "-"@);
    lemma_encode_concat(t1, u1);
    lemma_encode_concat(t2, " "@);
    lemma_encode_concat(t3, f1);
    lemma_encode_concat(t4, f2);
    lemma_encode_concat(t5, f3);
    lemma_encode_concat(t6, f4);
    lemma_encode_concat(t7, " "@);
    lemma_encode_concat(t8, u2);
    lemma_encode_concat(t9, " "@);
    lemma_encode_concat(t10, u3);
    lemma_encode_concat(t11, ":"@);
    lemma_encode_concat(t12, u4);
    lemma_encode_concat(t13, " "@);
    lemma_encode_concat(t14, u5);
    let e3 = vstd::utf8::encode_utf8(t3);
    let e7 = vstd::utf8::encode_utf8(t7);
    assert(e3 =~= range_word(r) + seq![32u8]);
    assert(e7 =~= e3 + perms_word(r));
    let e10 = vstd::utf8::encode_utf8(t10);
    assert(e10 =~= e7 + seq![32u8] + hex_bytes(r.file_offset as nat, 8) + seq![32u8]);
    let e13 = vstd::utf8::encode_utf8(t13);
    assert(e13 =~= e10 + dev_word(r));
    assert(vstd::utf8::encode_utf8(t15) =~= words(r));
}

/// The bytes of a line are its words and its label.
proof fn lemma_line_bytes(r: Region)
    requires
        vstd::utf8::valid_utf8(r.label),
    ensures
        line_bytes(r) == words(r) + label_tail(r),
{
    let text = vstd::utf8::decode_utf8(r.label);
    vstd::utf8::decode_utf8_encode_utf8(r.label);
    lemma_words_encode(r);
    let fields = r.line(Seq::empty());
    if r.label.len() == 0 {
        assert(text =~= Seq::<char>::empty());
        assert(words(r) + label_tail(r) =~= words(r));
    } else {
        if text.len() == 0 {
            assert(vstd::utf8::encode_utf8(text) =~= Seq::<u8>::empty());
        }
        reveal_strlit(" ");
        assert(" "@ =~= seq![' ']);
        lemma_flag(' ', " "@, 32);
        lemma_encode_concat(fields, " "@);
        lemma_encode_concat(fields + " "@, text);
        assert(words(r) + seq![32u8] + r.label =~= words(r) + label_tail(r));
    }
}

/// A word behind a blank is the next field.
proof fn lemma_word_after_blank(
    before: Seq<u8>,
    word: Seq<u8>,
    after: Seq<u8>,
    complaint: Seq<char>,
)
    requires
        word.len() > 0 && no_blanks(word),
        after.len() > 0 ==> after[0] == 32,
    ensures
        crate::proc_maps::field_of(
            before + seq![32u8] + word + after,
            before.len() as int,
            complaint,
        ) == Ok::<(Seq<u8>, int), Seq<char>>((word, (before.len() + 1 + word.len()) as int)),
{
    lemma_word_is_field(before + seq![32u8], word, after, complaint);
}

proof fn lemma_regroup(a: Seq<u8>, b: Seq<u8>, c: Seq<u8>, d: Seq<u8>)
    ensures
        a + (b + c + d) == a + b + c + d,
{
    assert(a + (b + c + d) =~= a + b + c + d);
}

/// Five words in a row.
spec fn five_words(w1: Seq<u8>, w2: Seq<u8>, w3: Seq<u8>, w4: Seq<u8>, w5: Seq<u8>) -> Seq<u8> {
    w1 + seq![32u8] + w2 + seq![32u8] + w3 + seq![32u8] + w4 + seq![32u8] + w5
}

/// Words in a row are the fields of the line.
#[verifier::rlimit(50)]
proof fn lemma_fields(
    w1: Seq<u8>,
    w2: Seq<u8>,
    w3: Seq<u8>,
    w4: Seq<u8>,
    w5: Seq<u8>,
    tail: Seq<u8>,
    complaints: Seq<Seq<char>>,
)
    requires
        w1.len() > 0 && no_blanks(w1),
        w2.len() > 0 && no_blanks(w2),
        w3.len() > 0 && no_blanks(w3),
        w4.len() > 0 && no_blanks(w4),
        w5.len() > 0 && no_blanks(w5),
        tail.len() > 0 ==> tail[0] == 32,
    ensures
        ({
            let line = five_words(w1, w2, w3, w4, w5) + tail;
            let p1 = w1.len() as int;
            let p2 = p1 + 1 + w2.len();
            let p3 = p2 + 1 + w3.len();
            let p4 = p3 + 1 + w4.len();
            let p5 = p4 + 1 + w5.len();
            &&& crate::proc_maps::field_of(line, 0, complaints[0]) == Ok::<
                (Seq<u8>, int),
                Seq<char>,
            >((w1, p1))
            &&& crate::proc_maps::field_of(line, p1, complaints[1]) == Ok::<
                (Seq<u8>, int),
                Seq<char>,
            >((w2, p2))
            &&& crate::proc_maps::field_of(line, p2, complaints[2]) == Ok::<
                (Seq<u8>, int),
                Seq<char>,
            >((w3, p3))
            &&& crate::proc_maps::field_of(line, p3, complaints[3]) == Ok::<
                (Seq<u8>, int),
                Seq<char>,
            >((w4, p4))
            &&& crate::proc_maps::field_of(line, p4, complaints[4]) == Ok::<
                (Seq<u8>, int),
                Seq<char>,
            >((w5, p5))
        }),
{
    let blank = seq![32u8];
    let line = five_words(w1, w2, w3, w4, w5) + tail;
    let none = Seq::<u8>::empty();
    let a4 = blank + w5 + tail;
    let a3 = blank + w4 + a4;
    let a2 = blank + w3 + a3;
    let a1 = blank + w2 + a2;
    let b2 = w1 + blank;
    let b3 = b2 + w2 + blank;
    let b4 = b3 + w3 + blank;
    let b5 = b4 + w4 + blank;
    let r4 = b4 + w4 + a4;
    let r3 = b3 + w3 + a3;
    let r2 = b2 + w2 + a2;
    let r1 = none + w1 + a1;
    assert(line == b5 + w5 + tail);
    assert(r4 == line) by {
        lemma_regroup(b4 + w4, blank, w5, tail);
    }
    assert(r3 == r4) by {
        lemma_regroup(b3 + w3, blank, w4, a4);
    }
    assert(r2 == r3) by {
        lemma_regroup(b2 + w2, blank, w3, a3);
    }
    assert(r1 == r2) by {
        lemma_regroup(w1, blank, w2, a2);
        assert(none + w1 =~= w1);
    }
    assert(a1.len() > 0 && a1[0] == 32);
    assert(a2.len() > 0 && a2[0] == 32);
    assert(a3.len() > 0 && a3[0] == 32);
    assert(a4.len() > 0 && a4[0] == 32);
    lemma_word_is_field(none, w1, a1, complaints[0]);
    lemma_word_after_blank(w1, w2, a2, complaints[1]);
    lemma_word_after_blank(b2 + w2, w3, a3, complaints[2]);
    lemma_word_after_blank(b3 + w3, w4, a4, complaints[3]);
    lemma_word_after_blank(b4 + w4, w5, tail, complaints[4]);
}

/// What stands behind the words of a line, less the blank, is the label.
proof fn lemma_label_reads(w: Seq<u8>, r: Region)
    requires
        plain_label(r.label),
    ensures
        ({
            let line = w + label_tail(r);
            line.skip(crate::proc_maps::after_blanks(line, w.len() as int)) == r.label
        }),
{
    let tail = label_tail(r);
    let line = w + tail;
    let m = w.len() as int;
    if r.label.len() == 0 {
        lemma_after_blanks(line, m, m);
        assert(line.skip(m) =~= r.label);
    } else {
        assert(line[m] == tail[0]);
        assert(line[m + 1] == tail[1]);
        assert(tail[1] == r.label[0]);
        lemma_after_blanks(line, m, m + 1);
        assert(line.skip(m + 1) =~= r.label);
    }
}

/// A line reads back as the region it was printed from.
#[verifier::rlimit(50)]
proof fn lemma_line_reads(r: Region)
    requires
        plain_label(r.label),
    ensures
        crate::proc_maps::line_region(words(r) + label_tail(r)) == Ok::<Option<Region>, Seq<char>>(
            Some(r),
        ),
{
    lemma_range_reads(r);
    lemma_dev_reads(r);
    lemma_other_words_read(r);
    lemma_hex_word(r.file_offset as nat, 8);
    let w1 = range_word(r);
    let w2 = perms_word(r);
    let w3 = hex_bytes(r.file_offset as nat, 8);
    let w4 = dev_word(r);
    let w5 = inode_word(r);
    let tail = label_tail(r);
    let line = words(r) + tail;
    let complaints = seq![
        Seq::<char>::empty(),
        "missing permissions field in proc maps line"@,
        "missing file offset field in proc maps line"@,
        "missing device field in proc maps line"@,
        "missing inode field in proc maps line"@,
    ];
    lemma_fields(w1, w2, w3, w4, w5, tail, complaints);
    lemma_label_reads(words(r), r);
    let p2 = w1.len() + 1 + w2.len();
    let perms = Perms {
        read: r.prot_read,
        write: r.prot_write,
        execute: r.prot_exec,
        shared: r.shared,
    };
    assert(words(r).len() == p2 + 1 + w3.len() + 1 + w4.len() + 1 + w5.len());
    assert(crate::proc_maps::rest_of_line(line, p2 as int, r.start, r.end, perms) == Ok::<
        Option<Region>,
        Seq<char>,
    >(Some(r)));
}

/// Printing a region and reading the line gives the region back, whatever its bounds and
/// numbers are, as long as its label can stand at the end of a line.
pub proof fn law_printed_region_reads_back(r: Region)
    requires
        plain_label(r.label),
    ensures
        crate::proc_maps::line_region(line_bytes(r)) == Ok::<Option<Region>, Seq<char>>(Some(r)),
{
    lemma_line_bytes(r);
    lemma_line_reads(r);
}

/// A line has no line break in it and does not end in a carriage return.
proof fn lemma_line_is_one_line(r: Region)
    requires
        plain_label(r.label),
    ensures
        line_bytes(r).len() > 0,
        line_bytes(r).last() != 13,
        forall|k: int| 0 <= k < line_bytes(r).len() ==> #[trigger] line_bytes(r)[k] != 10,
{
    lemma_line_bytes(r);
    lemma_range_reads(r);
    lemma_dev_reads(r);
    lemma_other_words_read(r);
    lemma_hex_word(r.file_offset as nat, 8);
    let w = words(r);
    let b = line_bytes(r);
    let p1 = range_word(r) + seq![32u8];
    let p2 = p1 + perms_word(r) + seq![32u8];
    let p3 = p2 + hex_bytes(r.file_offset as nat, 8) + seq![32u8];
    let p4 = p3 + dev_word(r) + seq![32u8];
    assert(no_breaks(p1));
    assert(no_breaks(p2));
    assert(no_breaks(p3));
    assert(no_breaks(p4));
    assert(w == p4 + inode_word(r));
    assert(no_breaks(w));
    assert(b == w + label_tail(r));
    assert(w.last() == inode_word(r).last());
    assert forall|k: int| 0 <= k < b.len() implies #[trigger] b[k] != 10 by {
        if k < w.len() {
            assert(b[k] == w[k]);
        } else if k > w.len() {
            assert(b[k] == r.label[k - w.len() - 1]);
        }
    }
    if r.label.len() > 0 {
        assert(b.last() == r.label.last());
    } else {
        assert(b =~= w);
    }
}

/// Behind the last line break there is nothing to read.
pub proof fn lemma_end_reads(b: Seq<u8>, got: Seq<Region>)
    ensures
        crate::proc_maps::regions_of_lines(b, b.len() as int, got) == Ok::<Seq<Region>, Seq<char>>(
            got,
        ),
{
    let n = b.len() as int;
    let rest = crate::proc_maps::without_return(b.subrange(n, n));
    assert(crate::proc_maps::position_of(b, 10, n) == n);
    assert(rest =~= Seq::<u8>::empty());
    assert(crate::proc_maps::after_blanks(rest, 0) == 0);
    assert(crate::proc_maps::line_region(rest) == Ok::<Option<Region>, Seq<char>>(None));
}

/// A line that stands at `at` gives its region, and reading goes on behind its break.
proof fn lemma_one_line_reads(b: Seq<u8>, at: int, line: Seq<u8>, r: Region, got: Seq<Region>)
    requires
        0 <= at,
        line.len() > 0,
        at + line.len() < b.len(),
        b.subrange(at, at + line.len()) == line,
        b[at + line.len()] == 10,
        line.last() != 13,
        forall|k: int| 0 <= k < line.len() ==> #[trigger] line[k] != 10,
        crate::proc_maps::line_region(line) == Ok::<Option<Region>, Seq<char>>(Some(r)),
    ensures
        crate::proc_maps::regions_of_lines(b, at, got) == crate::proc_maps::regions_of_lines(
            b,
            at + line.len() + 1,
            got.push(r),
        ),
{
    let end = at + line.len();
    assert forall|k: int| at <= k < end implies #[trigger] b[k] != 10 by {
        assert(b.subrange(at, end)[k - at] == line[k - at]);
    }
    lemma_position(b, 10, at, end);
    assert(crate::proc_maps::without_return(line) == line);
}

/// The last line need not have a break behind it.
#[verifier::rlimit(50)]
proof fn lemma_last_line_reads(b: Seq<u8>, at: int, r: Region, got: Seq<Region>)
    requires
        0 <= at <= b.len(),
        b.subrange(at, b.len() as int) == line_bytes(r),
        plain_label(r.label),
    ensures
        crate::proc_maps::regions_of_lines(b, at, got) == Ok::<Seq<Region>, Seq<char>>(got.push(r)),
{
    let line = line_bytes(r);
    let n = b.len() as int;
    lemma_line_is_one_line(r);
    law_printed_region_reads_back(r);
    crate::proc_maps::lemma_position_of(b, 10, at);
    let end = crate::proc_maps::position_of(b, 10, at);
    if end < n {
        assert(b.subrange(at, n)[end - at] == line[end - at]);
    }
    assert(crate::proc_maps::without_return(line) == line);
}

/// Where `b` begins with the lines of the first regions of `s`, the one of region `i` among
/// them, that line gives its region.
proof fn lemma_line_at(s: Seq<Region>, i: int, b: Seq<u8>)
    requires
        0 <= i < s.len(),
        plain_label(s[i].label),
        listing(s.take(i + 1)).is_prefix_of(b),
    ensures
        listing(s.take(i)).len() < listing(s.take(i + 1)).len(),
        crate::proc_maps::regions_of_lines(b, listing(s.take(i)).len() as int, s.take(i))
            == crate::proc_maps::regions_of_lines(
            b,
            listing(s.take(i + 1)).len() as int,
            s.take(i + 1),
        ),
{
    let r = s[i];
    let line = line_bytes(r);
    let next = s.take(i + 1);
    let first = listing(next);
    let at = listing(s.take(i)).len() as int;
    let end = at + line.len();
    assert(next.drop_last() =~= s.take(i));
    assert(next.last() == r);
    lemma_line_is_one_line(r);
    law_printed_region_reads_back(r);
    assert(first == listing(s.take(i)) + line + seq![10u8]);
    assert(b.subrange(0, first.len() as int) =~= first);
    assert(first.subrange(at, end) =~= line);
    assert(b.subrange(at, end) =~= b.subrange(0, first.len() as int).subrange(at, end));
    assert(b[end] == b.subrange(0, first.len() as int)[end]);
    assert(first[end] == 10);
    assert(s.take(i).push(r) =~= next);
    lemma_one_line_reads(b, at, line, r, s.take(i));
}

/// Reading the lines from the one of region `i` on gives the regions from there on.
proof fn lemma_lines_read(s: Seq<Region>, i: int)
    requires
        0 <= i <= s.len(),
        forall|k: int| 0 <= k < s.len() ==> plain_label((#[trigger] s[k]).label),
    ensures
        crate::proc_maps::regions_of_lines(listing(s), listing(s.take(i)).len() as int, s.take(i))
            == Ok::<Seq<Region>, Seq<char>>(s),
    decreases s.len() - i,
{
    if i == s.len() {
        assert(s.take(i) =~= s);
        lemma_end_reads(listing(s), s);
    } else {
        assert(plain_label(s[i].label));
        lemma_listing_prefix(s, i + 1);
        lemma_line_at(s, i, listing(s));
        lemma_lines_read(s, i + 1);
    }
}

/// The same of lines without the last break.
proof fn lemma_unended_lines_read(s: Seq<Region>, i: int)
    requires
        0 <= i < s.len(),
        forall|k: int| 0 <= k < s.len() ==> plain_label((#[trigger] s[k]).label),
    ensures
        crate::proc_maps::regions_of_lines(
            listing(s.drop_last()) + line_bytes(s.last()),
            listing(s.take(i)).len() as int,
            s.take(i),
        ) == Ok::<Seq<Region>, Seq<char>>(s),
    decreases s.len() - i,
{
    let d = s.drop_last();
    let b = listing(d) + line_bytes(s.last());
    assert(plain_label(s[i].label));
    if i == s.len() - 1 {
        let at = listing(d).len() as int;
        assert(s.take(i) =~= d);
        assert(b.subrange(at, b.len() as int) =~= line_bytes(s.last()));
        lemma_last_line_reads(b, at, s.last(), d);
        assert(d.push(s.last()) =~= s);
    } else {
        assert(d.take(i + 1) =~= s.take(i + 1));
        lemma_listing_prefix(d, i + 1);
        assert(listing(s.take(i + 1)).is_prefix_of(b)) by {
            let n = listing(s.take(i + 1)).len() as int;
            assert(b.subrange(0, n) =~= listing(d).subrange(0, n));
        }
        lemma_line_at(s, i, b);
        lemma_unended_lines_read(s, i + 1);
    }
}

/// The lines of the first regions begin the lines of all.
proof fn lemma_listing_prefix(s: Seq<Region>, i: int)
    requires
        0 <= i <= s.len(),
    ensures
        listing(s.take(i)).is_prefix_of(listing(s)),
    decreases s.len() - i,
{
    if i == s.len() {
        assert(s.take(i) =~= s);
        assert(listing(s).subrange(0, listing(s).len() as int) =~= listing(s));
    } else {
        let d = s.drop_last();
        assert(d.take(i) =~= s.take(i));
        lemma_listing_prefix(d, i);
        let n = listing(s.take(i)).len() as int;
        assert(listing(s).subrange(0, n) =~= listing(d).subrange(0, n));
    }
}

/// The joined lines as bytes.
proof fn lemma_joined_bytes(s: Seq<Region>)
    requires
        s.len() > 0,
    ensures
        vstd::utf8::encode_utf8(joined_lines(s)) == listing(s.drop_last()) + line_bytes(s.last()),
        vstd::utf8::encode_utf8(joined_lines(s) + seq!['\n']) == listing(s),
    decreases s.len(),
{
    let d = s.drop_last();
    lemma_encode_one('\n');
    if s.len() == 1 {
        assert(listing(d) + line_bytes(s.last()) =~= line_bytes(s.last()));
    } else {
        lemma_joined_bytes(d);
        lemma_encode_concat(
            joined_lines(d) + seq!['\n'],
            s.last().line(vstd::utf8::decode_utf8(s.last().label)),
        );
    }
    lemma_encode_concat(joined_lines(s), seq!['\n']);
}

/// Printing a map, one line to a region in whatever order, and reading the lines gives the map
/// back, with a line break behind the last line and without one.
pub proof fn law_printed_map_reads_back(s: Seq<Region>, printed: Seq<Region>)
    requires
        crate::maps::canonical(s),
        forall|k: int| 0 <= k < s.len() ==> plain_label((#[trigger] s[k]).label),
        printed.to_multiset() == s.to_multiset(),
    ensures
        crate::proc_maps::listed_map(vstd::utf8::encode_utf8(joined_lines(printed))) == Ok::<
            Seq<Region>,
            Seq<char>,
        >(s),
        crate::proc_maps::listed_map(
            vstd::utf8::encode_utf8(joined_lines(printed) + seq!['\n']),
        ) == Ok::<Seq<Region>, Seq<char>>(s),
{
    broadcast use vstd::seq_lib::group_to_multiset_ensures;

    crate::model::law_sorting_restores_a_map(s, printed);
    crate::maps::lemma_order_complaint(s);
    assert forall|k: int| 0 <= k < printed.len() implies plain_label(
        (#[trigger] printed[k]).label,
    ) by {
        assert(printed.contains(printed[k]));
        assert(s.to_multiset().count(printed[k]) > 0);
        assert(s.contains(printed[k]));
    }
    assert(printed.take(0) =~= Seq::<Region>::empty());
    if printed.len() > 0 {
        lemma_joined_bytes(printed);
        lemma_lines_read(printed, 0);
        lemma_unended_lines_read(printed, 0);
    } else {
        lemma_encode_one('\n');
        lemma_nothing_reads();
        assert(vstd::utf8::encode_utf8(Seq::<char>::empty()) =~= Seq::<u8>::empty());
        assert(Seq::<char>::empty() + seq!['\n'] =~= seq!['\n']);
        assert(printed =~= Seq::<Region>::empty());
    }
}

/// No bytes and an empty line hold no region.
proof fn lemma_nothing_reads()
    ensures
        crate::proc_maps::regions_of_lines(Seq::<u8>::empty(), 0, Seq::empty()) == Ok::<
            Seq<Region>,
            Seq<char>,
        >(Seq::empty()),
        crate::proc_maps::regions_of_lines(seq![10u8], 0, Seq::empty()) == Ok::<
            Seq<Region>,
            Seq<char>,
        >(Seq::empty()),
{
    let b = seq![10u8];
    let got = Seq::<Region>::empty();
    lemma_end_reads(Seq::<u8>::empty(), got);
    lemma_end_reads(b, got);
    let rest = crate::proc_maps::without_return(b.subrange(0, 0));
    assert(crate::proc_maps::position_of(b, 10, 0) == 0);
    assert(rest =~= Seq::<u8>::empty());
    assert(crate::proc_maps::after_blanks(rest, 0) == 0);
    assert(crate::proc_maps::line_region(rest) == Ok::<Option<Region>, Seq<char>>(None));
}

} // verus!
