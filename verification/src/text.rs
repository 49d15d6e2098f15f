//! Building lines of text from literals and numbers.
use vstd::prelude::*;
use vstd::string::*;

verus! {

pub open spec fn digit_char(d: int) -> char {
    if d == 0 { '0' } else if d == 1 { '1' } else if d == 2 { '2' } else if d == 3 { '3' }
    else if d == 4 { '4' } else if d == 5 { '5' } else if d == 6 { '6' } else if d == 7 { '7' }
    else if d == 8 { '8' } else if d == 9 { '9' } else if d == 10 { 'a' } else if d == 11 { 'b' }
    else if d == 12 { 'c' } else if d == 13 { 'd' } else if d == 14 { 'e' } else { 'f' }
}

/// `n` written in `base`, most significant digit first, without leading zeros.
pub open spec fn digits(n: nat, base: nat) -> Seq<char>
    decreases n,
{
    if n < base || base < 2 {
        seq![digit_char(n as int)]
    } else {
        proof {
            assert(n / base < n) by (nonlinear_arith)
                requires
                    n >= base,
                    base >= 2,
            ;
        }
        digits(n / base, base).push(digit_char((n % base) as int))
    }
}

pub open spec fn dec(n: int) -> Seq<char> {
    if n < 0 {
        "-"@ + digits((-n) as nat, 10)
    } else {
        digits(n as nat, 10)
    }
}

pub open spec fn hex(n: int) -> Seq<char> {
    digits(n as nat, 16)
}

/// `s`, filled up with zeros on the left to at least `width` characters.
pub open spec fn zero_padded(s: Seq<char>, width: nat) -> Seq<char> {
    if s.len() >= width {
        s
    } else {
        Seq::new((width - s.len()) as nat, |i: int| '0') + s
    }
}

fn digit_str(d: u64) -> (s: &'static str)
    requires
        d < 16,
    ensures
        s@ == seq![digit_char(d as int)],
{
    proof {
        reveal_strlit("0");
        reveal_strlit("1");
        reveal_strlit("2");
        reveal_strlit("3");
        reveal_strlit("4");
        reveal_strlit("5");
        reveal_strlit("6");
        reveal_strlit("7");
        reveal_strlit("8");
        reveal_strlit("9");
        reveal_strlit("a");
        reveal_strlit("b");
        reveal_strlit("c");
        reveal_strlit("d");
        reveal_strlit("e");
        reveal_strlit("f");
    }
    match d {
        0 => "0",
        1 => "1",
        2 => "2",
        3 => "3",
        4 => "4",
        5 => "5",
        6 => "6",
        7 => "7",
        8 => "8",
        9 => "9",
        10 => "a",
        11 => "b",
        12 => "c",
        13 => "d",
        14 => "e",
        _ => "f",
    }
}

/// Appends `n` in `base`, with at least `width` digits.
fn append_digits(s: &mut String, n: u64, base: u64, width: usize)
    requires
        base == 10 || base == 16,
    ensures
        final(s)@ == old(s)@ + zero_padded(digits(n as nat, base as nat), width as nat),
{
    let mut low: Vec<u64> = Vec::new();
    let mut v: u64 = n;
    let ghost all = digits(n as nat, base as nat);
    while v >= base
        invariant
            base == 10 || base == 16,
            all.len() == digits(v as nat, base as nat).len() + low@.len(),
            all == digits(v as nat, base as nat) + low@.reverse().map_values(
                |d: u64| digit_char(d as int),
            ),
            forall|i: int| 0 <= i < low@.len() ==> low@[i] < base,
            all == digits(n as nat, base as nat),
        decreases v,
    {
        let ghost before = low@;
        low.push(v % base);
        proof {
            let f = |d: u64| digit_char(d as int);
            assert(low@.reverse().map_values(f) =~= seq![digit_char((v % base) as int)]
                + before.reverse().map_values(f));
            assert((v as nat) / (base as nat) == (v / base) as nat);
            assert(digits(v as nat, base as nat) == digits((v / base) as nat, base as nat).push(
                digit_char((v % base) as int),
            ));
        }
        v = v / base;
    }
    proof {
        let f = |d: u64| digit_char(d as int);
        assert(all =~= low@.push(v).reverse().map_values(f));
    }
    low.push(v);
    let count: usize = low.len();
    let mut pad: usize = count;
    let ghost start = s@;
    proof {
        assert(start =~= start + Seq::new(0, |i: int| '0'));
    }
    while pad < width
        invariant
            count <= pad,
            pad <= width || pad == count,
            s@ == start + Seq::new((pad - count) as nat, |i: int| '0'),
        decreases width - pad,
    {
        proof {
            reveal_strlit("0");
        }
        s.append("0");
        proof {
            assert(Seq::new((pad - count) as nat, |i: int| '0') + "0"@ =~= Seq::new(
                (pad + 1 - count) as nat,
                |i: int| '0',
            ));
            assert(s@ =~= start + Seq::new((pad + 1 - count) as nat, |i: int| '0'));
        }
        pad += 1;
    }
    let ghost padded = s@;
    let mut i: usize = count;
    proof {
        let f = |d: u64| digit_char(d as int);
        assert(low@.skip(count as int).reverse().map_values(f) =~= Seq::<char>::empty());
        assert(padded =~= padded + low@.skip(count as int).reverse().map_values(f));
    }
    while i > 0
        invariant
            i <= count == low@.len(),
            base == 10 || base == 16,
            forall|j: int| 0 <= j < low@.len() ==> low@[j] < base,
            s@ == padded + low@.skip(i as int).reverse().map_values(|d: u64| digit_char(d as int)),
        decreases i,
    {
        i -= 1;
        s.append(digit_str(low[i]));
        proof {
            let f = |d: u64| digit_char(d as int);
            assert(low@.skip(i as int).reverse().map_values(f) =~= low@.skip(
                i + 1,
            ).reverse().map_values(f) + seq![digit_char(low@[i as int] as int)]);
            assert(s@ =~= padded + low@.skip(i as int).reverse().map_values(f));
        }
    }
    proof {
        let f = |d: u64| digit_char(d as int);
        assert(low@.skip(0) =~= low@);
        assert(s@ == padded + all);
        assert(all.len() == count);
        assert(s@ =~= start + zero_padded(all, width as nat));
    }
}

/// The numbers of `s`, separated by commas.
pub open spec fn byte_items(s: Seq<u8>) -> Seq<char>
    decreases s.len(),
{
    if s.len() == 0 {
        Seq::empty()
    } else if s.len() == 1 {
        dec(s[0] as int)
    } else {
        byte_items(s.drop_last()) + ", "@ + dec(s.last() as int)
    }
}

/// The numbers of `s` as a bracketed list.
pub open spec fn byte_list(s: Seq<u8>) -> Seq<char> {
    "["@ + byte_items(s) + "]"@
}

pub open spec fn truth(b: bool) -> Seq<char> {
    if b {
        "true"@
    } else {
        "false"@
    }
}

/// `String::push` appends one character.
pub assume_specification[ String::push ](s: &mut String, ch: char)
    ensures
        final(s)@ == old(s)@.push(ch),
;

/// A line of text under construction.
pub struct Line {
    pub text: String,
}

impl View for Line {
    type V = Seq<char>;

    open spec fn view(&self) -> Seq<char> {
        self.text@
    }
}

impl Line {
    pub fn new(s: &str) -> (line: Line)
        ensures
            line@ == s@,
    {
        Line { text: String::from_str(s) }
    }

    pub fn lit(self, s: &str) -> (line: Line)
        ensures
            line@ == self@ + s@,
    {
        Line { text: self.text.concat(s) }
    }

    pub fn dec(self, n: u64) -> (line: Line)
        ensures
            line@ == self@ + dec(n as int),
    {
        let mut text = self.text;
        append_digits(&mut text, n, 10, 0);
        Line { text }
    }

    pub fn signed(self, n: i64) -> (line: Line)
        ensures
            line@ == self@ + dec(n as int),
    {
        let mut text = self.text;
        if n < 0 {
            text.append("-");
            let m: u64 = (-(n + 1)) as u64 + 1;
            append_digits(&mut text, m, 10, 0);
            proof {
                assert(self@ + "-"@ + digits(m as nat, 10) =~= self@ + ("-"@ + digits(
                    m as nat,
                    10,
                )));
            }
        } else {
            append_digits(&mut text, n as u64, 10, 0);
        }
        Line { text }
    }

    pub fn hex(self, n: u64) -> (line: Line)
        ensures
            line@ == self@ + hex(n as int),
    {
        let mut text = self.text;
        append_digits(&mut text, n, 16, 0);
        Line { text }
    }

    /// `n` in base ten, zero-padded to `width` digits.
    pub fn dec_padded(self, n: u64, width: usize) -> (line: Line)
        ensures
            line@ == self@ + zero_padded(dec(n as int), width as nat),
    {
        let mut text = self.text;
        append_digits(&mut text, n, 10, width);
        Line { text }
    }

    /// `n` in base sixteen, zero-padded to `width` digits.
    pub fn hex_padded(self, n: u64, width: usize) -> (line: Line)
        ensures
            line@ == self@ + zero_padded(hex(n as int), width as nat),
    {
        let mut text = self.text;
        append_digits(&mut text, n, 16, width);
        Line { text }
    }

    pub fn truth(self, b: bool) -> (line: Line)
        ensures
            line@ == self@ + truth(b),
    {
        if b {
            self.lit("true")
        } else {
            self.lit("false")
        }
    }

    /// The character whose number is the byte.
    pub fn latin(self, c: u8) -> (line: Line)
        ensures
            line@ == self@.push(c as char),
    {
        let mut text = self.text;
        text.push(c as char);
        Line { text }
    }

    pub fn byte_list(self, s: &[u8]) -> (line: Line)
        ensures
            line@ == self@ + byte_list(s@),
    {
        let ghost start = self@;
        let mut line = self.lit("[");
        let mut i: usize = 0;
        proof {
            assert(s@.take(0) =~= Seq::<u8>::empty());
            assert(line@ =~= start + "["@ + byte_items(s@.take(0)));
        }
        while i < s.len()
            invariant
                i <= s.len(),
                line@ == start + "["@ + byte_items(s@.take(i as int)),
            decreases s.len() - i,
        {
            let ghost before = line@;
            if i > 0 {
                line = line.lit(", ");
            }
            line = line.dec(s[i] as u64);
            proof {
                let item = dec(s@[i as int] as int);
                assert(s@.take(i + 1).drop_last() =~= s@.take(i as int));
                if i > 0 {
                    assert(before + ", "@ + item =~= start + "["@ + (byte_items(s@.take(i as int))
                        + ", "@ + item));
                } else {
                    assert(before + item =~= start + "["@ + item);
                }
            }
            i += 1;
        }
        proof {
            assert(s@.take(i as int) =~= s@);
            assert(start + "["@ + byte_items(s@) + "]"@ =~= start + ("["@ + byte_items(s@) + "]"@));
        }
        line.lit("]")
    }

    pub fn done(self) -> (s: String)
        ensures
            s@ == self@,
    {
        self.text
    }
}

} // verus!
