//! Reading the map listing of a process, one region to a line.
use vstd::prelude::*;
use vstd::slice::slice_subrange;
use vstd::string::*;
use crate::bytes::copy_range;
use crate::maps::{MemoryRegion, Region};
use crate::model::MemoryMapModel;
use crate::text::Line;

verus! {

/// The message of the error that decoding `bytes` as UTF-8 gives.
pub uninterp spec fn utf8_error_text(bytes: Seq<u8>) -> Seq<char>;

/// Calls `std::str::from_utf8`: the text that the bytes encode if they are valid UTF-8, else
/// the message of the error, which depends on the bytes alone.
#[verifier::external_body]
fn utf8_text(bytes: &[u8]) -> (r: Result<&str, String>)
    ensures
        if vstd::utf8::valid_utf8(bytes@) {
            r is Ok && r->Ok_0@ == vstd::utf8::decode_utf8(bytes@)
        } else {
            r is Err && r->Err_0@ == utf8_error_text(bytes@)
        },
{
    match std::str::from_utf8(bytes) {
        Ok(s) => Ok(s),
        Err(e) => Err(e.to_string()),
    }
}

/// The value of a digit in a base of at most sixteen.
pub open spec fn digit_value(c: char, base: nat) -> Option<nat> {
    let v = if '0' <= c <= '9' {
        c as int - '0' as int
    } else if 'a' <= c <= 'f' {
        c as int - 'a' as int + 10
    } else if 'A' <= c <= 'F' {
        c as int - 'A' as int + 10
    } else {
        16
    };
    if v < base {
        Some(v as nat)
    } else {
        None
    }
}

/// The number that the digits denote.
pub open spec fn digits_value(s: Seq<char>, base: nat) -> Option<nat>
    decreases s.len(),
{
    if s.len() == 0 {
        Some(0)
    } else {
        match (digits_value(s.drop_last(), base), digit_value(s.last(), base)) {
            (Some(high), Some(low)) => Some(high * base + low),
            _ => None,
        }
    }
}

/// The number that an optional plus sign and at least one digit denote.
pub open spec fn number_value(s: Seq<char>, base: nat) -> Option<nat> {
    let digits = if s.len() > 0 && s[0] == '+' {
        s.skip(1)
    } else {
        s
    };
    if digits.len() == 0 {
        None
    } else {
        digits_value(digits, base)
    }
}

/// The message of the error that reading `s` as a 64-bit hexadecimal number gives.
pub uninterp spec fn hex64_error_text(s: Seq<char>) -> Seq<char>;

/// Calls `u64::from_str_radix` with radix 16: the number that an optional plus sign and digits
/// denote if it fits, else the message of the error, which depends on the text alone.
#[verifier::external_body]
fn hex64(s: &str) -> (r: Result<u64, String>)
    ensures
        match number_value(s@, 16) {
            Some(v) if v <= u64::MAX => r == Ok::<u64, String>(v as u64),
            _ => r is Err && r->Err_0@ == hex64_error_text(s@),
        },
{
    match u64::from_str_radix(s, 16) {
        Ok(v) => Ok(v),
        Err(e) => Err(e.to_string()),
    }
}

/// The message of the error that reading `s` as a 32-bit hexadecimal number gives.
pub uninterp spec fn hex32_error_text(s: Seq<char>) -> Seq<char>;

/// Calls `u32::from_str_radix` with radix 16: the number that an optional plus sign and digits
/// denote if it fits, else the message of the error, which depends on the text alone.
#[verifier::external_body]
fn hex32(s: &str) -> (r: Result<u32, String>)
    ensures
        match number_value(s@, 16) {
            Some(v) if v <= u32::MAX => r == Ok::<u32, String>(v as u32),
            _ => r is Err && r->Err_0@ == hex32_error_text(s@),
        },
{
    match u32::from_str_radix(s, 16) {
        Ok(v) => Ok(v),
        Err(e) => Err(e.to_string()),
    }
}

/// The message of the error that reading `s` as a 64-bit decimal number gives.
pub uninterp spec fn dec64_error_text(s: Seq<char>) -> Seq<char>;

/// Calls `str::parse::<u64>`: the number that an optional plus sign and digits denote if it
/// fits, else the message of the error, which depends on the text alone.
#[verifier::external_body]
fn dec64(s: &str) -> (r: Result<u64, String>)
    ensures
        match number_value(s@, 10) {
            Some(v) if v <= u64::MAX => r == Ok::<u64, String>(v as u64),
            _ => r is Err && r->Err_0@ == dec64_error_text(s@),
        },
{
    match s.parse::<u64>() {
        Ok(v) => Ok(v),
        Err(e) => Err(e.to_string()),
    }
}

pub open spec fn is_blank(c: u8) -> bool {
    c == 32 || c == 9
}

/// The first position from `i` on without a blank, or the end.
pub open spec fn after_blanks(s: Seq<u8>, i: int) -> int
    decreases s.len() - i,
{
    if i < 0 || i >= s.len() || !is_blank(s[i]) {
        i
    } else {
        after_blanks(s, i + 1)
    }
}

/// The first position from `i` on with a blank, or the end.
pub open spec fn field_end(s: Seq<u8>, i: int) -> int
    decreases s.len() - i,
{
    if i < 0 || i >= s.len() || is_blank(s[i]) {
        i
    } else {
        field_end(s, i + 1)
    }
}

/// The first position from `i` on that holds `c`, or the end.
pub open spec fn position_of(s: Seq<u8>, c: u8, i: int) -> int
    decreases s.len() - i,
{
    if i < 0 || i >= s.len() || s[i] == c {
        i
    } else {
        position_of(s, c, i + 1)
    }
}

/// The text of a field, or `complaint` and what is wrong with its encoding.
pub open spec fn text_of(field: Seq<u8>, complaint: Seq<char>) -> Result<Seq<char>, Seq<char>> {
    if vstd::utf8::valid_utf8(field) {
        Ok(vstd::utf8::decode_utf8(field))
    } else {
        Err(complaint + utf8_error_text(field))
    }
}

pub open spec fn hex64_of(s: Seq<char>, complaint: Seq<char>) -> Result<u64, Seq<char>> {
    match number_value(s, 16) {
        Some(v) if v <= u64::MAX => Ok(v as u64),
        _ => Err(complaint + s + "': "@ + hex64_error_text(s)),
    }
}

pub open spec fn hex32_of(s: Seq<char>, complaint: Seq<char>) -> Result<u32, Seq<char>> {
    match number_value(s, 16) {
        Some(v) if v <= u32::MAX => Ok(v as u32),
        _ => Err(complaint + s + "': "@ + hex32_error_text(s)),
    }
}

pub open spec fn dec64_of(s: Seq<char>, complaint: Seq<char>) -> Result<u64, Seq<char>> {
    match number_value(s, 10) {
        Some(v) if v <= u64::MAX => Ok(v as u64),
        _ => Err(complaint + s + "': "@ + dec64_error_text(s)),
    }
}

/// The bounds of a region: two numbers with a hyphen between them.
pub open spec fn range_of(field: Seq<u8>) -> Result<(u64, u64), Seq<char>> {
    let p = position_of(field, 45, 0);
    if p >= field.len() {
        Err("invalid range format in proc maps line"@)
    } else {
        match text_of(field.take(p), "invalid start hex in proc maps line: "@) {
            Err(text) => Err(text),
            Ok(low) => match text_of(field.skip(p + 1), "invalid end hex in proc maps line: "@) {
                Err(text) => Err(text),
                Ok(high) => match hex64_of(low, "invalid start hex '"@) {
                    Err(text) => Err(text),
                    Ok(start) => match hex64_of(high, "invalid end hex '"@) {
                        Err(text) => Err(text),
                        Ok(end) => Ok((start, end)),
                    },
                },
            },
        }
    }
}

/// The permissions of a region.
#[derive(Clone, Copy)]
pub struct Perms {
    pub read: bool,
    pub write: bool,
    pub execute: bool,
    pub shared: bool,
}

/// The permissions: `r`, `w` and `x` or a hyphen each, then `s` or `p`.
pub open spec fn perms_of(field: Seq<u8>) -> Result<Perms, Seq<char>> {
    if field.len() != 4 {
        Err(
            "invalid permissions field length: expected 4 bytes, got "@ + crate::text::dec(
                field.len() as int,
            ),
        )
    } else if field[0] != 114 && field[0] != 45 {
        Err("invalid read permission char '"@.push(field[0] as char) + "'"@)
    } else if field[1] != 119 && field[1] != 45 {
        Err("invalid write permission char '"@.push(field[1] as char) + "'"@)
    } else if field[2] != 120 && field[2] != 45 {
        Err("invalid exec permission char '"@.push(field[2] as char) + "'"@)
    } else if field[3] != 115 && field[3] != 112 {
        Err("invalid sharing char '"@.push(field[3] as char) + "'"@)
    } else {
        Ok(
            Perms {
                read: field[0] == 114,
                write: field[1] == 119,
                execute: field[2] == 120,
                shared: field[3] == 115,
            },
        )
    }
}

pub open spec fn offset_of(field: Seq<u8>) -> Result<u64, Seq<char>> {
    match text_of(field, "invalid offset hex in proc maps line: "@) {
        Err(text) => Err(text),
        Ok(s) => hex64_of(s, "invalid offset hex '"@),
    }
}

/// The device: two numbers with a colon between them.
pub open spec fn dev_of(field: Seq<u8>) -> Result<(u32, u32), Seq<char>> {
    let p = position_of(field, 58, 0);
    if p >= field.len() {
        Err("invalid dev format in proc maps line"@)
    } else {
        match text_of(field.take(p), "invalid dev major hex: "@) {
            Err(text) => Err(text),
            Ok(first) => match text_of(field.skip(p + 1), "invalid dev minor hex: "@) {
                Err(text) => Err(text),
                Ok(second) => match hex32_of(first, "invalid dev major hex '"@) {
                    Err(text) => Err(text),
                    Ok(major) => match hex32_of(second, "invalid dev minor hex '"@) {
                        Err(text) => Err(text),
                        Ok(minor) => Ok((major, minor)),
                    },
                },
            },
        }
    }
}

pub open spec fn inode_of(field: Seq<u8>) -> Result<u64, Seq<char>> {
    match text_of(field, "invalid inode in proc maps line: "@) {
        Err(text) => Err(text),
        Ok(s) => dec64_of(s, "invalid inode '"@),
    }
}

/// The next field from `i` on and where it ends, or `complaint` where there is none.
pub open spec fn field_of(line: Seq<u8>, i: int, complaint: Seq<char>) -> Result<
    (Seq<u8>, int),
    Seq<char>,
> {
    let start = after_blanks(line, i);
    if start >= line.len() {
        Err(complaint)
    } else {
        Ok((line.subrange(start, field_end(line, start)), field_end(line, start)))
    }
}

/// The region that a line describes; a line of blanks describes none.
pub open spec fn line_region(line: Seq<u8>) -> Result<Option<Region>, Seq<char>> {
    match field_of(line, 0, Seq::empty()) {
        Err(_) => Ok(None),
        Ok((range_field, i)) => match range_of(range_field) {
            Err(text) => Err(text),
            Ok((start, end)) => match field_of(
                line,
                i,
                "missing permissions field in proc maps line"@,
            ) {
                Err(text) => Err(text),
                Ok((perms_field, j)) => match perms_of(perms_field) {
                    Err(text) => Err(text),
                    Ok(perms) => rest_of_line(line, j, start, end, perms),
                },
            },
        },
    }
}

/// The region of a line whose fields behind the permissions start at `i`.
pub open spec fn rest_of_line(line: Seq<u8>, i: int, start: u64, end: u64, perms: Perms) -> Result<
    Option<Region>,
    Seq<char>,
> {
    match field_of(line, i, "missing file offset field in proc maps line"@) {
        Err(text) => Err(text),
        Ok((offset_field, j)) => match offset_of(offset_field) {
            Err(text) => Err(text),
            Ok(file_offset) => match field_of(
                line,
                j,
                "missing device field in proc maps line"@,
            ) {
                Err(text) => Err(text),
                Ok((dev_field, k)) => match dev_of(dev_field) {
                    Err(text) => Err(text),
                    Ok((dev_major, dev_minor)) => match field_of(
                        line,
                        k,
                        "missing inode field in proc maps line"@,
                    ) {
                        Err(text) => Err(text),
                        Ok((inode_field, m)) => match inode_of(inode_field) {
                            Err(text) => Err(text),
                            Ok(inode) => Ok(
                                Some(
                                    Region {
                                        start,
                                        end,
                                        prot_read: perms.read,
                                        prot_write: perms.write,
                                        prot_exec: perms.execute,
                                        shared: perms.shared,
                                        file_offset,
                                        dev_major,
                                        dev_minor,
                                        inode,
                                        label: line.skip(after_blanks(line, m)),
                                    },
                                ),
                            ),
                        },
                    },
                },
            },
        },
    }
}

/// A line without the carriage return that may end it.
pub open spec fn without_return(line: Seq<u8>) -> Seq<u8> {
    if line.len() > 0 && line.last() == 13 {
        line.drop_last()
    } else {
        line
    }
}

/// The regions of the lines from `at` on, behind those in `got`.
pub open spec fn regions_of_lines(b: Seq<u8>, at: int, got: Seq<Region>) -> Result<
    Seq<Region>,
    Seq<char>,
>
    decreases b.len() - at,
    when 0 <= at <= b.len()
    via lines_decrease
{
    let n = position_of(b, 10, at);
    match line_region(without_return(b.subrange(at, n))) {
        Err(text) => Err(text),
        Ok(region) => {
            let now = match region {
                None => got,
                Some(r) => got.push(r),
            };
            if n >= b.len() {
                Ok(now)
            } else {
                regions_of_lines(b, n + 1, now)
            }
        },
    }
}

#[via_fn]
proof fn lines_decrease(b: Seq<u8>, at: int, got: Seq<Region>) {
    lemma_position_of(b, 10, at);
}

pub proof fn lemma_position_of(s: Seq<u8>, c: u8, i: int)
    requires
        0 <= i <= s.len(),
    ensures
        i <= position_of(s, c, i) <= s.len(),
        position_of(s, c, i) < s.len() ==> s[position_of(s, c, i)] == c,
        forall|k: int| i <= k < position_of(s, c, i) ==> s[k] != c,
    decreases s.len() - i,
{
    if i < s.len() && s[i] != c {
        lemma_position_of(s, c, i + 1);
    }
}

/// The map that a listing describes.
pub open spec fn listed_map(b: Seq<u8>) -> Result<Seq<Region>, Seq<char>> {
    match regions_of_lines(b, 0, Seq::empty()) {
        Err(text) => Err(text),
        Ok(regions) => {
            let sorted = crate::model::address_sorted(regions);
            match crate::maps::order_complaint(sorted) {
                Some(text) => Err(text),
                None => Ok(sorted),
            }
        },
    }
}

fn blank(c: u8) -> (r: bool)
    ensures
        r == is_blank(c),
{
    c == 32 || c == 9
}

fn skip_blanks(s: &[u8], from: usize) -> (i: usize)
    requires
        from <= s@.len(),
    ensures
        i == after_blanks(s@, from as int),
        from <= i <= s@.len(),
{
    let mut i: usize = from;
    while i < s.len() && blank(s[i])
        invariant
            from <= i <= s@.len(),
            after_blanks(s@, from as int) == after_blanks(s@, i as int),
        decreases s.len() - i,
    {
        i += 1;
    }
    i
}

fn skip_field(s: &[u8], from: usize) -> (i: usize)
    requires
        from <= s@.len(),
    ensures
        i == field_end(s@, from as int),
        from <= i <= s@.len(),
{
    let mut i: usize = from;
    while i < s.len() && !blank(s[i])
        invariant
            from <= i <= s@.len(),
            field_end(s@, from as int) == field_end(s@, i as int),
        decreases s.len() - i,
    {
        i += 1;
    }
    i
}

fn find(s: &[u8], c: u8, from: usize) -> (i: usize)
    requires
        from <= s@.len(),
    ensures
        i == position_of(s@, c, from as int),
        from <= i <= s@.len(),
{
    let mut i: usize = from;
    while i < s.len() && s[i] != c
        invariant
            from <= i <= s@.len(),
            position_of(s@, c, from as int) == position_of(s@, c, i as int),
        decreases s.len() - i,
    {
        i += 1;
    }
    i
}

fn field_text<'a>(field: &'a [u8], complaint: &str) -> (r: Result<&'a str, String>)
    ensures
        match text_of(field@, complaint@) {
            Ok(s) => r is Ok && r->Ok_0@ == s,
            Err(text) => r is Err && r->Err_0@ == text,
        },
{
    match utf8_text(field) {
        Ok(s) => Ok(s),
        Err(e) => Err(Line::new(complaint).lit(e.as_str()).done()),
    }
}

fn field_hex64(s: &str, complaint: &str) -> (r: Result<u64, String>)
    ensures
        match hex64_of(s@, complaint@) {
            Ok(v) => r == Ok::<u64, String>(v),
            Err(text) => r is Err && r->Err_0@ == text,
        },
{
    match hex64(s) {
        Ok(v) => Ok(v),
        Err(e) => Err(Line::new(complaint).lit(s).lit("': ").lit(e.as_str()).done()),
    }
}

fn field_hex32(s: &str, complaint: &str) -> (r: Result<u32, String>)
    ensures
        match hex32_of(s@, complaint@) {
            Ok(v) => r == Ok::<u32, String>(v),
            Err(text) => r is Err && r->Err_0@ == text,
        },
{
    match hex32(s) {
        Ok(v) => Ok(v),
        Err(e) => Err(Line::new(complaint).lit(s).lit("': ").lit(e.as_str()).done()),
    }
}

fn field_dec64(s: &str, complaint: &str) -> (r: Result<u64, String>)
    ensures
        match dec64_of(s@, complaint@) {
            Ok(v) => r == Ok::<u64, String>(v),
            Err(text) => r is Err && r->Err_0@ == text,
        },
{
    match dec64(s) {
        Ok(v) => Ok(v),
        Err(e) => Err(Line::new(complaint).lit(s).lit("': ").lit(e.as_str()).done()),
    }
}

fn parse_range(field: &[u8]) -> (r: Result<(u64, u64), String>)
    ensures
        match range_of(field@) {
            Ok(bounds) => r == Ok::<(u64, u64), String>(bounds),
            Err(text) => r is Err && r->Err_0@ == text,
        },
{
    let p: usize = find(field, 45, 0);
    if p >= field.len() {
        return Err(Line::new("invalid range format in proc maps line").done());
    }
    let low_field = slice_subrange(field, 0, p);
    let high_field = slice_subrange(field, p + 1, field.len());
    proof {
        assert(low_field@ =~= field@.take(p as int));
        assert(high_field@ =~= field@.skip(p + 1));
    }
    let low = match field_text(low_field, "invalid start hex in proc maps line: ") {
        Err(text) => {
            return Err(text);
        },
        Ok(s) => s,
    };
    let high = match field_text(high_field, "invalid end hex in proc maps line: ") {
        Err(text) => {
            return Err(text);
        },
        Ok(s) => s,
    };
    let start: u64 = match field_hex64(low, "invalid start hex '") {
        Err(text) => {
            return Err(text);
        },
        Ok(v) => v,
    };
    let end: u64 = match field_hex64(high, "invalid end hex '") {
        Err(text) => {
            return Err(text);
        },
        Ok(v) => v,
    };
    Ok((start, end))
}

fn parse_perms(field: &[u8]) -> (r: Result<Perms, String>)
    ensures
        match perms_of(field@) {
            Ok(perms) => r == Ok::<Perms, String>(perms),
            Err(text) => r is Err && r->Err_0@ == text,
        },
{
    if field.len() != 4 {
        return Err(
            Line::new("invalid permissions field length: expected 4 bytes, got ").dec(
                field.len() as u64,
            ).done(),
        );
    }
    if field[0] != 114 && field[0] != 45 {
        return Err(
            Line::new("invalid read permission char '").latin(field[0]).lit("'").done(),
        );
    }
    if field[1] != 119 && field[1] != 45 {
        return Err(
            Line::new("invalid write permission char '").latin(field[1]).lit("'").done(),
        );
    }
    if field[2] != 120 && field[2] != 45 {
        return Err(
            Line::new("invalid exec permission char '").latin(field[2]).lit("'").done(),
        );
    }
    if field[3] != 115 && field[3] != 112 {
        return Err(Line::new("invalid sharing char '").latin(field[3]).lit("'").done());
    }
    Ok(
        Perms {
            read: field[0] == 114,
            write: field[1] == 119,
            execute: field[2] == 120,
            shared: field[3] == 115,
        },
    )
}

fn parse_offset(field: &[u8]) -> (r: Result<u64, String>)
    ensures
        match offset_of(field@) {
            Ok(v) => r == Ok::<u64, String>(v),
            Err(text) => r is Err && r->Err_0@ == text,
        },
{
    match field_text(field, "invalid offset hex in proc maps line: ") {
        Err(text) => Err(text),
        Ok(s) => field_hex64(s, "invalid offset hex '"),
    }
}

fn parse_dev(field: &[u8]) -> (r: Result<(u32, u32), String>)
    ensures
        match dev_of(field@) {
            Ok(dev) => r == Ok::<(u32, u32), String>(dev),
            Err(text) => r is Err && r->Err_0@ == text,
        },
{
    let p: usize = find(field, 58, 0);
    if p >= field.len() {
        return Err(Line::new("invalid dev format in proc maps line").done());
    }
    let first_field = slice_subrange(field, 0, p);
    let second_field = slice_subrange(field, p + 1, field.len());
    proof {
        assert(first_field@ =~= field@.take(p as int));
        assert(second_field@ =~= field@.skip(p + 1));
    }
    let first = match field_text(first_field, "invalid dev major hex: ") {
        Err(text) => {
            return Err(text);
        },
        Ok(s) => s,
    };
    let second = match field_text(second_field, "invalid dev minor hex: ") {
        Err(text) => {
            return Err(text);
        },
        Ok(s) => s,
    };
    let major: u32 = match field_hex32(first, "invalid dev major hex '") {
        Err(text) => {
            return Err(text);
        },
        Ok(v) => v,
    };
    let minor: u32 = match field_hex32(second, "invalid dev minor hex '") {
        Err(text) => {
            return Err(text);
        },
        Ok(v) => v,
    };
    Ok((major, minor))
}

fn parse_inode(field: &[u8]) -> (r: Result<u64, String>)
    ensures
        match inode_of(field@) {
            Ok(v) => r == Ok::<u64, String>(v),
            Err(text) => r is Err && r->Err_0@ == text,
        },
{
    match field_text(field, "invalid inode in proc maps line: ") {
        Err(text) => Err(text),
        Ok(s) => field_dec64(s, "invalid inode '"),
    }
}

fn next_field<'a>(line: &'a [u8], i: usize, complaint: &str) -> (r: Result<
    (&'a [u8], usize),
    String,
>)
    requires
        i <= line@.len(),
    ensures
        match field_of(line@, i as int, complaint@) {
            Ok((field, next)) => r is Ok && r->Ok_0.0@ == field && r->Ok_0.1 == next && r->Ok_0.1
                <= line@.len(),
            Err(text) => r is Err && r->Err_0@ == text,
        },
{
    let start: usize = skip_blanks(line, i);
    if start >= line.len() {
        return Err(Line::new(complaint).done());
    }
    let end: usize = skip_field(line, start);
    Ok((slice_subrange(line, start, end), end))
}

fn parse_rest_of_line(line: &[u8], i: usize, start: u64, end: u64, perms: Perms) -> (r: Result<
    Option<MemoryRegion>,
    String,
>)
    requires
        i <= line@.len(),
    ensures
        match rest_of_line(line@, i as int, start, end, perms) {
            Ok(region) => r is Ok && region == (match r->Ok_0 {
                None => None,
                Some(m) => Some(m@),
            }),
            Err(text) => r is Err && r->Err_0@ == text,
        },
{
    let (offset_field, j) = match next_field(
        line,
        i,
        "missing file offset field in proc maps line",
    ) {
        Err(text) => {
            return Err(text);
        },
        Ok(found) => found,
    };
    let file_offset: u64 = match parse_offset(offset_field) {
        Err(text) => {
            return Err(text);
        },
        Ok(v) => v,
    };
    let (dev_field, k) = match next_field(line, j, "missing device field in proc maps line") {
        Err(text) => {
            return Err(text);
        },
        Ok(found) => found,
    };
    let (dev_major, dev_minor) = match parse_dev(dev_field) {
        Err(text) => {
            return Err(text);
        },
        Ok(dev) => dev,
    };
    let (inode_field, m) = match next_field(line, k, "missing inode field in proc maps line") {
        Err(text) => {
            return Err(text);
        },
        Ok(found) => found,
    };
    let inode: u64 = match parse_inode(inode_field) {
        Err(text) => {
            return Err(text);
        },
        Ok(v) => v,
    };
    let label_start: usize = skip_blanks(line, m);
    let label = copy_range(line, label_start, line.len());
    proof {
        assert(label@ =~= line@.skip(label_start as int));
    }
    Ok(
        Some(
            MemoryRegion {
                start,
                end,
                prot_read: perms.read,
                prot_write: perms.write,
                prot_exec: perms.execute,
                shared: perms.shared,
                file_offset,
                dev_major,
                dev_minor,
                inode,
                label,
            },
        ),
    )
}

fn parse_line(line: &[u8]) -> (r: Result<Option<MemoryRegion>, String>)
    ensures
        match line_region(line@) {
            Ok(region) => r is Ok && region == (match r->Ok_0 {
                None => None,
                Some(m) => Some(m@),
            }),
            Err(text) => r is Err && r->Err_0@ == text,
        },
{
    proof {
        reveal_strlit("");
        assert(""@ =~= Seq::<char>::empty());
    }
    let (range_field, i) = match next_field(line, 0, "") {
        Err(_) => {
            return Ok(None);
        },
        Ok(found) => found,
    };
    let (start, end) = match parse_range(range_field) {
        Err(text) => {
            return Err(text);
        },
        Ok(bounds) => bounds,
    };
    let (perms_field, j) = match next_field(
        line,
        i,
        "missing permissions field in proc maps line",
    ) {
        Err(text) => {
            return Err(text);
        },
        Ok(found) => found,
    };
    let perms = match parse_perms(perms_field) {
        Err(text) => {
            return Err(text);
        },
        Ok(perms) => perms,
    };
    parse_rest_of_line(line, j, start, end, perms)
}

/// Reads the listing of a process's memory map.
pub fn parse_proc_maps_bytes(maps_bytes: &[u8]) -> (r: Result<MemoryMapModel, String>)
    ensures
        match listed_map(maps_bytes@) {
            Ok(map) => r is Ok && r->Ok_0@ == map,
            Err(text) => r is Err && r->Err_0@ == text,
        },
{
    let mut regions: Vec<MemoryRegion> = Vec::new();
    let mut at: usize = 0;
    let mut more: bool = true;
    proof {
        assert(crate::maps::region_views(regions@) =~= Seq::<Region>::empty());
    }
    while more
        invariant
            at <= maps_bytes@.len(),
            more ==> regions_of_lines(maps_bytes@, 0, Seq::empty()) == regions_of_lines(
                maps_bytes@,
                at as int,
                crate::maps::region_views(regions@),
            ),
            !more ==> regions_of_lines(maps_bytes@, 0, Seq::empty()) == Ok::<
                Seq<Region>,
                Seq<char>,
            >(crate::maps::region_views(regions@)),
        decreases maps_bytes@.len() - at + if more { 1int } else { 0 },
    {
        let end: usize = find(maps_bytes, 10, at);
        let raw_line = slice_subrange(maps_bytes, at, end);
        let line = if raw_line.len() > 0 && raw_line[raw_line.len() - 1] == 13 {
            slice_subrange(raw_line, 0, raw_line.len() - 1)
        } else {
            raw_line
        };
        proof {
            assert(line@ =~= without_return(maps_bytes@.subrange(at as int, end as int)));
        }
        match parse_line(line) {
            Err(text) => {
                return Err(text);
            },
            Ok(None) => {},
            Ok(Some(region)) => {
                let ghost before = crate::maps::region_views(regions@);
                let ghost added = region@;
                regions.push(region);
                proof {
                    assert(crate::maps::region_views(regions@) =~= before.push(added));
                }
            },
        }
        if end >= maps_bytes.len() {
            more = false;
        } else {
            at = end + 1;
        }
    }
    MemoryMapModel::new(regions)
}

/// Reads the listing of a process's memory map from text.
pub fn parse_proc_maps(maps_text: &str) -> (r: Result<MemoryMapModel, String>)
    ensures
        match listed_map(vstd::utf8::encode_utf8(maps_text@)) {
            Ok(map) => r is Ok && r->Ok_0@ == map,
            Err(text) => r is Err && r->Err_0@ == text,
        },
{
    parse_proc_maps_bytes(maps_text.as_bytes())
}

} // verus!
