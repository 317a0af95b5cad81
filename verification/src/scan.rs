//! Character-level scanning helpers shared by the two parsers.
use vstd::prelude::*;

use crate::strutil::{chars_to_string, is_space, spec_is_space};

verus! {

/// A syntax error, with the character position it was found at.
#[derive(Debug, Clone, Copy, PartialEq, Eq, Structural)]
pub struct ParseError {
    pub pos: usize,
}

/// Decimal digits.
pub open spec fn spec_is_digit(c: char) -> bool {
    48 <= c as int <= 57
}

pub fn is_digit(c: char) -> (r: bool)
    ensures
        r == spec_is_digit(c),
{
    let u = c as u32;
    48 <= u && u <= 57
}

/// Identifier characters: letters, digits, `-` and `_`.
pub open spec fn spec_is_ident_char(c: char) -> bool {
    (97 <= c as int <= 122) || (65 <= c as int <= 90) || spec_is_digit(c) || c == '-' || c == '_'
}

pub fn is_ident_char(c: char) -> (r: bool)
    ensures
        r == spec_is_ident_char(c),
{
    let u = c as u32;
    (97 <= u && u <= 122) || (65 <= u && u <= 90) || (48 <= u && u <= 57) || c == '-' || c == '_'
}

/// Tag and attribute name characters: letters and digits.
pub open spec fn spec_is_tag_char(c: char) -> bool {
    (97 <= c as int <= 122) || (65 <= c as int <= 90) || spec_is_digit(c)
}

pub fn is_tag_char(c: char) -> (r: bool)
    ensures
        r == spec_is_tag_char(c),
{
    let u = c as u32;
    (97 <= u && u <= 122) || (65 <= u && u <= 90) || (48 <= u && u <= 57)
}

/// Hexadecimal digits.
pub open spec fn spec_is_hex(c: char) -> bool {
    spec_is_digit(c) || (97 <= c as int <= 102) || (65 <= c as int <= 70)
}

/// Value of a hexadecimal digit.
pub open spec fn spec_hex_val(c: char) -> int {
    if spec_is_digit(c) {
        c as int - 48
    } else if 97 <= c as int <= 102 {
        c as int - 87
    } else {
        c as int - 55
    }
}

/// Value of a sequence of decimal digits.
pub open spec fn spec_dec_val(s: Seq<char>) -> int
    decreases s.len(),
{
    if s.len() == 0 {
        0
    } else {
        spec_dec_val(s.drop_last()) * 10 + (s.last() as int - 48)
    }
}

/// Skip past whitespace: the result is the first position at or after `pos`
/// holding a non-space character, or the end of input.
pub fn skip_ws(input: &Vec<char>, pos: usize) -> (p: usize)
    requires
        pos <= input@.len(),
    ensures
        pos <= p <= input@.len(),
        forall|j: int| pos <= j < p ==> spec_is_space(#[trigger] input@[j]),
        p < input@.len() ==> !spec_is_space(input@[p as int]),
{
    let len = input.len();
    let mut p = pos;
    while p < len && is_space(input[p])
        invariant
            pos <= p <= len,
            forall|j: int| pos <= j < p ==> spec_is_space(#[trigger] input@[j]),
        decreases len - p,
    {
        p = p + 1;
    }
    p
}

/// Take the maximal run of identifier characters starting at `pos`.
pub fn ident_run(input: &Vec<char>, pos: usize) -> (r: (String, usize))
    requires
        pos <= input@.len(),
    ensures
        pos <= r.1 <= input@.len(),
        r.0@ == input@.subrange(pos as int, r.1 as int),
        forall|j: int| pos <= j < r.1 ==> spec_is_ident_char(#[trigger] input@[j]),
        r.1 < input@.len() ==> !spec_is_ident_char(input@[r.1 as int]),
{
    let len = input.len();
    let mut p = pos;
    let mut out: Vec<char> = Vec::new();
    while p < len && is_ident_char(input[p])
        invariant
            pos <= p <= len,
            out@ =~= input@.subrange(pos as int, p as int),
            forall|j: int| pos <= j < p ==> spec_is_ident_char(#[trigger] input@[j]),
        decreases len - p,
    {
        out.push(input[p]);
        p = p + 1;
        proof {
            assert(out@ =~= input@.subrange(pos as int, p as int));
        }
    }
    let s = chars_to_string(&out);
    (s, p)
}

/// Take the maximal run of tag-name characters starting at `pos`.
pub fn tag_run(input: &Vec<char>, pos: usize) -> (r: (String, usize))
    requires
        pos <= input@.len(),
    ensures
        pos <= r.1 <= input@.len(),
        r.0@ == input@.subrange(pos as int, r.1 as int),
        forall|j: int| pos <= j < r.1 ==> spec_is_tag_char(#[trigger] input@[j]),
        r.1 < input@.len() ==> !spec_is_tag_char(input@[r.1 as int]),
{
    let len = input.len();
    let mut p = pos;
    let mut out: Vec<char> = Vec::new();
    while p < len && is_tag_char(input[p])
        invariant
            pos <= p <= len,
            out@ =~= input@.subrange(pos as int, p as int),
            forall|j: int| pos <= j < p ==> spec_is_tag_char(#[trigger] input@[j]),
        decreases len - p,
    {
        out.push(input[p]);
        p = p + 1;
        proof {
            assert(out@ =~= input@.subrange(pos as int, p as int));
        }
    }
    let s = chars_to_string(&out);
    (s, p)
}

/// Take every character up to (not including) the next occurrence of `stop`.
pub fn run_until(input: &Vec<char>, pos: usize, stop: char) -> (r: (String, usize))
    requires
        pos <= input@.len(),
    ensures
        pos <= r.1 <= input@.len(),
        r.0@ == input@.subrange(pos as int, r.1 as int),
        forall|j: int| pos <= j < r.1 ==> #[trigger] input@[j] != stop,
        r.1 < input@.len() ==> input@[r.1 as int] == stop,
{
    let len = input.len();
    let mut p = pos;
    let mut out: Vec<char> = Vec::new();
    while p < len && input[p] != stop
        invariant
            pos <= p <= len,
            out@ =~= input@.subrange(pos as int, p as int),
            forall|j: int| pos <= j < p ==> #[trigger] input@[j] != stop,
        decreases len - p,
    {
        out.push(input[p]);
        p = p + 1;
        proof {
            assert(out@ =~= input@.subrange(pos as int, p as int));
        }
    }
    let s = chars_to_string(&out);
    (s, p)
}

} // verus!
