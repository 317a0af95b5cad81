//! Stylesheet parser: selectors, declarations and values.
//!
//! The grammar is the renderer's small CSS subset: rules of the form
//! `<selectors> { <declarations> }`, selectors made of a tag name, `#id`,
//! `.class` parts and `*`, and values that are keywords, pixel lengths or
//! `#rrggbb` colors.  Parsing functions take the input characters and a
//! position and return the parsed item with the next position; a syntax
//! error reports the position it was found at.  Fractional digits of a
//! length are read and discarded: lengths are whole pixels.
use vstd::prelude::*;

use crate::css::{selectors_sorted, spec_ge, spec_specificity, Color, Declaration, Rule, Selector,
    SimpleSelector, Stylesheet, Unit, Value};
use crate::scan::{ident_run, is_digit, skip_ws, spec_dec_val, spec_hex_val, spec_is_digit,
    spec_is_hex, spec_is_ident_char, ParseError};
use crate::strutil::to_chars;
use vstd::multiset::Multiset;

verus! {

/// Largest pixel magnitude the parser accepts in a length.
pub const MAX_LENGTH_PX: i64 = 0x10_0000_0000_0000;

/// Whether the character can appear in an identifier.
pub fn valid_identifier_char(c: char) -> (r: bool)
    ensures
        r == spec_is_ident_char(c),
{
    crate::scan::is_ident_char(c)
}

/// Parse a stylesheet.  An empty (or all-whitespace) source yields a
/// stylesheet with no rules.  In every parsed rule the selectors are sorted
/// by descending specificity and there is at least one of them.
pub fn parse(source: String) -> (r: Result<Stylesheet, ParseError>)
    ensures
        match r {
            Result::Ok(s) => (forall|i: int|
                0 <= i < s@.len() ==> selectors_sorted(#[trigger] s@[i]) && s@[i].selectors.len()
                    >= 1) && (source@.len() == 0 ==> s@.len() == 0),
            Result::Err(e) => source@.len() > 0,
        },
{
    let input = to_chars(source.as_str());
    let len = input.len();
    let mut rules: Vec<Rule> = Vec::new();
    let mut pos: usize = 0;
    while pos < len
        invariant
            len == input@.len(),
            pos <= len,
            forall|i: int|
                0 <= i < rules@.len() ==> selectors_sorted(#[trigger] rules@[i]@)
                    && rules@[i]@.selectors.len() >= 1,
            len == 0 ==> rules@.len() == 0,
        decreases len - pos,
    {
        pos = skip_ws(&input, pos);
        if pos == len {
            break ;
        }
        let (rule, p2) = match parse_rule(&input, pos) {
            Result::Ok(x) => x,
            Result::Err(e) => {
                return Result::Err(e);
            },
        };
        rules.push(rule);
        pos = p2;
    }
    Result::Ok(Stylesheet { rules })
}

/// Parse one rule: `<selectors> { <declarations> }`.
pub fn parse_rule(input: &Vec<char>, pos: usize) -> (r: Result<(Rule, usize), ParseError>)
    requires
        pos <= input@.len(),
    ensures
        match r {
            Result::Ok(x) => pos < x.1 <= input@.len() && selectors_sorted(x.0@)
                && x.0@.selectors.len() >= 1,
            Result::Err(e) => true,
        },
{
    let (selectors, p1) = match parse_selectors(input, pos) {
        Result::Ok(x) => x,
        Result::Err(e) => {
            return Result::Err(e);
        },
    };
    let (declarations, p2) = match parse_declarations(input, p1) {
        Result::Ok(x) => x,
        Result::Err(e) => {
            return Result::Err(e);
        },
    };
    Result::Ok((Rule { selectors, declarations }, p2))
}

/// Sort selectors by descending specificity.  The result is a permutation
/// of the input (as a multiset) in sorted order.
fn sort_selectors(v: Vec<Selector>) -> (out: Vec<Selector>)
    ensures
        out@.to_multiset() == v@.to_multiset(),
        out@.len() == v@.len(),
        forall|i: int, j: int|
            0 <= i <= j < out@.len() ==> spec_ge(
                spec_specificity(#[trigger] out@[i]@),
                spec_specificity(#[trigger] out@[j]@),
            ),
{
    broadcast use vstd::seq_lib::group_to_multiset_ensures;

    let mut rest = v;
    let mut out: Vec<Selector> = Vec::new();
    proof {
        assert(out@.to_multiset().add(rest@.to_multiset()) =~= v@.to_multiset());
    }
    while rest.len() > 0
        invariant
            out@.to_multiset().add(rest@.to_multiset()) =~= v@.to_multiset(),
            out@.len() + rest@.len() == v@.len(),
            forall|i: int, j: int|
                0 <= i <= j < out@.len() ==> spec_ge(
                    spec_specificity(#[trigger] out@[i]@),
                    spec_specificity(#[trigger] out@[j]@),
                ),
            forall|i: int, j: int|
                0 <= i < out@.len() && 0 <= j < rest@.len() ==> spec_ge(
                    spec_specificity(#[trigger] out@[i]@),
                    spec_specificity(#[trigger] rest@[j]@),
                ),
        decreases rest.len(),
    {
        // Find a selector of maximal specificity among the rest.
        let n = rest.len();
        let mut m: usize = 0;
        let mut best = rest[0].specificity();
        let mut k: usize = 1;
        while k < n
            invariant
                n == rest@.len(),
                0 < n,
                m < n,
                k <= n,
                (best.0 as int, best.1 as int, best.2 as int) == spec_specificity(rest@[m as int]@),
                forall|j: int|
                    0 <= j < k ==> spec_ge(
                        spec_specificity(rest@[m as int]@),
                        spec_specificity(#[trigger] rest@[j]@),
                    ),
            decreases n - k,
        {
            let cand = rest[k].specificity();
            if !crate::css::specificity_ge(best, cand) {
                m = k;
                best = cand;
            }
            proof {
                assert(spec_ge(
                    spec_specificity(rest@[m as int]@),
                    spec_specificity(rest@[k as int]@),
                ));
            }
            k = k + 1;
        }
        let ghost rest0 = rest@;
        let chosen = rest.remove(m);
        let ghost out0 = out@;
        out.push(chosen);
        proof {
            assert(rest0.remove(m as int).to_multiset() =~= rest0.to_multiset().remove(
                rest0[m as int],
            ));
            assert(out0.push(chosen).to_multiset() =~= out0.to_multiset().insert(chosen));
            assert(out@.to_multiset().add(rest@.to_multiset()) =~= v@.to_multiset());
            assert(forall|j: int|
                0 <= j < rest@.len() ==> rest@[j] == rest0.remove(m as int)[j]);
            assert(forall|j: int|
                0 <= j < rest@.len() ==> exists|t: int|
                    0 <= t < rest0.len() && #[trigger] rest@[j] == rest0[t]);
        }
    }
    proof {
        assert(rest@.to_multiset() =~= Multiset::<Selector>::empty());
        assert(out@.to_multiset() =~= v@.to_multiset());
    }
    out
}

/// Parse a comma-separated selector list up to (not including) the opening
/// brace, and sort it by descending specificity.
pub fn parse_selectors(input: &Vec<char>, pos: usize) -> (r: Result<
    (Vec<Selector>, usize),
    ParseError,
>)
    requires
        pos <= input@.len(),
    ensures
        match r {
            Result::Ok(x) => pos <= x.1 <= input@.len() && x.0@.len() >= 1 && (forall|i: int, j: int|
                0 <= i <= j < x.0@.len() ==> spec_ge(
                    spec_specificity(#[trigger] x.0@[i]@),
                    spec_specificity(#[trigger] x.0@[j]@),
                )) && x.1 < input@.len() && input@[x.1 as int] == '{',
            Result::Err(e) => true,
        },
{
    let len = input.len();
    let mut selectors: Vec<Selector> = Vec::new();
    let mut p = pos;
    loop
        invariant
            len == input@.len(),
            pos <= p <= len,
        decreases len - p,
    {
        let (simple, p1) = parse_selector(input, p);
        selectors.push(Selector::Simple(simple));
        let p2 = skip_ws(input, p1);
        if p2 >= len {
            return Result::Err(ParseError { pos: p2 });
        }
        let c = input[p2];
        if c == ',' {
            let p3 = skip_ws(input, p2 + 1);
            if p3 == p {
                // No progress is impossible: the comma was consumed.
                return Result::Err(ParseError { pos: p3 });
            }
            p = p3;
        } else if c == '{' {
            let sorted = sort_selectors(selectors);
            return Result::Ok((sorted, p2));
        } else {
            return Result::Err(ParseError { pos: p2 });
        }
    }
}

/// Parse one simple selector: any mix of a tag name, `#id`, `.class` parts
/// and the universal `*`, ending at the first other character.
pub fn parse_selector(input: &Vec<char>, pos: usize) -> (r: (SimpleSelector, usize))
    requires
        pos <= input@.len(),
    ensures
        pos <= r.1 <= input@.len(),
{
    let len = input.len();
    let mut selector = SimpleSelector { tag_name: Option::None, id: Option::None, class: Vec::new() };
    let mut p = pos;
    while p < len
        invariant
            len == input@.len(),
            pos <= p <= len,
        decreases len - p,
    {
        let c = input[p];
        if c == '#' {
            let (name, p2) = ident_run(input, p + 1);
            selector.id = Option::Some(name);
            p = p2;
        } else if c == '.' {
            let (name, p2) = ident_run(input, p + 1);
            selector.class.push(name);
            p = p2;
        } else if c == '*' {
            p = p + 1;
        } else if crate::scan::is_ident_char(c) {
            let (name, p2) = ident_run(input, p);
            selector.tag_name = Option::Some(name);
            p = p2;
        } else {
            break ;
        }
    }
    (selector, p)
}

/// Parse a declaration block: `{ <declarations> }`.
pub fn parse_declarations(input: &Vec<char>, pos: usize) -> (r: Result<
    (Vec<Declaration>, usize),
    ParseError,
>)
    requires
        pos <= input@.len(),
    ensures
        match r {
            Result::Ok(x) => pos < x.1 <= input@.len(),
            Result::Err(e) => true,
        },
{
    let len = input.len();
    if pos >= len || input[pos] != '{' {
        return Result::Err(ParseError { pos });
    }
    let mut declarations: Vec<Declaration> = Vec::new();
    let mut p = pos + 1;
    loop
        invariant
            len == input@.len(),
            pos < p <= len,
        decreases len - p,
    {
        let p1 = skip_ws(input, p);
        if p1 >= len {
            return Result::Err(ParseError { pos: p1 });
        }
        if input[p1] == '}' {
            return Result::Ok((declarations, p1 + 1));
        }
        let (decl, p2) = match parse_declaration(input, p1) {
            Result::Ok(x) => x,
            Result::Err(e) => {
                return Result::Err(e);
            },
        };
        declarations.push(decl);
        p = p2;
    }
}

/// Parse one declaration: `<name> : <value> ;`.
pub fn parse_declaration(input: &Vec<char>, pos: usize) -> (r: Result<
    (Declaration, usize),
    ParseError,
>)
    requires
        pos <= input@.len(),
    ensures
        match r {
            Result::Ok(x) => pos < x.1 <= input@.len(),
            Result::Err(e) => true,
        },
{
    let (name, p1) = ident_run(input, pos);
    let p2 = skip_ws(input, p1);
    if p2 >= input.len() || input[p2] != ':' {
        return Result::Err(ParseError { pos: p2 });
    }
    let p3 = skip_ws(input, p2 + 1);
    let (value, p4) = match parse_value(input, p3) {
        Result::Ok(x) => x,
        Result::Err(e) => {
            return Result::Err(e);
        },
    };
    let p5 = skip_ws(input, p4);
    if p5 >= input.len() || input[p5] != ';' {
        return Result::Err(ParseError { pos: p5 });
    }
    Result::Ok((Declaration { name, value }, p5 + 1))
}

/// Parse a value: a pixel length, a `#rrggbb` color, or a keyword.
pub fn parse_value(input: &Vec<char>, pos: usize) -> (r: Result<(Value, usize), ParseError>)
    requires
        pos <= input@.len(),
    ensures
        match r {
            Result::Ok(x) => pos <= x.1 <= input@.len(),
            Result::Err(e) => true,
        },
{
    let len = input.len();
    if pos < len && is_digit(input[pos]) {
        parse_length(input, pos)
    } else if pos < len && input[pos] == '#' {
        parse_color(input, pos)
    } else {
        let (name, p1) = ident_run(input, pos);
        Result::Ok((Value::Keyword(name), p1))
    }
}

/// Parse a pixel length: digits, an optional discarded fraction, and the
/// unit `px` (in any letter case).
pub fn parse_length(input: &Vec<char>, pos: usize) -> (r: Result<(Value, usize), ParseError>)
    requires
        pos <= input@.len(),
        pos < input@.len() && spec_is_digit(input@[pos as int]),
    ensures
        match r {
            Result::Ok(x) => pos < x.1 <= input@.len() && x.0 is Length,
            Result::Err(e) => true,
        },
{
    let (n, p1) = match parse_int(input, pos) {
        Result::Ok(x) => x,
        Result::Err(e) => {
            return Result::Err(e);
        },
    };
    // Discard any fractional digits: lengths are whole pixels.
    let mut p2 = p1;
    let len = input.len();
    if p2 < len && input[p2] == '.' {
        p2 = p2 + 1;
        while p2 < len && is_digit(input[p2])
            invariant
                p1 < p2 <= len,
                len == input@.len(),
            decreases len - p2,
        {
            p2 = p2 + 1;
        }
    }
    let (unit, p3) = match parse_unit(input, p2) {
        Result::Ok(x) => x,
        Result::Err(e) => {
            return Result::Err(e);
        },
    };
    Result::Ok((Value::Length(n, unit), p3))
}

/// Parse the maximal digit run as a decimal number, refusing one that
/// exceeds the parser's length bound.
pub fn parse_int(input: &Vec<char>, pos: usize) -> (r: Result<(i64, usize), ParseError>)
    requires
        pos < input@.len(),
        spec_is_digit(input@[pos as int]),
    ensures
        match r {
            Result::Ok(x) => pos < x.1 <= input@.len() && 0 <= x.0 <= MAX_LENGTH_PX && x.0 as int
                == spec_dec_val(input@.subrange(pos as int, x.1 as int)),
            Result::Err(e) => true,
        },
{
    let len = input.len();
    let mut p = pos;
    let mut val: i64 = 0;
    while p < len && is_digit(input[p])
        invariant
            pos <= p <= len,
            len == input@.len(),
            0 <= val <= MAX_LENGTH_PX,
            val as int == spec_dec_val(input@.subrange(pos as int, p as int)),
        decreases len - p,
    {
        let d = (input[p] as u32) - 48;
        if val > MAX_LENGTH_PX / 10 {
            return Result::Err(ParseError { pos: p });
        }
        val = val * 10 + (d as i64);
        p = p + 1;
        proof {
            assert(input@.subrange(pos as int, p as int).drop_last() =~= input@.subrange(
                pos as int,
                p - 1,
            ));
            assert(input@.subrange(pos as int, p as int).last() == input@[p - 1]);
        }
        if val > MAX_LENGTH_PX {
            return Result::Err(ParseError { pos: p });
        }
    }
    proof {
        assert(input@.subrange(pos as int, pos as int) =~= Seq::<char>::empty());
    }
    Result::Ok((val, p))
}

/// Parse the unit of a length: only `px` exists, in any letter case.
pub fn parse_unit(input: &Vec<char>, pos: usize) -> (r: Result<(Unit, usize), ParseError>)
    requires
        pos <= input@.len(),
    ensures
        match r {
            Result::Ok(x) => pos <= x.1 <= input@.len(),
            Result::Err(e) => true,
        },
{
    let (name, p1) = ident_run(input, pos);
    let ok = name.unicode_len() == 2 && {
        let c0 = name.as_str().get_char(0);
        let c1 = name.as_str().get_char(1);
        (c0 == 'p' || c0 == 'P') && (c1 == 'x' || c1 == 'X')
    };
    if ok {
        Result::Ok((Unit::Px, p1))
    } else {
        Result::Err(ParseError { pos })
    }
}

/// Parse a `#rrggbb` color; the alpha channel is always 255.
pub fn parse_color(input: &Vec<char>, pos: usize) -> (r: Result<(Value, usize), ParseError>)
    requires
        pos <= input@.len(),
        pos < input@.len() && input@[pos as int] == '#',
    ensures
        match r {
            Result::Ok(x) => x.1 == pos + 7 && x.1 <= input@.len() && (match x.0 {
                Value::ColorValue(c) => c.a == 255 && c.r as int == 16 * spec_hex_val(
                    input@[pos + 1],
                ) + spec_hex_val(input@[pos + 2]) && c.g as int == 16 * spec_hex_val(
                    input@[pos + 3],
                ) + spec_hex_val(input@[pos + 4]) && c.b as int == 16 * spec_hex_val(
                    input@[pos + 5],
                ) + spec_hex_val(input@[pos + 6]),
                _ => false,
            }),
            Result::Err(e) => true,
        },
{
    let len = input.len();
    proof {
        assert(pos < len);
    }
    let r = match parse_hex_pair(input, pos + 1) {
        Result::Ok(x) => x,
        Result::Err(e) => {
            return Result::Err(e);
        },
    };
    let g = match parse_hex_pair(input, pos + 3) {
        Result::Ok(x) => x,
        Result::Err(e) => {
            return Result::Err(e);
        },
    };
    let b = match parse_hex_pair(input, pos + 5) {
        Result::Ok(x) => x,
        Result::Err(e) => {
            return Result::Err(e);
        },
    };
    Result::Ok((Value::ColorValue(Color { r, g, b, a: 255 }), pos + 7))
}

/// Parse two hexadecimal digits as one byte.
pub fn parse_hex_pair(input: &Vec<char>, pos: usize) -> (r: Result<u8, ParseError>)
    ensures
        match r {
            Result::Ok(v) => pos + 2 <= input@.len() && spec_is_hex(input@[pos as int])
                && spec_is_hex(input@[pos + 1]) && v as int == 16 * spec_hex_val(
                input@[pos as int],
            ) + spec_hex_val(input@[pos + 1]),
            Result::Err(e) => true,
        },
{
    if pos >= input.len() || pos + 1 >= input.len() {
        return Result::Err(ParseError { pos });
    }
    let hi = match hex_val(input[pos]) {
        Option::Some(v) => v,
        Option::None => {
            return Result::Err(ParseError { pos });
        },
    };
    let lo = match hex_val(input[pos + 1]) {
        Option::Some(v) => v,
        Option::None => {
            return Result::Err(ParseError { pos: pos + 1 });
        },
    };
    Result::Ok(16 * hi + lo)
}

/// The value of a hexadecimal digit, if it is one.
fn hex_val(c: char) -> (r: Option<u8>)
    ensures
        match r {
            Option::Some(v) => spec_is_hex(c) && v as int == spec_hex_val(c) && v < 16,
            Option::None => !spec_is_hex(c),
        },
{
    let u = c as u32;
    if 48 <= u && u <= 57 {
        Option::Some((u - 48) as u8)
    } else if 97 <= u && u <= 102 {
        Option::Some((u - 87) as u8)
    } else if 65 <= u && u <= 70 {
        Option::Some((u - 55) as u8)
    } else {
        Option::None
    }
}

} // verus!
