//! Markup parser: elements with attributes and text leaves.
//!
//! The grammar is the renderer's small subset: balanced tags
//! `<name attr="value">...</name>` and text runs.  Anything after the
//! top-level content (such as a stray closing tag) is ignored, as is any
//! markup the scanner cannot read past — a mismatched closing tag is an
//! error.  When the source does not hold exactly one root element, the
//! parsed nodes are wrapped in a synthetic `html` element.
use vstd::prelude::*;

use crate::dom::{elem, text, AttrMap, ElemV, Node, NodeTypeV};
use crate::scan::{run_until, skip_ws, tag_run, ParseError};
use crate::strutil::{str_eq, to_chars};

verus! {

/// Parse a document.  An empty source yields an `html` element with no
/// children.
pub fn parse(source: String) -> (r: Result<Node, ParseError>)
    ensures
        source@.len() == 0 ==> (match r {
            Result::Ok(n) => n@.children.len() == 0 && (match n@.node_type {
                NodeTypeV::Element(e) => e.tag_name == "html"@ && e.attributes.len() == 0,
                _ => false,
            }),
            Result::Err(e) => false,
        }),
{
    let input = to_chars(source.as_str());
    let (mut nodes, _p) = match parse_nodes(&input, 0) {
        Result::Ok(x) => x,
        Result::Err(e) => {
            return Result::Err(e);
        },
    };
    if nodes.len() == 1 {
        let n = nodes.remove(0);
        Result::Ok(n)
    } else {
        proof {
            crate::dom::lemma_view_nodes(nodes@);
        }
        let tag = "html".to_owned();
        let attrs = AttrMap::new();
        let n = elem(tag, attrs, nodes);
        Result::Ok(n)
    }
}

/// Parse sibling nodes until the input ends or a closing tag begins.
pub fn parse_nodes(input: &Vec<char>, pos: usize) -> (r: Result<(Vec<Node>, usize), ParseError>)
    requires
        pos <= input@.len(),
    ensures
        match r {
            Result::Ok(x) => pos <= x.1 <= input@.len() && (input@.len() == 0 ==> x.0@.len()
                == 0),
            Result::Err(e) => input@.len() > 0,
        },
    decreases input@.len() - pos, 2int,
{
    let len = input.len();
    let mut nodes: Vec<Node> = Vec::new();
    let mut p = pos;
    loop
        invariant
            len == input@.len(),
            pos <= p <= len,
            len == 0 ==> nodes@.len() == 0,
        decreases len - p,
    {
        p = skip_ws(input, p);
        if p >= len {
            return Result::Ok((nodes, p));
        }
        if input[p] == '<' && p + 1 < len && input[p + 1] == '/' {
            return Result::Ok((nodes, p));
        }
        let (node, p2) = match parse_node(input, p) {
            Result::Ok(x) => x,
            Result::Err(e) => {
                return Result::Err(e);
            },
        };
        nodes.push(node);
        p = p2;
    }
}

/// Parse one node: an element at `<`, else a text run.
pub fn parse_node(input: &Vec<char>, pos: usize) -> (r: Result<(Node, usize), ParseError>)
    requires
        pos < input@.len(),
    ensures
        match r {
            Result::Ok(x) => pos < x.1 <= input@.len(),
            Result::Err(e) => true,
        },
    decreases input@.len() - pos, 1int,
{
    if input[pos] == '<' {
        parse_element(input, pos)
    } else {
        parse_text(input, pos)
    }
}

/// Parse a text run up to the next tag.
pub fn parse_text(input: &Vec<char>, pos: usize) -> (r: Result<(Node, usize), ParseError>)
    requires
        pos < input@.len(),
        input@[pos as int] != '<',
    ensures
        match r {
            Result::Ok(x) => pos < x.1 <= input@.len(),
            Result::Err(e) => true,
        },
{
    let (s, p) = run_until(input, pos, '<');
    proof {
        assert(p != pos);
    }
    Result::Ok((text(s), p))
}

/// Parse one element: opening tag, attributes, children, closing tag.
/// The closing tag must repeat the opening tag's name.
pub fn parse_element(input: &Vec<char>, pos: usize) -> (r: Result<(Node, usize), ParseError>)
    requires
        pos < input@.len(),
        input@[pos as int] == '<',
    ensures
        match r {
            Result::Ok(x) => pos < x.1 <= input@.len(),
            Result::Err(e) => true,
        },
    decreases input@.len() - pos, 0int,
{
    let len = input.len();
    let (tag, p1) = parse_tag_name(input, pos + 1);
    let (attrs, p2) = match parse_attributes(input, p1) {
        Result::Ok(x) => x,
        Result::Err(e) => {
            return Result::Err(e);
        },
    };
    // The attribute scan stopped at the closing `>`.
    let p3 = p2 + 1;
    let (children, p4) = match parse_nodes(input, p3) {
        Result::Ok(x) => x,
        Result::Err(e) => {
            return Result::Err(e);
        },
    };
    if p4 >= len || input[p4] != '<' {
        return Result::Err(ParseError { pos: p4 });
    }
    if p4 + 1 >= len || input[p4 + 1] != '/' {
        return Result::Err(ParseError { pos: p4 });
    }
    let (ctag, p5) = parse_tag_name(input, p4 + 2);
    if !str_eq(ctag.as_str(), tag.as_str()) {
        return Result::Err(ParseError { pos: p4 + 2 });
    }
    if p5 >= len || input[p5] != '>' {
        return Result::Err(ParseError { pos: p5 });
    }
    Result::Ok((elem(tag, attrs, children), p5 + 1))
}

/// Parse a tag or attribute name: the maximal run of letters and digits.
pub fn parse_tag_name(input: &Vec<char>, pos: usize) -> (r: (String, usize))
    requires
        pos <= input@.len(),
    ensures
        pos <= r.1 <= input@.len(),
        r.0@ == input@.subrange(pos as int, r.1 as int),
{
    tag_run(input, pos)
}

/// Parse `name="value"` attribute pairs up to the tag's closing `>`, later
/// pairs overwriting earlier ones with the same name.  Returns the position
/// of the `>` itself.
pub fn parse_attributes(input: &Vec<char>, pos: usize) -> (r: Result<
    (AttrMap, usize),
    ParseError,
>)
    requires
        pos <= input@.len(),
    ensures
        match r {
            Result::Ok(x) => pos <= x.1 < input@.len() && input@[x.1 as int] == '>',
            Result::Err(e) => true,
        },
{
    let len = input.len();
    let mut attributes = AttrMap::new();
    let mut p = pos;
    loop
        invariant
            len == input@.len(),
            pos <= p <= len,
        decreases len - p,
    {
        p = skip_ws(input, p);
        if p >= len {
            return Result::Err(ParseError { pos: p });
        }
        if input[p] == '>' {
            return Result::Ok((attributes, p));
        }
        let (name, value, p2) = match parse_attr(input, p) {
            Result::Ok(x) => x,
            Result::Err(e) => {
                return Result::Err(e);
            },
        };
        attributes.insert(name, value);
        p = p2;
    }
}

/// Parse one `name="value"` pair.
pub fn parse_attr(input: &Vec<char>, pos: usize) -> (r: Result<
    (String, String, usize),
    ParseError,
>)
    requires
        pos <= input@.len(),
    ensures
        match r {
            Result::Ok(x) => pos < x.2 <= input@.len(),
            Result::Err(e) => true,
        },
{
    let len = input.len();
    let (name, p1) = parse_tag_name(input, pos);
    if p1 >= len || input[p1] != '=' {
        return Result::Err(ParseError { pos: p1 });
    }
    let (value, p2) = match parse_attr_value(input, p1 + 1) {
        Result::Ok(x) => x,
        Result::Err(e) => {
            return Result::Err(e);
        },
    };
    Result::Ok((name, value, p2))
}

/// Parse a quoted attribute value, single or double quotes.
pub fn parse_attr_value(input: &Vec<char>, pos: usize) -> (r: Result<
    (String, usize),
    ParseError,
>)
    requires
        pos <= input@.len(),
    ensures
        match r {
            Result::Ok(x) => pos < x.1 <= input@.len(),
            Result::Err(e) => true,
        },
{
    let len = input.len();
    if pos >= len {
        return Result::Err(ParseError { pos });
    }
    let open_quote = input[pos];
    if open_quote != '"' && open_quote != '\'' {
        return Result::Err(ParseError { pos });
    }
    let (value, p1) = run_until(input, pos + 1, open_quote);
    if p1 >= len {
        return Result::Err(ParseError { pos: p1 });
    }
    Result::Ok((value, p1 + 1))
}

} // verus!
