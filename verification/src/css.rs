//! Stylesheet data model: rules, selectors, declarations and values.
//!
//! Lengths are whole pixels held in `i64`; the only supported unit is `Px`.
use vstd::prelude::*;

pub mod parser;

verus! {

/// An RGBA color, one byte per channel.
#[derive(Debug, Clone, Copy, PartialEq, Eq, Structural)]
pub struct Color {
    pub r: u8,
    pub g: u8,
    pub b: u8,
    pub a: u8,
}

/// The unit of a length value.
#[derive(Debug, Clone, Copy, PartialEq, Eq, Structural)]
pub enum Unit {
    Px,
}

/// A declaration's value: a keyword, a pixel length, or a color.
#[derive(Debug)]
pub enum Value {
    Keyword(String),
    Length(i64, Unit),
    ColorValue(Color),
}

/// Mathematical image of a `Value`, with strings abstracted to their views.
pub ghost enum ValueV {
    Keyword(Seq<char>),
    Length(i64, Unit),
    ColorValue(Color),
}

impl View for Value {
    type V = ValueV;

    open spec fn view(&self) -> ValueV {
        match self {
            Value::Keyword(s) => ValueV::Keyword(s@),
            Value::Length(n, u) => ValueV::Length(*n, *u),
            Value::ColorValue(c) => ValueV::ColorValue(*c),
        }
    }
}

impl Clone for Value {
    fn clone(&self) -> (r: Self)
        ensures
            r@ == self@,
    {
        match self {
            Value::Keyword(s) => Value::Keyword(s.clone()),
            Value::Length(n, u) => Value::Length(*n, *u),
            Value::ColorValue(c) => Value::ColorValue(*c),
        }
    }
}

/// Pixel size of a value: the magnitude of a `Px` length, 0 for anything else.
pub open spec fn spec_to_px(v: ValueV) -> int {
    match v {
        ValueV::Length(n, Unit::Px) => n as int,
        _ => 0,
    }
}

impl Value {
    pub fn to_px(&self) -> (r: i64)
        ensures
            r as int == spec_to_px(self@),
    {
        match self {
            Value::Length(n, Unit::Px) => *n,
            _ => 0,
        }
    }
}

/// A selector conjunction: optional tag name, optional id, required classes.
#[derive(Debug)]
pub struct SimpleSelector {
    pub tag_name: Option<String>,
    pub id: Option<String>,
    pub class: Vec<String>,
}

/// Mathematical image of a `SimpleSelector`.
pub ghost struct SelectorV {
    pub tag_name: Option<Seq<char>>,
    pub id: Option<Seq<char>>,
    pub class: Seq<Seq<char>>,
}

impl View for SimpleSelector {
    type V = SelectorV;

    open spec fn view(&self) -> SelectorV {
        SelectorV {
            tag_name: match self.tag_name {
                Option::Some(t) => Option::Some(t@),
                Option::None => Option::None,
            },
            id: match self.id {
                Option::Some(t) => Option::Some(t@),
                Option::None => Option::None,
            },
            class: self.class@.map(|i: int, c: String| c@),
        }
    }
}

/// A selector; only simple selectors exist in this subset of CSS.
#[derive(Debug)]
pub enum Selector {
    Simple(SimpleSelector),
}

impl View for Selector {
    type V = SelectorV;

    open spec fn view(&self) -> SelectorV {
        match self {
            Selector::Simple(s) => s@,
        }
    }
}

/// Specificity triple: (id count, class count, tag count).
pub type Specificity = (usize, usize, usize);

/// Specificity of a selector, as a triple of mathematical integers.
pub open spec fn spec_specificity(s: SelectorV) -> (int, int, int) {
    (
        if s.id is Some {
            1int
        } else {
            0int
        },
        s.class.len() as int,
        if s.tag_name is Some {
            1int
        } else {
            0int
        },
    )
}

/// Lexicographic order on specificity triples: `a` at least as specific as `b`.
pub open spec fn spec_ge(a: (int, int, int), b: (int, int, int)) -> bool {
    a.0 > b.0 || (a.0 == b.0 && (a.1 > b.1 || (a.1 == b.1 && a.2 >= b.2)))
}

/// Strict lexicographic order on specificity triples.
pub open spec fn spec_gt(a: (int, int, int), b: (int, int, int)) -> bool {
    a.0 > b.0 || (a.0 == b.0 && (a.1 > b.1 || (a.1 == b.1 && a.2 > b.2)))
}

impl Selector {
    pub fn specificity(&self) -> (r: Specificity)
        ensures
            (r.0 as int, r.1 as int, r.2 as int) == spec_specificity(self@),
    {
        let Selector::Simple(simple) = self;
        let a: usize = if simple.id.is_some() {
            1
        } else {
            0
        };
        let b: usize = simple.class.len();
        let c: usize = if simple.tag_name.is_some() {
            1
        } else {
            0
        };
        (a, b, c)
    }
}

/// Lexicographic comparison of two specificity triples.
pub fn specificity_ge(a: Specificity, b: Specificity) -> (r: bool)
    ensures
        r == spec_ge((a.0 as int, a.1 as int, a.2 as int), (b.0 as int, b.1 as int, b.2 as int)),
{
    a.0 > b.0 || (a.0 == b.0 && (a.1 > b.1 || (a.1 == b.1 && a.2 >= b.2)))
}

/// A property declaration: `name: value`.
#[derive(Debug)]
pub struct Declaration {
    pub name: String,
    pub value: Value,
}

/// Mathematical image of a `Declaration`.
pub ghost struct DeclarationV {
    pub name: Seq<char>,
    pub value: ValueV,
}

impl View for Declaration {
    type V = DeclarationV;

    open spec fn view(&self) -> DeclarationV {
        DeclarationV { name: self.name@, value: self.value@ }
    }
}

/// A rule: selectors (sorted by descending specificity) and declarations.
#[derive(Debug)]
pub struct Rule {
    pub selectors: Vec<Selector>,
    pub declarations: Vec<Declaration>,
}

/// Mathematical image of a `Rule`.
pub ghost struct RuleV {
    pub selectors: Seq<SelectorV>,
    pub declarations: Seq<DeclarationV>,
}

impl View for Rule {
    type V = RuleV;

    open spec fn view(&self) -> RuleV {
        RuleV {
            selectors: self.selectors@.map(|i: int, s: Selector| s@),
            declarations: self.declarations@.map(|i: int, d: Declaration| d@),
        }
    }
}

/// An ordered list of rules.
#[derive(Debug)]
pub struct Stylesheet {
    pub rules: Vec<Rule>,
}

impl View for Stylesheet {
    type V = Seq<RuleV>;

    open spec fn view(&self) -> Seq<RuleV> {
        self.rules@.map(|i: int, r: Rule| r@)
    }
}

/// A rule's selectors are sorted by descending specificity.
pub open spec fn selectors_sorted(r: RuleV) -> bool {
    forall|i: int, j: int|
        0 <= i <= j < r.selectors.len() ==> spec_ge(
            spec_specificity(r.selectors[i]),
            spec_specificity(r.selectors[j]),
        )
}

} // verus!
