//! Style resolution: match rules against elements and apply the cascade.
//!
//! A matched rule contributes its declarations with the specificity of its
//! first matching selector (selectors are sorted by descending specificity,
//! so this is the rule's strongest match).  Rules are folded in stylesheet
//! order; a declaration overwrites an earlier one for the same property
//! exactly when its specificity is at least as high, so higher specificity
//! always wins and source order breaks ties.
use vstd::prelude::*;

use crate::assoc::{assoc_get, assoc_put, assoc_unique, lemma_assoc_get_found,
    lemma_assoc_get_none, lemma_assoc_get_put_other, lemma_assoc_get_put_same,
    lemma_assoc_put_found, lemma_assoc_put_none, lemma_assoc_put_unique};
use crate::css::{spec_ge, spec_specificity, Declaration, DeclarationV, Rule, RuleV, Selector,
    SelectorV, SimpleSelector, Specificity, Stylesheet, Value, ValueV};
use crate::dom::{spec_classes, ElemV, ElementData, Node, NodeType, NodeTypeV, NodeV};
use crate::strutil::str_eq;

verus! {

/// A resolved property map: property name to value, unique keys.
#[derive(Debug)]
pub struct PropertyMap {
    pub entries: Vec<(String, Value)>,
}

impl View for PropertyMap {
    type V = Seq<(Seq<char>, ValueV)>;

    open spec fn view(&self) -> Seq<(Seq<char>, ValueV)> {
        self.entries@.map(|i: int, p: (String, Value)| (p.0@, p.1@))
    }
}

impl PropertyMap {
    pub fn new() -> (m: PropertyMap)
        ensures
            m@ =~= Seq::<(Seq<char>, ValueV)>::empty(),
    {
        PropertyMap { entries: Vec::new() }
    }

    /// Value of the property with the given name, if present.
    pub fn get(&self, name: &str) -> (r: Option<&Value>)
        ensures
            match r {
                Option::Some(v) => assoc_get(self@, name@) == Option::Some(v@),
                Option::None => assoc_get(self@, name@) == Option::None::<ValueV>,
            },
    {
        let n = self.entries.len();
        let mut i: usize = 0;
        while i < n
            invariant
                n == self.entries.len(),
                i <= n,
                forall|j: int| 0 <= j < i ==> self@[j].0 != name@,
            decreases n - i,
        {
            if str_eq(self.entries[i].0.as_str(), name) {
                proof {
                    lemma_assoc_get_found(self@, name@, i as int);
                }
                return Option::Some(&self.entries[i].1);
            }
            i = i + 1;
        }
        proof {
            lemma_assoc_get_none(self@, name@);
        }
        Option::None
    }

    /// An owned copy of the property's value, if present.
    pub fn value(&self, name: &str) -> (r: Option<Value>)
        ensures
            match r {
                Option::Some(v) => assoc_get(self@, name@) == Option::Some(v@),
                Option::None => assoc_get(self@, name@) == Option::None::<ValueV>,
            },
    {
        match self.get(name) {
            Option::Some(v) => Option::Some(v.clone()),
            Option::None => Option::None,
        }
    }

    /// The named property, else the fallback property, else the default.
    pub fn lookup(&self, name: &str, fallback_name: &str, default: &Value) -> (r: Value)
        ensures
            r@ == spec_lookup(self@, name@, fallback_name@, default@),
    {
        match self.value(name) {
            Option::Some(v) => v,
            Option::None => match self.value(fallback_name) {
                Option::Some(v) => v,
                Option::None => default.clone(),
            },
        }
    }
}

impl Clone for PropertyMap {
    fn clone(&self) -> (r: Self)
        ensures
            r@ == self@,
    {
        let n = self.entries.len();
        let mut entries: Vec<(String, Value)> = Vec::new();
        let mut i: usize = 0;
        while i < n
            invariant
                n == self.entries.len(),
                i <= n,
                entries@.map(|t: int, p: (String, Value)| (p.0@, p.1@)) =~= self@.take(i as int),
            decreases n - i,
        {
            let ghost prev = entries@.map(|t: int, p: (String, Value)| (p.0@, p.1@));
            let name = self.entries[i].0.clone();
            let value = self.entries[i].1.clone();
            entries.push((name, value));
            proof {
                assert(entries@.map(|t: int, p: (String, Value)| (p.0@, p.1@)) =~= prev.push(
                    (name@, value@),
                ));
                assert(self@.take(i + 1) =~= self@.take(i as int).push(self@[i as int]));
            }
            i = i + 1;
        }
        proof {
            assert(self@.take(n as int) =~= self@);
        }
        let r = PropertyMap { entries };
        proof {
            assert(r@ =~= self@);
        }
        r
    }
}

/// Whether a simple selector matches an element: the optional tag name and
/// id must agree, and every selector class must be among the element's.
pub open spec fn sel_matches(e: ElemV, s: SelectorV) -> bool {
    &&& match s.tag_name {
        Option::Some(t) => t == e.tag_name,
        Option::None => true,
    }
    &&& match s.id {
        Option::Some(id) => assoc_get(e.attributes, "id"@) == Option::Some(id),
        Option::None => true,
    }
    &&& forall|i: int| 0 <= i < s.class.len() ==> spec_classes(e).contains(#[trigger] s.class[i])
}

/// Specificity of the first selector of the list that matches the element.
pub open spec fn first_match(e: ElemV, sels: Seq<SelectorV>) -> Option<(int, int, int)>
    decreases sels.len(),
{
    if sels.len() == 0 {
        Option::None
    } else if sel_matches(e, sels[0]) {
        Option::Some(spec_specificity(sels[0]))
    } else {
        first_match(e, sels.drop_first())
    }
}

/// Cascade state entry: a value plus the specificity that wrote it.
pub ghost struct CEntry {
    pub val: ValueV,
    pub spc: (int, int, int),
}

/// Apply one declaration at a given specificity: overwrite only when at
/// least as specific as what is already stored.
pub open spec fn apply_decl(
    m: Seq<(Seq<char>, CEntry)>,
    name: Seq<char>,
    v: ValueV,
    s: (int, int, int),
) -> Seq<(Seq<char>, CEntry)> {
    match assoc_get(m, name) {
        Option::Some(e) => if spec_ge(s, e.spc) {
            assoc_put(m, name, CEntry { val: v, spc: s })
        } else {
            m
        },
        Option::None => assoc_put(m, name, CEntry { val: v, spc: s }),
    }
}

/// Apply a rule's declarations in order, at one specificity.
pub open spec fn apply_decls(
    m: Seq<(Seq<char>, CEntry)>,
    decls: Seq<crate::css::DeclarationV>,
    s: (int, int, int),
) -> Seq<(Seq<char>, CEntry)>
    decreases decls.len(),
{
    if decls.len() == 0 {
        m
    } else {
        apply_decls(apply_decl(m, decls[0].name, decls[0].value, s), decls.drop_first(), s)
    }
}

/// Fold the rules of a stylesheet, in order, over a cascade state.
pub open spec fn cascade_go(
    e: ElemV,
    rules: Seq<RuleV>,
    m: Seq<(Seq<char>, CEntry)>,
) -> Seq<(Seq<char>, CEntry)>
    decreases rules.len(),
{
    if rules.len() == 0 {
        m
    } else {
        let m1 = match first_match(e, rules[0].selectors) {
            Option::Some(s) => apply_decls(m, rules[0].declarations, s),
            Option::None => m,
        };
        cascade_go(e, rules.drop_first(), m1)
    }
}

/// Drop the specificities, keeping the resolved values.
pub open spec fn strip_spec(m: Seq<(Seq<char>, CEntry)>) -> Seq<(Seq<char>, ValueV)> {
    m.map(|i: int, p: (Seq<char>, CEntry)| (p.0, p.1.val))
}

/// The resolved property map of an element under a stylesheet.
pub open spec fn spec_specified_values(e: ElemV, rules: Seq<RuleV>) -> Seq<(Seq<char>, ValueV)> {
    strip_spec(cascade_go(e, rules, Seq::empty()))
}

/// Whether a selector matches an element.
pub fn matches(elem: &ElementData, selector: &Selector) -> (r: bool)
    ensures
        r == sel_matches(elem@, selector@),
{
    match selector {
        Selector::Simple(simple) => matches_simple_selector(elem, simple),
    }
}

/// Whether a simple selector matches an element.
pub fn matches_simple_selector(elem: &ElementData, selector: &SimpleSelector) -> (r: bool)
    ensures
        r == sel_matches(elem@, selector@),
{
    match &selector.tag_name {
        Option::Some(name) => {
            if !str_eq(name.as_str(), elem.tag_name.as_str()) {
                return false;
            }
        },
        Option::None => {},
    }
    match &selector.id {
        Option::Some(id) => {
            match elem.id() {
                Option::Some(v) => {
                    if !str_eq(v.as_str(), id.as_str()) {
                        return false;
                    }
                },
                Option::None => {
                    return false;
                },
            }
        },
        Option::None => {},
    }
    let elem_classes = elem.classes();
    let ncls = selector.class.len();
    let mut i: usize = 0;
    while i < ncls
        invariant
            ncls == selector.class.len(),
            i <= ncls,
            elem_classes@.map(|j: int, t: String| t@) == spec_classes(elem@),
            forall|k: int|
                0 <= k < i ==> spec_classes(elem@).contains(#[trigger] selector@.class[k]),
            sel_matches_head(elem@, selector@),
        decreases ncls - i,
    {
        let want = &selector.class[i];
        let ntoks = elem_classes.len();
        let mut j: usize = 0;
        let mut found = false;
        while j < ntoks && !found
            invariant
                ntoks == elem_classes.len(),
                j <= ntoks,
                !found ==> forall|t: int|
                    0 <= t < j ==> #[trigger] spec_classes(elem@)[t] != want@,
                found ==> spec_classes(elem@).contains(want@),
                elem_classes@.map(|q: int, t2: String| t2@) == spec_classes(elem@),
            decreases ntoks - j,
        {
            if str_eq(elem_classes[j].as_str(), want.as_str()) {
                found = true;
                proof {
                    assert(spec_classes(elem@)[j as int] == want@);
                }
            }
            j = j + 1;
        }
        if !found {
            proof {
                assert(spec_classes(elem@).len() == ntoks as int);
                assert(forall|t: int|
                    0 <= t < ntoks ==> #[trigger] spec_classes(elem@)[t] != want@);
                assert(!spec_classes(elem@).contains(want@));
                assert(selector@.class[i as int] == want@);
            }
            return false;
        }
        proof {
            assert(selector@.class[i as int] == want@);
        }
        i = i + 1;
    }
    proof {
        assert(selector@.class.len() == ncls as int);
    }
    true
}

/// The conjuncts of `sel_matches` that do not concern classes.
pub open spec fn sel_matches_head(e: ElemV, s: SelectorV) -> bool {
    &&& match s.tag_name {
        Option::Some(t) => t == e.tag_name,
        Option::None => true,
    }
    &&& match s.id {
        Option::Some(id) => assoc_get(e.attributes, "id"@) == Option::Some(id),
        Option::None => true,
    }
}

/// Specificity of the first selector of the rule that matches, if any.
pub fn match_rule(elem: &ElementData, rule: &Rule) -> (r: Option<Specificity>)
    ensures
        match r {
            Option::Some(s) => first_match(elem@, rule@.selectors) == Option::Some(
                (s.0 as int, s.1 as int, s.2 as int),
            ),
            Option::None => first_match(elem@, rule@.selectors) == Option::None::<(int, int, int)>,
        },
{
    let n = rule.selectors.len();
    let mut i: usize = 0;
    proof {
        assert(rule@.selectors.skip(0) =~= rule@.selectors);
    }
    while i < n
        invariant
            n == rule.selectors.len(),
            i <= n,
            first_match(elem@, rule@.selectors) == first_match(
                elem@,
                rule@.selectors.skip(i as int),
            ),
        decreases n - i,
    {
        proof {
            assert(rule@.selectors.skip(i as int)[0] == rule@.selectors[i as int]);
            assert(rule@.selectors.skip(i as int).drop_first() =~= rule@.selectors.skip(i + 1));
        }
        if matches(elem, &rule.selectors[i]) {
            let s = rule.selectors[i].specificity();
            return Option::Some(s);
        }
        i = i + 1;
    }
    proof {
        assert(rule@.selectors.skip(n as int) =~= Seq::<SelectorV>::empty());
    }
    Option::None
}

/// Working state of the cascade: each property with the value that currently
/// holds it and the specificity that wrote it.
pub struct CascadeMap {
    pub entries: Vec<(String, (Value, Specificity))>,
}

/// View of one cascade entry.
pub open spec fn centry_view(p: (String, (Value, Specificity))) -> (Seq<char>, CEntry) {
    let (name, rest) = p;
    let (value, sp) = rest;
    let (a, b, c) = sp;
    (name@, CEntry { val: value@, spc: (a as int, b as int, c as int) })
}

impl View for CascadeMap {
    type V = Seq<(Seq<char>, CEntry)>;

    open spec fn view(&self) -> Seq<(Seq<char>, CEntry)> {
        self.entries@.map(|i: int, p: (String, (Value, Specificity))| centry_view(p))
    }
}

impl CascadeMap {
    fn new() -> (m: CascadeMap)
        ensures
            m@ =~= Seq::<(Seq<char>, CEntry)>::empty(),
    {
        CascadeMap { entries: Vec::new() }
    }

    /// Apply one declaration: overwrite only at equal or higher specificity.
    fn apply(&mut self, name: &String, value: &Value, s: Specificity)
        ensures
            final(self)@ =~= apply_decl(
                old(self)@,
                name@,
                value@,
                (s.0 as int, s.1 as int, s.2 as int),
            ),
    {
        let ghost sv = (s.0 as int, s.1 as int, s.2 as int);
        let n = self.entries.len();
        let mut i: usize = 0;
        while i < n
            invariant
                n == self.entries.len(),
                i <= n,
                self == old(self),
                forall|j: int| 0 <= j < i ==> self@[j].0 != name@,
            decreases n - i,
        {
            if str_eq(self.entries[i].0.as_str(), name.as_str()) {
                let ghost newe = CEntry { val: value@, spc: sv };
                proof {
                    lemma_assoc_get_found(self@, name@, i as int);
                    lemma_assoc_put_found(self@, name@, newe, i as int);
                }
                let stored = self.entries[i].1.1;
                if crate::css::specificity_ge(s, stored) {
                    self.entries.set(i, (name.clone(), (value.clone(), s)));
                    proof {
                        assert(self@ =~~= old(self)@.update(i as int, (name@, newe)));
                        assert(self@ =~= assoc_put(old(self)@, name@, newe));
                    }
                }
                return ;
            }
            i = i + 1;
        }
        proof {
            lemma_assoc_get_none(self@, name@);
            lemma_assoc_put_none(self@, name@, CEntry { val: value@, spc: sv });
        }
        self.entries.push((name.clone(), (value.clone(), s)));
        proof {
            assert(self@ =~~= old(self)@.push((name@, CEntry { val: value@, spc: sv })));
            assert(self@ =~= assoc_put(old(self)@, name@, CEntry { val: value@, spc: sv }));
        }
    }
}

/// The resolved property map of one element under a stylesheet.
pub fn specified_values(elem: &ElementData, stylesheet: &Stylesheet) -> (pm: PropertyMap)
    ensures
        pm@ =~= spec_specified_values(elem@, stylesheet@),
{
    let mut cm = CascadeMap::new();
    let nrules = stylesheet.rules.len();
    let mut ri: usize = 0;
    proof {
        assert(stylesheet@.skip(0) =~= stylesheet@);
        assert(cm@ =~= Seq::<(Seq<char>, CEntry)>::empty());
    }
    while ri < nrules
        invariant
            nrules == stylesheet.rules.len(),
            ri <= nrules,
            cascade_go(elem@, stylesheet@.skip(ri as int), cm@) == cascade_go(
                elem@,
                stylesheet@,
                Seq::empty(),
            ),
        decreases nrules - ri,
    {
        proof {
            assert(stylesheet@.skip(ri as int)[0] == stylesheet@[ri as int]);
            assert(stylesheet@.skip(ri as int).drop_first() =~= stylesheet@.skip(ri + 1));
        }
        let rule = &stylesheet.rules[ri];
        match match_rule(elem, rule) {
            Option::Some(s) => {
                let ghost sv = (s.0 as int, s.1 as int, s.2 as int);
                let ghost decls = rule@.declarations;
                let ghost cm0 = cm@;
                let ndecl = rule.declarations.len();
                let mut di: usize = 0;
                proof {
                    assert(decls.skip(0) =~= decls);
                }
                while di < ndecl
                    invariant
                        ndecl == rule.declarations.len(),
                        decls == rule@.declarations,
                        di <= ndecl,
                        apply_decls(cm@, decls.skip(di as int), sv) == apply_decls(
                            cm0,
                            decls,
                            sv,
                        ),
                    decreases ndecl - di,
                {
                    proof {
                        assert(decls.skip(di as int)[0] == decls[di as int]);
                        assert(decls.skip(di as int).drop_first() =~= decls.skip(di + 1));
                    }
                    let ghost cmprev = cm@;
                    let d = &rule.declarations[di];
                    cm.apply(&d.name, &d.value, s);
                    proof {
                        assert(d@ == decls[di as int]);
                        assert(cm@ == apply_decl(
                            cmprev,
                            decls[di as int].name,
                            decls[di as int].value,
                            sv,
                        ));
                        assert(apply_decls(cmprev, decls.skip(di as int), sv) == apply_decls(
                            cm@,
                            decls.skip(di + 1),
                            sv,
                        ));
                    }
                    di = di + 1;
                }
                proof {
                    assert(decls.skip(ndecl as int) =~= Seq::<DeclarationV>::empty());
                    assert(cm@ == apply_decls(cm0, decls, sv));
                }
            },
            Option::None => {},
        }
        ri = ri + 1;
    }
    proof {
        assert(stylesheet@.skip(nrules as int) =~= Seq::<RuleV>::empty());
    }
    let mut pm = PropertyMap::new();
    let ncm = cm.entries.len();
    let mut k: usize = 0;
    while k < ncm
        invariant
            ncm == cm.entries.len(),
            k <= ncm,
            pm@ =~= strip_spec(cm@).take(k as int),
        decreases ncm - k,
    {
        let ghost pmprev = pm@;
        let name = cm.entries[k].0.clone();
        let value = cm.entries[k].1.0.clone();
        pm.entries.push((name, value));
        proof {
            assert(pm@ =~= pmprev.push((name@, value@)));
            assert(strip_spec(cm@)[k as int] == (name@, value@));
            assert(strip_spec(cm@).take(k + 1) =~= strip_spec(cm@).take(k as int).push(
                strip_spec(cm@)[k as int],
            ));
        }
        k = k + 1;
    }
    proof {
        assert(strip_spec(cm@).take(ncm as int) =~= strip_spec(cm@));
    }
    pm
}

/// The `display` property value of a box.
#[derive(Debug, Clone, Copy, PartialEq, Eq, Structural)]
pub enum Display {
    Inline,
    Block,
    NoDisplay,
}

/// A styled node: resolved properties plus styled children, mirroring the
/// document tree's children one to one.
#[derive(Debug)]
pub struct StyledNode {
    pub specified_values: PropertyMap,
    pub children: Vec<StyledNode>,
}

/// Mathematical image of a styled node.
pub ghost struct StyledV {
    pub props: Seq<(Seq<char>, ValueV)>,
    pub children: Seq<StyledV>,
}

/// Views of a sequence of styled nodes.
pub open spec fn view_styled(s: Seq<StyledNode>) -> Seq<StyledV>
    decreases s,
{
    if s.len() == 0 {
        Seq::empty()
    } else {
        seq![s[0]@] + view_styled(s.drop_first())
    }
}

impl View for StyledNode {
    type V = StyledV;

    open spec fn view(&self) -> StyledV
        decreases self,
    {
        StyledV { props: self.specified_values@, children: view_styled(self.children@) }
    }
}

/// `view_styled` is the element-wise view.
pub proof fn lemma_view_styled(s: Seq<StyledNode>)
    ensures
        view_styled(s).len() == s.len(),
        forall|i: int| 0 <= i < s.len() ==> view_styled(s)[i] == #[trigger] s[i]@,
    decreases s,
{
    if s.len() > 0 {
        lemma_view_styled(s.drop_first());
        assert(view_styled(s) == seq![s[0]@] + view_styled(s.drop_first()));
        assert forall|i: int| 0 <= i < s.len() implies view_styled(s)[i] == #[trigger] s[i]@ by {
            if i > 0 {
                assert(s.drop_first()[i - 1] == s[i]);
                assert((seq![s[0]@] + view_styled(s.drop_first()))[i] == view_styled(
                    s.drop_first(),
                )[i - 1]);
            }
        }
    }
}

/// The styled tree of one document node: its resolved properties (empty for
/// a text leaf) and the styled trees of its children, in order.
pub open spec fn spec_style_tree(n: NodeV, rules: Seq<RuleV>) -> StyledV
    decreases n,
{
    StyledV {
        props: match n.node_type {
            NodeTypeV::Element(e) => spec_specified_values(e, rules),
            NodeTypeV::Text(_) => Seq::empty(),
        },
        children: spec_style_children(n.children, rules),
    }
}

/// The styled trees of a sequence of document nodes.
pub open spec fn spec_style_children(s: Seq<NodeV>, rules: Seq<RuleV>) -> Seq<StyledV>
    decreases s,
{
    if s.len() == 0 {
        Seq::empty()
    } else {
        seq![spec_style_tree(s[0], rules)] + spec_style_children(s.drop_first(), rules)
    }
}

/// Resolve the styles of a whole document tree under a stylesheet.
pub fn style_tree(root: &Node, stylesheet: &Stylesheet) -> (r: StyledNode)
    ensures
        r@ == spec_style_tree(root@, stylesheet@),
    decreases *root,
{
    let specified = match &root.node_type {
        NodeType::Element(e) => specified_values(e, stylesheet),
        NodeType::Text(_) => PropertyMap::new(),
    };
    let ghost kids = root@.children;
    proof {
        crate::dom::lemma_view_nodes(root.children@);
        assert(kids.skip(0) =~= kids);
    }
    let n = root.children.len();
    let mut children: Vec<StyledNode> = Vec::new();
    let mut i: usize = 0;
    while i < n
        invariant
            n == root.children.len(),
            i <= n,
            view_styled(children@) + spec_style_children(kids.skip(i as int), stylesheet@)
                =~= spec_style_children(kids, stylesheet@),
        decreases n - i,
    {
        let ghost prev = children@;
        let c = style_tree(&root.children[i], stylesheet);
        children.push(c);
        proof {
            lemma_view_styled(prev);
            lemma_view_styled(children@);
            assert(children@ =~= prev.push(c));
            assert forall|t: int|
                0 <= t < children@.len() implies view_styled(children@)[t] == view_styled(
                prev,
            ).push(c@)[t] by {
                if t < prev.len() {
                    assert(children@[t] == prev[t]);
                    assert(children@[t]@ == prev[t]@);
                } else {
                    assert(children@[t] == c);
                    assert(children@[t]@ == c@);
                }
            }
            assert(view_styled(children@) =~= view_styled(prev).push(c@));
            assert(kids.skip(i as int)[0] == kids[i as int]);
            assert(kids.skip(i as int).drop_first() =~= kids.skip(i + 1));
            assert(kids[i as int] == root.children@[i as int]@);
            assert(spec_style_children(kids.skip(i as int), stylesheet@) == seq![
                spec_style_tree(kids[i as int], stylesheet@),
            ] + spec_style_children(kids.skip(i + 1), stylesheet@));
        }
        i = i + 1;
    }
    proof {
        assert(kids.skip(n as int) =~= Seq::<NodeV>::empty());
    }
    StyledNode { specified_values: specified, children }
}

/// Fallback search: the named property, then the fallback property, then
/// the given default.
pub open spec fn spec_lookup(
    props: Seq<(Seq<char>, ValueV)>,
    name: Seq<char>,
    fallback: Seq<char>,
    default: ValueV,
) -> ValueV {
    match assoc_get(props, name) {
        Option::Some(v) => v,
        Option::None => match assoc_get(props, fallback) {
            Option::Some(v) => v,
            Option::None => default,
        },
    }
}

/// The `display` kind of a node: the `display` keyword if recognized,
/// `inline` for anything else.
pub open spec fn spec_display(props: Seq<(Seq<char>, ValueV)>) -> Display {
    match assoc_get(props, "display"@) {
        Option::Some(v) => match v {
            ValueV::Keyword(k) => if k == "block"@ {
                Display::Block
            } else if k == "none"@ {
                Display::NoDisplay
            } else {
                Display::Inline
            },
            _ => Display::Inline,
        },
        _ => Display::Inline,
    }
}

impl StyledNode {
    /// The resolved value of a property, if any.
    pub fn value(&self, name: &str) -> (r: Option<Value>)
        ensures
            match r {
                Option::Some(v) => assoc_get(self@.props, name@) == Option::Some(v@),
                Option::None => assoc_get(self@.props, name@) == Option::None::<ValueV>,
            },
    {
        match self.specified_values.get(name) {
            Option::Some(v) => Option::Some(v.clone()),
            Option::None => Option::None,
        }
    }

    /// The node's display kind.
    pub fn display(&self) -> (d: Display)
        ensures
            d == spec_display(self@.props),
    {
        match self.value("display") {
            Option::Some(Value::Keyword(s)) => {
                if str_eq(s.as_str(), "block") {
                    Display::Block
                } else if str_eq(s.as_str(), "none") {
                    Display::NoDisplay
                } else {
                    Display::Inline
                }
            },
            _ => Display::Inline,
        }
    }

    /// The named property, else the fallback property, else the default.
    pub fn lookup(&self, name: &str, fallback_name: &str, default: &Value) -> (r: Value)
        ensures
            r@ == spec_lookup(self@.props, name@, fallback_name@, default@),
    {
        match self.value(name) {
            Option::Some(v) => v,
            Option::None => match self.value(fallback_name) {
                Option::Some(v) => v,
                Option::None => default.clone(),
            },
        }
    }
}

/// Style resolution is a pure function of document and stylesheet: resolving
/// twice yields the same styled tree, property maps included.
pub proof fn lemma_style_resolution_deterministic(
    n: NodeV,
    rules: Seq<RuleV>,
    a: StyledV,
    b: StyledV,
)
    requires
        a == spec_style_tree(n, rules),
        b == spec_style_tree(n, rules),
    ensures
        a == b,
{
}

/// Value the rule's declarations give a property: its last declaration wins.
pub open spec fn last_decl_value(decls: Seq<DeclarationV>, name: Seq<char>) -> Option<ValueV>
    decreases decls.len(),
{
    if decls.len() == 0 {
        Option::None
    } else {
        match last_decl_value(decls.drop_first(), name) {
            Option::Some(v) => Option::Some(v),
            Option::None => if decls[0].name == name {
                Option::Some(decls[0].value)
            } else {
                Option::None
            },
        }
    }
}

/// Effect of one rule's declarations on one property of the cascade state:
/// the rule's last declaration of the property wins, unless a strictly more
/// specific earlier write blocks the whole rule.
pub proof fn lemma_apply_decls_get(
    m: Seq<(Seq<char>, CEntry)>,
    decls: Seq<DeclarationV>,
    s: (int, int, int),
    k: Seq<char>,
)
    ensures
        assoc_get(apply_decls(m, decls, s), k) == (match last_decl_value(decls, k) {
            Option::Some(v) => match assoc_get(m, k) {
                Option::Some(e) => if spec_ge(s, e.spc) {
                    Option::Some(CEntry { val: v, spc: s })
                } else {
                    Option::Some(e)
                },
                Option::None => Option::Some(CEntry { val: v, spc: s }),
            },
            Option::None => assoc_get(m, k),
        }),
    decreases decls.len(),
{
    if decls.len() > 0 {
        let m1 = apply_decl(m, decls[0].name, decls[0].value, s);
        lemma_apply_decls_get(m1, decls.drop_first(), s, k);
        if decls[0].name == k {
            match assoc_get(m, k) {
                Option::Some(e) => {
                    if spec_ge(s, e.spc) {
                        lemma_assoc_get_put_same(m, k, CEntry { val: decls[0].value, spc: s });
                    }
                },
                Option::None => {
                    lemma_assoc_get_put_same(m, k, CEntry { val: decls[0].value, spc: s });
                },
            }
        } else {
            match assoc_get(m, decls[0].name) {
                Option::Some(e) => {
                    if spec_ge(s, e.spc) {
                        lemma_assoc_get_put_other(
                            m,
                            decls[0].name,
                            CEntry { val: decls[0].value, spc: s },
                            k,
                        );
                    }
                },
                Option::None => {
                    lemma_assoc_get_put_other(
                        m,
                        decls[0].name,
                        CEntry { val: decls[0].value, spc: s },
                        k,
                    );
                },
            }
        }
    }
}

/// Lookup in the stripped map sees the stored value.
pub proof fn lemma_strip_get(m: Seq<(Seq<char>, CEntry)>, k: Seq<char>)
    ensures
        assoc_get(strip_spec(m), k) == (match assoc_get(m, k) {
            Option::Some(e) => Option::Some(e.val),
            Option::None => Option::None::<ValueV>,
        }),
    decreases m.len(),
{
    if m.len() > 0 {
        lemma_strip_get(m.drop_first(), k);
        assert(strip_spec(m).drop_first() =~= strip_spec(m.drop_first()));
        assert(strip_spec(m)[0] == (m[0].0, m[0].1.val));
    }
}

/// One declaration keeps the keys unique.
proof fn lemma_apply_decl_unique(
    m: Seq<(Seq<char>, CEntry)>,
    name: Seq<char>,
    v: ValueV,
    s: (int, int, int),
)
    requires
        assoc_unique(m),
    ensures
        assoc_unique(apply_decl(m, name, v, s)),
{
    lemma_assoc_put_unique(m, name, CEntry { val: v, spc: s });
}

/// A rule's declarations keep the keys unique.
proof fn lemma_apply_decls_unique(
    m: Seq<(Seq<char>, CEntry)>,
    decls: Seq<DeclarationV>,
    s: (int, int, int),
)
    requires
        assoc_unique(m),
    ensures
        assoc_unique(apply_decls(m, decls, s)),
    decreases decls.len(),
{
    if decls.len() > 0 {
        lemma_apply_decl_unique(m, decls[0].name, decls[0].value, s);
        lemma_apply_decls_unique(
            apply_decl(m, decls[0].name, decls[0].value, s),
            decls.drop_first(),
            s,
        );
    }
}

/// The whole cascade keeps the keys unique.
proof fn lemma_cascade_go_unique(e: ElemV, rules: Seq<RuleV>, m: Seq<(Seq<char>, CEntry)>)
    requires
        assoc_unique(m),
    ensures
        assoc_unique(cascade_go(e, rules, m)),
    decreases rules.len(),
{
    if rules.len() > 0 {
        match first_match(e, rules[0].selectors) {
            Option::Some(s) => {
                lemma_apply_decls_unique(m, rules[0].declarations, s);
                lemma_cascade_go_unique(
                    e,
                    rules.drop_first(),
                    apply_decls(m, rules[0].declarations, s),
                );
            },
            Option::None => {
                lemma_cascade_go_unique(e, rules.drop_first(), m);
            },
        }
    }
}

/// A resolved property map never holds a property twice: its keys are
/// unique, and the last write at the winning specificity holds the value.
pub proof fn lemma_specified_values_unique(e: ElemV, rules: Seq<RuleV>)
    ensures
        assoc_unique(spec_specified_values(e, rules)),
{
    lemma_cascade_go_unique(e, rules, Seq::empty());
    let m = cascade_go(e, rules, Seq::empty());
    assert(forall|i: int| 0 <= i < m.len() ==> #[trigger] strip_spec(m)[i].0 == m[i].0);
}

/// Specificity ordering: when two rules both match an element and both
/// declare a property, the rule whose first matching selector is strictly
/// more specific decides the property — whichever of the two stands first
/// in the stylesheet.
pub proof fn lemma_specificity_order(
    e: ElemV,
    hi: RuleV,
    lo: RuleV,
    shi: (int, int, int),
    slo: (int, int, int),
    prop: Seq<char>,
    v: ValueV,
)
    requires
        first_match(e, hi.selectors) == Option::Some(shi),
        first_match(e, lo.selectors) == Option::Some(slo),
        crate::css::spec_gt(shi, slo),
        last_decl_value(hi.declarations, prop) == Option::Some(v),
    ensures
        assoc_get(spec_specified_values(e, seq![hi, lo]), prop) == Option::Some(v),
        assoc_get(spec_specified_values(e, seq![lo, hi]), prop) == Option::Some(v),
{
    let empty = Seq::<(Seq<char>, CEntry)>::empty();
    assert(spec_ge(shi, slo));
    assert(!spec_ge(slo, shi));
    // Order hi, lo.
    let m1 = apply_decls(empty, hi.declarations, shi);
    let m2 = apply_decls(m1, lo.declarations, slo);
    assert(seq![hi, lo].drop_first() =~= seq![lo]);
    assert(seq![lo].drop_first() =~= Seq::<RuleV>::empty());
    assert(cascade_go(e, seq![hi, lo], empty) == cascade_go(e, seq![lo], m1));
    assert(cascade_go(e, Seq::<RuleV>::empty(), m2) == m2);
    assert(cascade_go(e, seq![lo], m1) == m2);
    lemma_apply_decls_get(empty, hi.declarations, shi, prop);
    assert(assoc_get(m1, prop) == Option::Some(CEntry { val: v, spc: shi }));
    lemma_apply_decls_get(m1, lo.declarations, slo, prop);
    assert(assoc_get(m2, prop) == Option::Some(CEntry { val: v, spc: shi }));
    lemma_strip_get(m2, prop);
    // Order lo, hi.
    let w1 = apply_decls(empty, lo.declarations, slo);
    let w2 = apply_decls(w1, hi.declarations, shi);
    assert(seq![lo, hi].drop_first() =~= seq![hi]);
    assert(seq![hi].drop_first() =~= Seq::<RuleV>::empty());
    assert(cascade_go(e, seq![lo, hi], empty) == cascade_go(e, seq![hi], w1));
    assert(cascade_go(e, Seq::<RuleV>::empty(), w2) == w2);
    assert(cascade_go(e, seq![hi], w1) == w2);
    lemma_apply_decls_get(empty, lo.declarations, slo, prop);
    lemma_apply_decls_get(w1, hi.declarations, shi, prop);
    assert(assoc_get(w2, prop) == Option::Some(CEntry { val: v, spc: shi }));
    lemma_strip_get(w2, prop);
}

} // verus!
