//! Box layout: build a box tree from a styled tree and solve the block
//! model.  All geometry is whole pixels (`i64`) under the saturating
//! arithmetic of `px`.
use vstd::prelude::*;

use crate::css::{spec_to_px, Unit, Value, ValueV};
use crate::px::{px_add, px_half, px_sub, spec_px_add, spec_px_half, spec_px_sub};
use crate::style::{spec_display, spec_lookup, Display, PropertyMap, StyledNode, StyledV};
use crate::assoc::assoc_get;
use crate::strutil::str_eq;

verus! {

/// An axis-aligned rectangle: origin and size in pixels.
#[derive(Debug, Clone, Copy, PartialEq, Eq, Structural)]
pub struct Rect {
    pub x: i64,
    pub y: i64,
    pub width: i64,
    pub height: i64,
}

/// Four edge offsets, one per side.
#[derive(Debug, Clone, Copy, PartialEq, Eq, Structural)]
pub struct EdgeSizes {
    pub left: i64,
    pub right: i64,
    pub top: i64,
    pub bottom: i64,
}

/// A box's geometry: content rectangle plus padding, border and margin.
#[derive(Debug, Clone, Copy, PartialEq, Eq, Structural)]
pub struct Dimensions {
    pub content: Rect,
    pub padding: EdgeSizes,
    pub border: EdgeSizes,
    pub margin: EdgeSizes,
}

/// Mathematical image of a `Rect`.
pub ghost struct RectV {
    pub x: int,
    pub y: int,
    pub width: int,
    pub height: int,
}

/// Mathematical image of an `EdgeSizes`.
pub ghost struct EdgeV {
    pub left: int,
    pub right: int,
    pub top: int,
    pub bottom: int,
}

/// Mathematical image of a `Dimensions`.
pub ghost struct DimsV {
    pub content: RectV,
    pub padding: EdgeV,
    pub border: EdgeV,
    pub margin: EdgeV,
}

impl View for Rect {
    type V = RectV;

    open spec fn view(&self) -> RectV {
        RectV { x: self.x as int, y: self.y as int, width: self.width as int, height: self.height as int }
    }
}

impl View for EdgeSizes {
    type V = EdgeV;

    open spec fn view(&self) -> EdgeV {
        EdgeV {
            left: self.left as int,
            right: self.right as int,
            top: self.top as int,
            bottom: self.bottom as int,
        }
    }
}

impl View for Dimensions {
    type V = DimsV;

    open spec fn view(&self) -> DimsV {
        DimsV {
            content: self.content@,
            padding: self.padding@,
            border: self.border@,
            margin: self.margin@,
        }
    }
}

/// The all-zero rectangle.
pub open spec fn rect_zero() -> RectV {
    RectV { x: 0, y: 0, width: 0, height: 0 }
}

/// The all-zero edges.
pub open spec fn edge_zero() -> EdgeV {
    EdgeV { left: 0, right: 0, top: 0, bottom: 0 }
}

/// The all-zero dimensions.
pub open spec fn dims_zero() -> DimsV {
    DimsV { content: rect_zero(), padding: edge_zero(), border: edge_zero(), margin: edge_zero() }
}

impl Default for Rect {
    fn default() -> (r: Rect)
        ensures
            r@ == rect_zero(),
    {
        Rect { x: 0, y: 0, width: 0, height: 0 }
    }
}

impl Default for EdgeSizes {
    fn default() -> (r: EdgeSizes)
        ensures
            r@ == edge_zero(),
    {
        EdgeSizes { left: 0, right: 0, top: 0, bottom: 0 }
    }
}

impl Default for Dimensions {
    fn default() -> (r: Dimensions)
        ensures
            r@ == dims_zero(),
    {
        Dimensions {
            content: Rect::default(),
            padding: EdgeSizes::default(),
            border: EdgeSizes::default(),
            margin: EdgeSizes::default(),
        }
    }
}

/// Grow a rectangle outward by an edge on all four sides.
pub open spec fn rect_expanded(r: RectV, e: EdgeV) -> RectV {
    RectV {
        x: spec_px_sub(r.x, e.left),
        y: spec_px_sub(r.y, e.top),
        width: spec_px_add(spec_px_add(r.width, e.left), e.right),
        height: spec_px_add(spec_px_add(r.height, e.top), e.bottom),
    }
}

/// The content rectangle grown by the padding.
pub open spec fn spec_padding_box(d: DimsV) -> RectV {
    rect_expanded(d.content, d.padding)
}

/// The padding box grown by the border.
pub open spec fn spec_border_box(d: DimsV) -> RectV {
    rect_expanded(spec_padding_box(d), d.border)
}

/// The border box grown by the margin.
pub open spec fn spec_margin_box(d: DimsV) -> RectV {
    rect_expanded(spec_border_box(d), d.margin)
}

impl Rect {
    /// Grow this rectangle outward by the given edge sizes.
    pub fn expanded_by(self, edge: EdgeSizes) -> (r: Rect)
        ensures
            r@ == rect_expanded(self@, edge@),
    {
        Rect {
            x: px_sub(self.x, edge.left),
            y: px_sub(self.y, edge.top),
            width: px_add(px_add(self.width, edge.left), edge.right),
            height: px_add(px_add(self.height, edge.top), edge.bottom),
        }
    }
}

impl Dimensions {
    /// The area covered by the content plus its padding.
    pub fn padding_box(self) -> (r: Rect)
        ensures
            r@ == spec_padding_box(self@),
    {
        self.content.expanded_by(self.padding)
    }

    /// The area covered by the content, padding and border.
    pub fn border_box(self) -> (r: Rect)
        ensures
            r@ == spec_border_box(self@),
    {
        self.padding_box().expanded_by(self.border)
    }

    /// The area covered by the content, padding, border and margin.
    pub fn margin_box(self) -> (r: Rect)
        ensures
            r@ == spec_margin_box(self@),
    {
        self.border_box().expanded_by(self.margin)
    }
}

/// Box composition: for any dimensions, the padding box is the content
/// expanded by the padding, the border box is the padding box expanded by
/// the border, and the margin box is the border box expanded by the margin.
pub proof fn lemma_box_composition(d: DimsV)
    ensures
        spec_padding_box(d) == rect_expanded(d.content, d.padding),
        spec_border_box(d) == rect_expanded(spec_padding_box(d), d.border),
        spec_margin_box(d) == rect_expanded(spec_border_box(d), d.margin),
{
}

/// The kind of a layout box.  Block and inline boxes carry the resolved
/// properties of the styled node they came from; anonymous boxes carry
/// nothing and only group consecutive inline children of a block box.
#[derive(Debug)]
pub enum BoxType {
    BlockNode(PropertyMap),
    InlineNode(PropertyMap),
    AnonymousBlock,
}

/// A layout box: geometry, kind, and child boxes.
#[derive(Debug)]
pub struct LayoutBox {
    pub dimensions: Dimensions,
    pub box_type: BoxType,
    pub children: Vec<LayoutBox>,
}

/// Mathematical image of a box kind.
pub ghost enum BoxTypeV {
    BlockNode(Seq<(Seq<char>, ValueV)>),
    InlineNode(Seq<(Seq<char>, ValueV)>),
    AnonymousBlock,
}

/// Mathematical image of a layout box.
pub ghost struct BoxV {
    pub dimensions: DimsV,
    pub box_type: BoxTypeV,
    pub children: Seq<BoxV>,
}

/// Views of a sequence of layout boxes.
pub open spec fn view_boxes(s: Seq<LayoutBox>) -> Seq<BoxV>
    decreases s,
{
    if s.len() == 0 {
        Seq::empty()
    } else {
        seq![s[0]@] + view_boxes(s.drop_first())
    }
}

impl View for LayoutBox {
    type V = BoxV;

    open spec fn view(&self) -> BoxV
        decreases self,
    {
        BoxV {
            dimensions: self.dimensions@,
            box_type: match self.box_type {
                BoxType::BlockNode(p) => BoxTypeV::BlockNode(p@),
                BoxType::InlineNode(p) => BoxTypeV::InlineNode(p@),
                BoxType::AnonymousBlock => BoxTypeV::AnonymousBlock,
            },
            children: view_boxes(self.children@),
        }
    }
}

/// `view_boxes` is the element-wise view.
pub proof fn lemma_view_boxes(s: Seq<LayoutBox>)
    ensures
        view_boxes(s).len() == s.len(),
        forall|i: int| 0 <= i < s.len() ==> view_boxes(s)[i] == #[trigger] s[i]@,
    decreases s,
{
    if s.len() > 0 {
        lemma_view_boxes(s.drop_first());
        assert(view_boxes(s) == seq![s[0]@] + view_boxes(s.drop_first()));
        assert forall|i: int| 0 <= i < s.len() implies view_boxes(s)[i] == #[trigger] s[i]@ by {
            if i > 0 {
                assert(s.drop_first()[i - 1] == s[i]);
                assert((seq![s[0]@] + view_boxes(s.drop_first()))[i] == view_boxes(
                    s.drop_first(),
                )[i - 1]);
            }
        }
    }
}

/// Pushing onto a box vector appends the box's view to the views.
pub proof fn lemma_view_boxes_push(s: Seq<LayoutBox>, x: LayoutBox)
    ensures
        view_boxes(s.push(x)) =~= view_boxes(s).push(x@),
{
    lemma_view_boxes(s);
    lemma_view_boxes(s.push(x));
    assert forall|t: int|
        0 <= t < s.push(x).len() implies view_boxes(s.push(x))[t] == view_boxes(s).push(x@)[t] by {
        if t < s.len() {
            assert(s.push(x)[t] == s[t]);
            assert(s.push(x)[t]@ == s[t]@);
        } else {
            assert(s.push(x)[t] == x);
            assert(s.push(x)[t]@ == x@);
        }
    }
}

impl LayoutBox {
    /// A fresh box of the given kind with all-zero dimensions.
    fn new(box_type: BoxType) -> (r: LayoutBox)
        ensures
            r@.dimensions == dims_zero(),
            r@.box_type == (match box_type {
                BoxType::BlockNode(p) => BoxTypeV::BlockNode(p@),
                BoxType::InlineNode(p) => BoxTypeV::InlineNode(p@),
                BoxType::AnonymousBlock => BoxTypeV::AnonymousBlock,
            }),
            r@.children =~= Seq::<BoxV>::empty(),
    {
        LayoutBox { box_type, dimensions: Dimensions::default(), children: Vec::new() }
    }

    /// The resolved properties behind this box; anonymous boxes have none.
    pub fn get_style_node(&self) -> (r: Option<&PropertyMap>)
        ensures
            match r {
                Option::Some(p) => self@.box_type == BoxTypeV::BlockNode(p@) || self@.box_type
                    == BoxTypeV::InlineNode(p@),
                Option::None => self@.box_type == BoxTypeV::AnonymousBlock,
            },
    {
        match &self.box_type {
            BoxType::BlockNode(p) => Option::Some(p),
            BoxType::InlineNode(p) => Option::Some(p),
            BoxType::AnonymousBlock => Option::None,
        }
    }
}

/// Append an inline box under a block parent: reuse a trailing anonymous
/// box, or open a new one.
pub open spec fn add_inline(acc: Seq<BoxV>, b: BoxV) -> Seq<BoxV> {
    if acc.len() > 0 && acc.last().box_type == BoxTypeV::AnonymousBlock {
        acc.update(
            acc.len() - 1,
            BoxV {
                dimensions: acc.last().dimensions,
                box_type: BoxTypeV::AnonymousBlock,
                children: acc.last().children.push(b),
            },
        )
    } else {
        acc.push(
            BoxV { dimensions: dims_zero(), box_type: BoxTypeV::AnonymousBlock, children: seq![b] },
        )
    }
}

/// The child boxes a sequence of styled children produces, folded left to
/// right onto `acc`.  `block_parent` says whether the parent box is a block
/// box (whose inline children go into anonymous wrappers).
pub open spec fn spec_build_children(kids: Seq<StyledV>, acc: Seq<BoxV>, block_parent: bool) -> Seq<
    BoxV,
>
    decreases kids,
{
    if kids.len() == 0 {
        acc
    } else {
        let acc2 = match spec_display(kids[0].props) {
            Display::NoDisplay => acc,
            Display::Block => acc.push(spec_build_box(kids[0])),
            Display::Inline => if block_parent {
                add_inline(acc, spec_build_box(kids[0]))
            } else {
                acc.push(spec_build_box(kids[0]))
            },
        };
        spec_build_children(kids.drop_first(), acc2, block_parent)
    }
}

/// The undimensioned box tree of a styled node whose display is not `none`:
/// a block or inline box carrying the node's properties, over the boxes of
/// its children.
pub open spec fn spec_build_box(s: StyledV) -> BoxV
    decreases s,
{
    let block = spec_display(s.props) == Display::Block;
    BoxV {
        dimensions: dims_zero(),
        box_type: if block {
            BoxTypeV::BlockNode(s.props)
        } else {
            BoxTypeV::InlineNode(s.props)
        },
        children: spec_build_children(s.children, Seq::empty(), block),
    }
}

/// The one failure of the renderer: the root node resolves to `display: none`.
#[derive(Debug, Clone, Copy, PartialEq, Eq, Structural)]
pub enum LayoutError {
    RootDisplayNone,
}

/// Build the undimensioned box tree of a styled node.
/// Fails exactly when the node's display is `none`.
pub fn build_layout_tree(style_node: &StyledNode) -> (r: Result<LayoutBox, LayoutError>)
    ensures
        match r {
            Result::Ok(b) => spec_display(style_node@.props) != Display::NoDisplay && b@
                == spec_build_box(style_node@),
            Result::Err(e) => spec_display(style_node@.props) == Display::NoDisplay && e
                == LayoutError::RootDisplayNone,
        },
    decreases *style_node,
{
    let block = match style_node.display() {
        Display::Block => true,
        Display::Inline => false,
        Display::NoDisplay => {
            return Result::Err(LayoutError::RootDisplayNone);
        },
    };
    let box_type = if block {
        BoxType::BlockNode(style_node.specified_values.clone())
    } else {
        BoxType::InlineNode(style_node.specified_values.clone())
    };
    let mut root = LayoutBox::new(box_type);
    let ghost kids = style_node@.children;
    proof {
        crate::style::lemma_view_styled(style_node.children@);
        assert(kids.skip(0) =~= kids);
    }
    let n = style_node.children.len();
    let mut i: usize = 0;
    while i < n
        invariant
            n == style_node.children.len(),
            i <= n,
            root@.dimensions == dims_zero(),
            root@.box_type == (if block {
                BoxTypeV::BlockNode(style_node@.props)
            } else {
                BoxTypeV::InlineNode(style_node@.props)
            }),
            spec_build_children(kids.skip(i as int), root@.children, block) =~= spec_build_children(
                kids,
                Seq::empty(),
                block,
            ),
        decreases n - i,
    {
        proof {
            assert(kids.skip(i as int)[0] == kids[i as int]);
            assert(kids.skip(i as int).drop_first() =~= kids.skip(i + 1));
            assert(kids[i as int] == style_node.children@[i as int]@);
        }
        let child = &style_node.children[i];
        match child.display() {
            Display::NoDisplay => {},
            Display::Block => {
                let ghost prev = root@.children;
                let cb = match build_layout_tree(child) {
                    Result::Ok(b) => b,
                    Result::Err(_) => {
                        proof {
                            assert(false);
                        }
                        return Result::Err(LayoutError::RootDisplayNone);
                    },
                };
                let ghost oldk = root.children@;
                root.children.push(cb);
                proof {
                    lemma_view_boxes_push(oldk, cb);
                    assert(root@.children =~= prev.push(spec_build_box(kids[i as int])));
                }
            },
            Display::Inline => {
                let ghost prev = root@.children;
                let cb = match build_layout_tree(child) {
                    Result::Ok(b) => b,
                    Result::Err(_) => {
                        proof {
                            assert(false);
                        }
                        return Result::Err(LayoutError::RootDisplayNone);
                    },
                };
                if block {
                    // Fetch or create the trailing anonymous container.
                    let reuse = match root.children.last() {
                        Option::Some(last_box) => match &last_box.box_type {
                            BoxType::AnonymousBlock => true,
                            _ => false,
                        },
                        Option::None => false,
                    };
                    let ghost b = spec_build_box(kids[i as int]);
                    if reuse {
                        let ghost rk0 = root.children@;
                        let mut anon = match root.children.pop() {
                            Option::Some(a) => a,
                            Option::None => {
                                proof {
                                    assert(false);
                                }
                                return Result::Err(LayoutError::RootDisplayNone);
                            },
                        };
                        let ghost anon0 = anon@;
                        let ghost anonkids = anon.children@;
                        anon.children.push(cb);
                        proof {
                            lemma_view_boxes_push(anonkids, cb);
                            assert(anon@.children =~= anon0.children.push(b));
                            lemma_view_boxes(rk0);
                            assert(anon0 == prev.last());
                        }
                        let ghost anonbox = anon;
                        let ghost anon1 = anon@;
                        root.children.push(anon);
                        proof {
                            assert(anon1 == BoxV {
                                dimensions: prev.last().dimensions,
                                box_type: BoxTypeV::AnonymousBlock,
                                children: prev.last().children.push(b),
                            });
                            lemma_view_boxes_push(rk0.drop_last(), anonbox);
                            lemma_view_boxes(rk0.drop_last());
                            assert forall|t: int|
                                0 <= t < rk0.len() - 1 implies view_boxes(rk0.drop_last())[t]
                                == prev[t] by {
                                assert(rk0.drop_last()[t] == rk0[t]);
                                assert(rk0.drop_last()[t]@ == rk0[t]@);
                            }
                            assert(view_boxes(rk0.drop_last()) =~= prev.drop_last());
                            assert(root@.children =~= prev.drop_last().push(anon1));
                            assert(prev.drop_last().push(anon1) =~= prev.update(
                                prev.len() - 1,
                                anon1,
                            ));
                            assert(root@.children =~= add_inline(prev, b));
                        }
                    } else {
                        let mut anon = LayoutBox::new(BoxType::AnonymousBlock);
                        let ghost anonkids = anon.children@;
                        anon.children.push(cb);
                        proof {
                            lemma_view_boxes_push(anonkids, cb);
                            assert(anon@.children =~= seq![b]);
                        }
                        let ghost oldk = root.children@;
                        let ghost anonbox = anon;
                        let ghost anon1 = anon@;
                        root.children.push(anon);
                        proof {
                            assert(anon1 == BoxV {
                                dimensions: dims_zero(),
                                box_type: BoxTypeV::AnonymousBlock,
                                children: seq![b],
                            });
                            lemma_view_boxes_push(oldk, anonbox);
                            assert(root@.children =~= prev.push(anon1));
                            lemma_view_boxes(oldk);
                            if oldk.len() > 0 {
                                assert(prev.last() == oldk.last()@);
                            }
                            assert(root@.children =~= add_inline(prev, b));
                        }
                    }
                } else {
                    let ghost oldk = root.children@;
                    root.children.push(cb);
                    proof {
                        lemma_view_boxes_push(oldk, cb);
                        assert(root@.children =~= prev.push(spec_build_box(kids[i as int])));
                    }
                }
            },
        }
        i = i + 1;
    }
    proof {
        assert(kids.skip(n as int) =~= Seq::<StyledV>::empty());
    }
    Result::Ok(root)
}

/// Anonymous-box merging: a block node whose four children display as
/// inline, inline, block, inline produces exactly three child boxes — one
/// anonymous box holding the first two inline boxes, the block box, and
/// one anonymous box holding the last inline box.  Consecutive inline
/// siblings always share one wrapper: never more than one anonymous box
/// per inline run.
pub proof fn lemma_anonymous_merging(s: StyledV)
    requires
        spec_display(s.props) == Display::Block,
        s.children.len() == 4,
        spec_display(s.children[0].props) == Display::Inline,
        spec_display(s.children[1].props) == Display::Inline,
        spec_display(s.children[2].props) == Display::Block,
        spec_display(s.children[3].props) == Display::Inline,
    ensures
        ({
            let b = spec_build_box(s);
            &&& b.children.len() == 3
            &&& b.children[0].box_type == BoxTypeV::AnonymousBlock
            &&& b.children[0].children =~= seq![
                spec_build_box(s.children[0]),
                spec_build_box(s.children[1]),
            ]
            &&& b.children[1] == spec_build_box(s.children[2])
            &&& b.children[2].box_type == BoxTypeV::AnonymousBlock
            &&& b.children[2].children =~= seq![spec_build_box(s.children[3])]
        }),
{
    let kids = s.children;
    let e0 = Seq::<BoxV>::empty();
    let b0 = spec_build_box(kids[0]);
    let b1 = spec_build_box(kids[1]);
    let b2 = spec_build_box(kids[2]);
    let b3 = spec_build_box(kids[3]);
    let k1 = kids.drop_first();
    let k2 = k1.drop_first();
    let k3 = k2.drop_first();
    let k4 = k3.drop_first();
    assert(k1[0] == kids[1] && k2[0] == kids[2] && k3[0] == kids[3] && k4.len() == 0);
    let a1 = add_inline(e0, b0);
    assert(a1 == e0.push(BoxV {
        dimensions: dims_zero(),
        box_type: BoxTypeV::AnonymousBlock,
        children: seq![b0],
    }));
    assert(spec_build_children(kids, e0, true) == spec_build_children(k1, a1, true));
    let a2 = add_inline(a1, b1);
    assert(a1.last().box_type == BoxTypeV::AnonymousBlock);
    assert(a1.last().children.push(b1) =~= seq![b0, b1]);
    assert(a2 =~= seq![
        BoxV {
            dimensions: dims_zero(),
            box_type: BoxTypeV::AnonymousBlock,
            children: seq![b0, b1],
        },
    ]);
    assert(spec_build_children(k1, a1, true) == spec_build_children(k2, a2, true));
    let a3 = a2.push(b2);
    assert(spec_build_children(k2, a2, true) == spec_build_children(k3, a3, true));
    let a4 = add_inline(a3, b3);
    assert(a3.last() == b2);
    assert(b2.box_type != BoxTypeV::AnonymousBlock);
    assert(a4 == a3.push(BoxV {
        dimensions: dims_zero(),
        box_type: BoxTypeV::AnonymousBlock,
        children: seq![b3],
    }));
    assert(spec_build_children(k3, a3, true) == spec_build_children(k4, a4, true));
    assert(spec_build_children(k4, a4, true) == a4);
    assert(spec_build_box(s).children == a4);
}

/// The `auto` keyword.
pub open spec fn auto_v() -> ValueV {
    ValueV::Keyword("auto"@)
}

/// A zero-pixel length.
pub open spec fn zero_len() -> ValueV {
    ValueV::Length(0, Unit::Px)
}

/// The property's value, or the given default when absent.
pub open spec fn val_or(props: Seq<(Seq<char>, ValueV)>, name: Seq<char>, d: ValueV) -> ValueV {
    match assoc_get(props, name) {
        Option::Some(v) => v,
        Option::None => d,
    }
}

/// A solved set of horizontal lengths for a block box.
pub ghost struct WidthSolution {
    pub width: int,
    pub margin_left: int,
    pub margin_right: int,
    pub border_left: int,
    pub border_right: int,
    pub padding_left: int,
    pub padding_right: int,
}

/// The block width constraint system.  `width` defaults to `auto`; margins,
/// borders and paddings default to zero.  `total` counts `auto` as zero.
/// When a sized box overflows its container, auto margins are first forced
/// to zero; the remaining free space (`underflow`) is then assigned by case
/// on which of width and the two margins are `auto`.  When both margins are
/// auto and the underflow is odd, the right margin takes the extra pixel,
/// so that the parts still sum exactly to the containing width.
pub open spec fn spec_block_width(props: Seq<(Seq<char>, ValueV)>, cw: int) -> WidthSolution {
    let width = val_or(props, "width"@, auto_v());
    let ml_v = spec_lookup(props, "margin-left"@, "margin"@, zero_len());
    let mr_v = spec_lookup(props, "margin-right"@, "margin"@, zero_len());
    let bl = spec_to_px(spec_lookup(props, "border-left-width"@, "border-width"@, zero_len()));
    let br = spec_to_px(spec_lookup(props, "border-right-width"@, "border-width"@, zero_len()));
    let pl = spec_to_px(spec_lookup(props, "padding-left"@, "padding"@, zero_len()));
    let pr = spec_to_px(spec_lookup(props, "padding-right"@, "padding"@, zero_len()));
    let w_auto = width == auto_v();
    let wpx = spec_to_px(width);
    let mlpx0 = spec_to_px(ml_v);
    let mrpx0 = spec_to_px(mr_v);
    let total = spec_px_add(
        spec_px_add(
            spec_px_add(
                spec_px_add(spec_px_add(spec_px_add(spec_px_add(0, mlpx0), mrpx0), bl), br),
                pl,
            ),
            pr,
        ),
        wpx,
    );
    let shrink = !w_auto && total > cw;
    let ml_auto = ml_v == auto_v() && !shrink;
    let mr_auto = mr_v == auto_v() && !shrink;
    let underflow = spec_px_sub(cw, total);
    let w = if w_auto && underflow >= 0 {
        underflow
    } else if w_auto {
        0
    } else {
        wpx
    };
    let ml = if !w_auto && ml_auto && !mr_auto {
        underflow
    } else if !w_auto && ml_auto && mr_auto {
        spec_px_half(underflow)
    } else {
        mlpx0
    };
    let mr = if !w_auto && !ml_auto && !mr_auto {
        spec_px_add(mrpx0, underflow)
    } else if !w_auto && !ml_auto && mr_auto {
        underflow
    } else if !w_auto && ml_auto && mr_auto {
        spec_px_sub(underflow, spec_px_half(underflow))
    } else if w_auto && underflow < 0 {
        spec_px_add(mrpx0, underflow)
    } else {
        mrpx0
    };
    WidthSolution {
        width: w,
        margin_left: ml,
        margin_right: mr,
        border_left: bl,
        border_right: br,
        padding_left: pl,
        padding_right: pr,
    }
}

/// A pixel quantity far inside the representable range: small enough that
/// sums of a handful of such values never reach the saturation bound.
pub open spec fn px_small(v: int) -> bool {
    -0x10_0000_0000_0000 <= v <= 0x10_0000_0000_0000
}

/// Width resolution fills the containing block: after solving, the margins,
/// borders, paddings and content width sum exactly to the containing width.
/// This holds in every case of the constraint system — when nothing is
/// `auto` the right margin absorbs the difference, even driving it
/// negative — provided the inputs are small enough that no sum saturates.
pub proof fn lemma_block_width_fills(props: Seq<(Seq<char>, ValueV)>, cw: int)
    requires
        px_small(cw),
        px_small(spec_to_px(val_or(props, "width"@, auto_v()))),
        px_small(spec_to_px(spec_lookup(props, "margin-left"@, "margin"@, zero_len()))),
        px_small(spec_to_px(spec_lookup(props, "margin-right"@, "margin"@, zero_len()))),
        px_small(spec_to_px(spec_lookup(props, "border-left-width"@, "border-width"@, zero_len()))),
        px_small(
            spec_to_px(spec_lookup(props, "border-right-width"@, "border-width"@, zero_len())),
        ),
        px_small(spec_to_px(spec_lookup(props, "padding-left"@, "padding"@, zero_len()))),
        px_small(spec_to_px(spec_lookup(props, "padding-right"@, "padding"@, zero_len()))),
    ensures
        ({
            let ws = spec_block_width(props, cw);
            ws.margin_left + ws.border_left + ws.padding_left + ws.width + ws.padding_right
                + ws.border_right + ws.margin_right == cw
        }),
{
    let u = spec_px_sub(
        cw,
        spec_px_add(
            spec_px_add(
                spec_px_add(
                    spec_px_add(
                        spec_px_add(
                            spec_px_add(
                                spec_px_add(
                                    0,
                                    spec_to_px(
                                        spec_lookup(props, "margin-left"@, "margin"@, zero_len()),
                                    ),
                                ),
                                spec_to_px(
                                    spec_lookup(props, "margin-right"@, "margin"@, zero_len()),
                                ),
                            ),
                            spec_to_px(
                                spec_lookup(props, "border-left-width"@, "border-width"@, zero_len()),
                            ),
                        ),
                        spec_to_px(
                            spec_lookup(props, "border-right-width"@, "border-width"@, zero_len()),
                        ),
                    ),
                    spec_to_px(spec_lookup(props, "padding-left"@, "padding"@, zero_len())),
                ),
                spec_to_px(spec_lookup(props, "padding-right"@, "padding"@, zero_len())),
            ),
            spec_to_px(val_or(props, "width"@, auto_v())),
        ),
    );
    if u >= 0 {
        assert(spec_px_half(u) == u / 2);
        assert(0 <= u / 2 <= u);
    } else {
        assert(spec_px_half(u) == -((-u + 1) / 2));
        assert(0 <= (-u + 1) / 2 <= -u + 1);
    }
}

/// Width resolution fills the containing block, stated of the laid-out box:
/// after layout, a block box's left margin, border and padding, content
/// width, and right padding, border and margin sum exactly to the
/// containing block's content width (inputs in the safe pixel range).
pub proof fn lemma_layout_fills_container(b: BoxV, cb: DimsV, props: Seq<(Seq<char>, ValueV)>)
    requires
        b.box_type == BoxTypeV::BlockNode(props),
        px_small(cb.content.width),
        px_small(spec_to_px(val_or(props, "width"@, auto_v()))),
        px_small(spec_to_px(spec_lookup(props, "margin-left"@, "margin"@, zero_len()))),
        px_small(spec_to_px(spec_lookup(props, "margin-right"@, "margin"@, zero_len()))),
        px_small(spec_to_px(spec_lookup(props, "border-left-width"@, "border-width"@, zero_len()))),
        px_small(
            spec_to_px(spec_lookup(props, "border-right-width"@, "border-width"@, zero_len())),
        ),
        px_small(spec_to_px(spec_lookup(props, "padding-left"@, "padding"@, zero_len()))),
        px_small(spec_to_px(spec_lookup(props, "padding-right"@, "padding"@, zero_len()))),
    ensures
        ({
            let d = spec_layout_box(b, cb).dimensions;
            d.margin.left + d.border.left + d.padding.left + d.content.width + d.padding.right
                + d.border.right + d.margin.right == cb.content.width
        }),
{
    lemma_block_width_fills(props, cb.content.width);
}

/// The fully dimensioned box: only block boxes compute anything; inline and
/// anonymous boxes pass through unchanged.
pub open spec fn spec_layout_box(b: BoxV, cb: DimsV) -> BoxV
    decreases b,
{
    match b.box_type {
        BoxTypeV::BlockNode(props) => {
            let ws = spec_block_width(props, cb.content.width);
            let mt = spec_to_px(spec_lookup(props, "margin-top"@, "margin"@, zero_len()));
            let mb = spec_to_px(spec_lookup(props, "margin-bottom"@, "margin"@, zero_len()));
            let bt = spec_to_px(
                spec_lookup(props, "border-top-width"@, "border-width"@, zero_len()),
            );
            let bb = spec_to_px(
                spec_lookup(props, "border-bottom-width"@, "border-width"@, zero_len()),
            );
            let pt = spec_to_px(spec_lookup(props, "padding-top"@, "padding"@, zero_len()));
            let pb = spec_to_px(spec_lookup(props, "padding-bottom"@, "padding"@, zero_len()));
            let x = spec_px_add(
                spec_px_add(spec_px_add(cb.content.x, ws.margin_left), ws.border_left),
                ws.padding_left,
            );
            let y = spec_px_add(spec_px_add(spec_px_add(cb.content.y, mt), bt), pt);
            let d0 = DimsV {
                content: RectV { x, y, width: ws.width, height: b.dimensions.content.height },
                padding: EdgeV { left: ws.padding_left, right: ws.padding_right, top: pt, bottom: pb },
                border: EdgeV { left: ws.border_left, right: ws.border_right, top: bt, bottom: bb },
                margin: EdgeV { left: ws.margin_left, right: ws.margin_right, top: mt, bottom: mb },
            };
            let kids = spec_layout_boxes(b.children, d0);
            let h1 = spec_heights(kids, d0.content.height);
            let h2 = match assoc_get(props, "height"@) {
                Option::Some(v) => match v {
                    ValueV::Length(h, u) => h as int,
                    _ => h1,
                },
                Option::None => h1,
            };
            BoxV {
                dimensions: DimsV {
                    content: RectV { x, y, width: ws.width, height: h2 },
                    padding: d0.padding,
                    border: d0.border,
                    margin: d0.margin,
                },
                box_type: b.box_type,
                children: kids,
            }
        },
        _ => b,
    }
}

/// Lay out each box of a sequence against the same containing block.
pub open spec fn spec_layout_boxes(s: Seq<BoxV>, d: DimsV) -> Seq<BoxV>
    decreases s,
{
    if s.len() == 0 {
        Seq::empty()
    } else {
        seq![spec_layout_box(s[0], d)] + spec_layout_boxes(s.drop_first(), d)
    }
}

/// Running sum of the children's margin-box heights.
pub open spec fn spec_heights(s: Seq<BoxV>, acc: int) -> int
    decreases s,
{
    if s.len() == 0 {
        acc
    } else {
        spec_heights(s.drop_first(), spec_px_add(acc, spec_margin_box(s[0].dimensions).height))
    }
}

/// Whether the value is the `auto` keyword.
fn is_auto(v: &Value) -> (r: bool)
    ensures
        r == (v@ == auto_v()),
{
    match v {
        Value::Keyword(s) => str_eq(s.as_str(), "auto"),
        _ => false,
    }
}

/// Solve the block width constraint system for one box: the resolved
/// (width, margin-left, margin-right, border-left, border-right,
/// padding-left, padding-right), in that order.
fn calculate_block_width(props: &PropertyMap, containing_width: i64) -> (r: (
    i64,
    i64,
    i64,
    i64,
    i64,
    i64,
    i64,
))
    ensures
        ({
            let ws = spec_block_width(props@, containing_width as int);
            &&& r.0 as int == ws.width
            &&& r.1 as int == ws.margin_left
            &&& r.2 as int == ws.margin_right
            &&& r.3 as int == ws.border_left
            &&& r.4 as int == ws.border_right
            &&& r.5 as int == ws.padding_left
            &&& r.6 as int == ws.padding_right
        }),
{
    let zero = Value::Length(0, Unit::Px);
    let width_v = match props.value("width") {
        Option::Some(v) => v,
        Option::None => Value::Keyword("auto".to_owned()),
    };
    let margin_left_v = props.lookup("margin-left", "margin", &zero);
    let margin_right_v = props.lookup("margin-right", "margin", &zero);
    let border_left = props.lookup("border-left-width", "border-width", &zero).to_px();
    let border_right = props.lookup("border-right-width", "border-width", &zero).to_px();
    let padding_left = props.lookup("padding-left", "padding", &zero).to_px();
    let padding_right = props.lookup("padding-right", "padding", &zero).to_px();
    let w_auto = is_auto(&width_v);
    let wpx = width_v.to_px();
    let mlpx0 = margin_left_v.to_px();
    let mrpx0 = margin_right_v.to_px();
    let total = px_add(
        px_add(
            px_add(
                px_add(px_add(px_add(px_add(0, mlpx0), mrpx0), border_left), border_right),
                padding_left,
            ),
            padding_right,
        ),
        wpx,
    );
    let cw = containing_width;
    let shrink = !w_auto && total > cw;
    let ml_auto = is_auto(&margin_left_v) && !shrink;
    let mr_auto = is_auto(&margin_right_v) && !shrink;
    let underflow = px_sub(cw, total);
    let mut w = wpx;
    let mut ml = mlpx0;
    let mut mr = mrpx0;
    if !w_auto && !ml_auto && !mr_auto {
        mr = px_add(mrpx0, underflow);
    } else if !w_auto && !ml_auto && mr_auto {
        mr = underflow;
    } else if !w_auto && ml_auto && !mr_auto {
        ml = underflow;
    } else if w_auto {
        if underflow >= 0 {
            w = underflow;
        } else {
            w = 0;
            mr = px_add(mrpx0, underflow);
        }
    } else {
        ml = px_half(underflow);
        mr = px_sub(underflow, px_half(underflow));
    }
    (w, ml, mr, border_left, border_right, padding_left, padding_right)
}

/// Lay out one box against its containing block, recursively.
#[verifier::rlimit(50)]
fn layout_box(b: LayoutBox, containing_block: Dimensions) -> (r: LayoutBox)
    ensures
        r@ == spec_layout_box(b@, containing_block@),
    decreases b,
{
    let ghost b0 = b;
    let LayoutBox { dimensions, box_type, children } = b;
    match box_type {
        BoxType::BlockNode(props) => {
            let ghost pv = props@;
            let zero = Value::Length(0, Unit::Px);
            // Width resolution.
            let cw = containing_block.content.width;
            let (w, ml, mr, border_left, border_right, padding_left, padding_right) =
                calculate_block_width(&props, cw);
            // Position.
            let margin_top = props.lookup("margin-top", "margin", &zero).to_px();
            let margin_bottom = props.lookup("margin-bottom", "margin", &zero).to_px();
            let border_top = props.lookup("border-top-width", "border-width", &zero).to_px();
            let border_bottom = props.lookup("border-bottom-width", "border-width", &zero).to_px();
            let padding_top = props.lookup("padding-top", "padding", &zero).to_px();
            let padding_bottom = props.lookup("padding-bottom", "padding", &zero).to_px();
            let x = px_add(
                px_add(px_add(containing_block.content.x, ml), border_left),
                padding_left,
            );
            let y = px_add(px_add(px_add(containing_block.content.y, margin_top), border_top), padding_top);
            let d = Dimensions {
                content: Rect { x, y, width: w, height: dimensions.content.height },
                padding: EdgeSizes {
                    left: padding_left,
                    right: padding_right,
                    top: padding_top,
                    bottom: padding_bottom,
                },
                border: EdgeSizes {
                    left: border_left,
                    right: border_right,
                    top: border_top,
                    bottom: border_bottom,
                },
                margin: EdgeSizes { left: ml, right: mr, top: margin_top, bottom: margin_bottom },
            };
            // Children, accumulating the content height.
            let ghost allkids = spec_layout_boxes(view_boxes(children@), d@);
            let ghost orig = children@;
            let mut rest = children;
            let mut out: Vec<LayoutBox> = Vec::new();
            let mut h: i64 = d.content.height;
            proof {
                assert(view_boxes(out@) =~= Seq::<BoxV>::empty());
            }
            while rest.len() > 0
                invariant
                    view_boxes(out@) + spec_layout_boxes(view_boxes(rest@), d@) =~= allkids,
                    spec_heights(spec_layout_boxes(view_boxes(rest@), d@), h as int)
                        == spec_heights(allkids, d@.content.height),
                    forall|j: int|
                        #![trigger rest@[j]]
                        0 <= j < rest@.len() ==> exists|k: int|
                            #![trigger b0.children@[k]]
                            0 <= k < b0.children@.len() && b0.children@[k] == rest@[j],
                decreases rest.len(),
            {
                let ghost rest0 = rest@;
                let child = rest.remove(0);
                proof {
                    assert(child == rest0[0]);
                    assert(rest@ =~= rest0.drop_first());
                    lemma_view_boxes(rest0);
                    lemma_view_boxes(rest@);
                    assert forall|t: int|
                        0 <= t < rest@.len() implies view_boxes(rest0).drop_first()[t]
                        == view_boxes(rest@)[t] by {
                        assert(rest0.drop_first()[t] == rest@[t]);
                        assert(rest0[t + 1]@ == rest@[t]@);
                    }
                    assert(view_boxes(rest0).drop_first() =~= view_boxes(rest@));
                    let k = choose|k: int|
                        0 <= k < b0.children@.len() && b0.children@[k] == rest0[0];
                    assert(decreases_to!(b0 => b0.children@[k]));
                }
                let laid = layout_box(child, d);
                let mbh = laid.dimensions.margin_box().height;
                let ghost out0 = out@;
                let ghost laidg = laid;
                out.push(laid);
                h = px_add(h, mbh);
                proof {
                    lemma_view_boxes_push(out0, laidg);
                    assert((seq![spec_layout_box(child@, d@)] + spec_layout_boxes(
                        view_boxes(rest@),
                        d@,
                    )).drop_first() =~= spec_layout_boxes(view_boxes(rest@), d@));
                }
            }
            proof {
                assert(view_boxes(rest@) =~= Seq::<BoxV>::empty());
                assert(view_boxes(out@) =~= allkids);
            }
            // Height: an explicit pixel height overrides the accumulated sum.
            let final_height = match props.value("height") {
                Option::Some(Value::Length(hh, Unit::Px)) => hh,
                _ => h,
            };
            let dims = Dimensions {
                content: Rect { x, y, width: w, height: final_height },
                padding: d.padding,
                border: d.border,
                margin: d.margin,
            };
            let r = LayoutBox { dimensions: dims, box_type: BoxType::BlockNode(props), children: out };
            proof {
                assert(r@.children =~= allkids);
                assert(r@ == spec_layout_box(b0@, containing_block@));
            }
            r
        },
        BoxType::InlineNode(props) => {
            LayoutBox { dimensions, box_type: BoxType::InlineNode(props), children }
        },
        BoxType::AnonymousBlock => {
            LayoutBox { dimensions, box_type: BoxType::AnonymousBlock, children }
        },
    }
}

/// Build and lay out the box tree of a styled node against a viewport.
/// The viewport's content height starts at zero: the root's height grows
/// from its children.  Fails exactly when the root's display is `none`.
pub fn layout_tree(node: &StyledNode, containing_block: Dimensions) -> (r: Result<
    LayoutBox,
    LayoutError,
>)
    ensures
        match r {
            Result::Ok(b) => spec_display(node@.props) != Display::NoDisplay && b@
                == spec_layout_box(
                spec_build_box(node@),
                DimsV {
                    content: RectV {
                        x: containing_block@.content.x,
                        y: containing_block@.content.y,
                        width: containing_block@.content.width,
                        height: 0,
                    },
                    padding: containing_block@.padding,
                    border: containing_block@.border,
                    margin: containing_block@.margin,
                },
            ),
            Result::Err(e) => spec_display(node@.props) == Display::NoDisplay && e
                == LayoutError::RootDisplayNone,
        },
{
    let mut cb = containing_block;
    cb.content.height = 0;
    let root_box = match build_layout_tree(node) {
        Result::Ok(b) => b,
        Result::Err(e) => {
            return Result::Err(e);
        },
    };
    Result::Ok(layout_box(root_box, cb))
}

} // verus!
