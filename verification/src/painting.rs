//! Painting: flatten the layout tree into solid-color rectangle commands
//! and rasterize them onto a pixel canvas, later commands overwriting
//! earlier ones.
use vstd::prelude::*;

use crate::css::{Color, ValueV};
use crate::layout::{spec_border_box, BoxTypeV, BoxV, LayoutBox, Rect, RectV};
use crate::px::{px_add, spec_px_add, spec_px_sub, px_sub};
use crate::assoc::assoc_get;
use vstd::arithmetic::div_mod::lemma_fundamental_div_mod_converse;

verus! {

/// One paint operation: fill an axis-aligned rectangle with a color.
#[derive(Debug, Clone, Copy, PartialEq, Eq, Structural)]
pub enum DisplayCommand {
    SolidColor(Color, Rect),
}

/// Mathematical image of a display command.
pub ghost struct CmdV {
    pub color: Color,
    pub rect: RectV,
}

impl View for DisplayCommand {
    type V = CmdV;

    open spec fn view(&self) -> CmdV {
        match self {
            DisplayCommand::SolidColor(c, r) => CmdV { color: *c, rect: r@ },
        }
    }
}

/// Views of a command vector.
pub open spec fn view_cmds(s: Seq<DisplayCommand>) -> Seq<CmdV> {
    s.map(|i: int, c: DisplayCommand| c@)
}

/// The color the box's style holds under the name, if any; anonymous boxes
/// have no style and so no color.
pub open spec fn spec_color_of(b: BoxV, name: Seq<char>) -> Option<Color> {
    match b.box_type {
        BoxTypeV::BlockNode(p) => match assoc_get(p, name) {
            Option::Some(v) => match v {
                ValueV::ColorValue(c) => Option::Some(c),
                _ => Option::None,
            },
            Option::None => Option::None,
        },
        BoxTypeV::InlineNode(p) => match assoc_get(p, name) {
            Option::Some(v) => match v {
                ValueV::ColorValue(c) => Option::Some(c),
                _ => Option::None,
            },
            Option::None => Option::None,
        },
        BoxTypeV::AnonymousBlock => Option::None,
    }
}

/// The background command of one box: its border box filled with the
/// `background` color, when one is set.
pub open spec fn spec_background(b: BoxV) -> Seq<CmdV> {
    match spec_color_of(b, "background"@) {
        Option::Some(c) => seq![CmdV { color: c, rect: spec_border_box(b.dimensions) }],
        Option::None => Seq::empty(),
    }
}

/// The four border commands of one box (left, right, top, bottom), when a
/// `border-color` is set.
pub open spec fn spec_borders(b: BoxV) -> Seq<CmdV> {
    match spec_color_of(b, "border-color"@) {
        Option::None => Seq::empty(),
        Option::Some(c) => {
            let d = b.dimensions;
            let bb = spec_border_box(d);
            seq![
                CmdV {
                    color: c,
                    rect: RectV { x: bb.x, y: bb.y, width: d.border.left, height: bb.height },
                },
                CmdV {
                    color: c,
                    rect: RectV {
                        x: spec_px_sub(spec_px_add(bb.x, bb.width), d.border.right),
                        y: bb.y,
                        width: d.border.right,
                        height: bb.height,
                    },
                },
                CmdV {
                    color: c,
                    rect: RectV { x: bb.x, y: bb.y, width: bb.width, height: d.border.top },
                },
                CmdV {
                    color: c,
                    rect: RectV {
                        x: bb.x,
                        y: spec_px_sub(spec_px_add(bb.y, bb.height), d.border.bottom),
                        width: bb.width,
                        height: d.border.bottom,
                    },
                },
            ]
        },
    }
}

/// The commands one box contributes, before its children.
pub open spec fn spec_render_box(b: BoxV) -> Seq<CmdV> {
    spec_background(b) + spec_borders(b)
}

/// The display list of a box tree, in paint order: the box's own commands,
/// then each child's list, in order.
pub open spec fn spec_display_list(b: BoxV) -> Seq<CmdV>
    decreases b,
{
    spec_render_box(b) + spec_display_list_seq(b.children)
}

/// The concatenated display lists of a sequence of boxes.
pub open spec fn spec_display_list_seq(s: Seq<BoxV>) -> Seq<CmdV>
    decreases s,
{
    if s.len() == 0 {
        Seq::empty()
    } else {
        spec_display_list(s[0]) + spec_display_list_seq(s.drop_first())
    }
}

/// The box's styled color under the name, if any.
fn get_color(layout_box: &LayoutBox, name: &str) -> (r: Option<Color>)
    ensures
        r == spec_color_of(layout_box@, name@),
{
    match layout_box.get_style_node() {
        Option::Some(style) => match style.get(name) {
            Option::Some(v) => match v {
                crate::css::Value::ColorValue(c) => Option::Some(*c),
                _ => Option::None,
            },
            Option::None => Option::None,
        },
        Option::None => Option::None,
    }
}

/// Append the box's background command, if it has one.
fn render_background(list: &mut Vec<DisplayCommand>, layout_box: &LayoutBox)
    ensures
        view_cmds(final(list)@) =~= view_cmds(old(list)@) + spec_background(layout_box@),
{
    let ghost l0 = list@;
    match get_color(layout_box, "background") {
        Option::Some(color) => {
            let cmd = DisplayCommand::SolidColor(color, layout_box.dimensions.border_box());
            list.push(cmd);
            proof {
                assert(view_cmds(list@) =~= view_cmds(l0).push(cmd@));
            }
        },
        Option::None => {},
    }
}

/// Append the box's four border commands, if it has a border color.
fn render_borders(list: &mut Vec<DisplayCommand>, layout_box: &LayoutBox)
    ensures
        view_cmds(final(list)@) =~= view_cmds(old(list)@) + spec_borders(layout_box@),
{
    let ghost l0 = list@;
    let color = match get_color(layout_box, "border-color") {
        Option::Some(color) => color,
        Option::None => {
            return ;
        },
    };
    let d = layout_box.dimensions;
    let border_box = d.border_box();
    let c1 = DisplayCommand::SolidColor(
        color,
        Rect { x: border_box.x, y: border_box.y, width: d.border.left, height: border_box.height },
    );
    let c2 = DisplayCommand::SolidColor(
        color,
        Rect {
            x: px_sub(px_add(border_box.x, border_box.width), d.border.right),
            y: border_box.y,
            width: d.border.right,
            height: border_box.height,
        },
    );
    let c3 = DisplayCommand::SolidColor(
        color,
        Rect { x: border_box.x, y: border_box.y, width: border_box.width, height: d.border.top },
    );
    let c4 = DisplayCommand::SolidColor(
        color,
        Rect {
            x: border_box.x,
            y: px_sub(px_add(border_box.y, border_box.height), d.border.bottom),
            width: border_box.width,
            height: d.border.bottom,
        },
    );
    list.push(c1);
    list.push(c2);
    list.push(c3);
    list.push(c4);
    proof {
        assert(view_cmds(list@) =~= view_cmds(l0) + seq![c1@, c2@, c3@, c4@]);
        assert(seq![c1@, c2@, c3@, c4@] =~= spec_borders(layout_box@));
    }
}

/// Append the box's commands, then its children's, in order.
fn render_layout_box(list: &mut Vec<DisplayCommand>, layout_box: &LayoutBox)
    ensures
        view_cmds(final(list)@) =~= view_cmds(old(list)@) + spec_display_list(layout_box@),
    decreases *layout_box,
{
    render_background(list, layout_box);
    render_borders(list, layout_box);
    let ghost kids = layout_box@.children;
    proof {
        crate::layout::lemma_view_boxes(layout_box.children@);
        assert(kids.skip(0) =~= kids);
    }
    let n = layout_box.children.len();
    let mut i: usize = 0;
    while i < n
        invariant
            n == layout_box.children.len(),
            i <= n,
            view_cmds(list@) + spec_display_list_seq(kids.skip(i as int)) =~= view_cmds(old(list)@)
                + spec_display_list(layout_box@),
        decreases n - i,
    {
        proof {
            assert(kids.skip(i as int)[0] == kids[i as int]);
            assert(kids.skip(i as int).drop_first() =~= kids.skip(i + 1));
            assert(kids[i as int] == layout_box.children@[i as int]@);
        }
        render_layout_box(list, &layout_box.children[i]);
        i = i + 1;
    }
    proof {
        assert(kids.skip(n as int) =~= Seq::<BoxV>::empty());
    }
}

/// Flatten a laid-out box tree into its display list.
pub fn build_display_list(layout_root: &LayoutBox) -> (list: Vec<DisplayCommand>)
    ensures
        view_cmds(list@) =~= spec_display_list(layout_root@),
{
    let mut list: Vec<DisplayCommand> = Vec::new();
    proof {
        assert(view_cmds(list@) =~= Seq::<CmdV>::empty());
    }
    render_layout_box(&mut list, layout_root);
    list
}

/// Opaque white, the canvas's initial color.
pub open spec fn white() -> Color {
    Color { r: 255, g: 255, b: 255, a: 255 }
}

/// Clamp a coordinate into `[0, hi]`.
pub open spec fn spec_clamp(v: int, hi: int) -> int {
    if v < 0 {
        0
    } else if v > hi {
        hi
    } else {
        v
    }
}

/// Whether the command's rectangle, clipped to a `w` by `h` canvas, covers
/// the pixel at column `x`, row `y`.
pub open spec fn covers(cmd: CmdV, w: int, h: int, x: int, y: int) -> bool {
    let x0 = spec_clamp(cmd.rect.x, w);
    let x1 = spec_clamp(spec_px_add(cmd.rect.x, cmd.rect.width), w);
    let y0 = spec_clamp(cmd.rect.y, h);
    let y1 = spec_clamp(spec_px_add(cmd.rect.y, cmd.rect.height), h);
    x0 <= x < x1 && y0 <= y < y1
}

/// The pixels after one command: covered pixels take the command's color,
/// all others are unchanged.
pub open spec fn spec_paint_cmd(px: Seq<Color>, w: int, h: int, cmd: CmdV) -> Seq<Color> {
    Seq::new(
        px.len(),
        |i: int|
            if covers(cmd, w, h, i % w, i / w) {
                cmd.color
            } else {
                px[i]
            },
    )
}

/// An all-white pixel buffer.
pub open spec fn spec_blank(n: int) -> Seq<Color> {
    Seq::new(n as nat, |i: int| white())
}

/// The pixels after a whole display list, executed in order over white:
/// the painter's algorithm, later commands overwriting earlier ones.
pub open spec fn spec_rasterize(cmds: Seq<CmdV>, w: int, h: int) -> Seq<Color>
    decreases cmds.len(),
{
    if cmds.len() == 0 {
        spec_blank(w * h)
    } else {
        spec_paint_cmd(spec_rasterize(cmds.drop_last(), w, h), w, h, cmds.last())
    }
}

/// Clipping stays inside the canvas: a covered pixel has its column in
/// `[0, w)` and its row in `[0, h)`, wherever the rectangle lies.
pub proof fn lemma_clip_in_bounds(cmd: CmdV, w: int, h: int, x: int, y: int)
    requires
        0 <= w,
        0 <= h,
    ensures
        covers(cmd, w, h, x, y) ==> 0 <= x < w && 0 <= y < h,
{
}

/// A pixel canvas: a row-major buffer of colors.
#[derive(Debug)]
pub struct Canvas {
    pub pixels: Vec<Color>,
    pub width: usize,
    pub height: usize,
}

/// The buffer holds exactly one color per pixel.
pub open spec fn canvas_wf(c: Canvas) -> bool {
    c.pixels@.len() == c.width * c.height
}

/// Clamp a pixel coordinate into `[0, hi]`.
fn clamp_to(v: i64, hi: usize) -> (r: usize)
    ensures
        r as int == spec_clamp(v as int, hi as int),
{
    if v <= 0 {
        0
    } else {
        let vu = v as u64;
        if vu >= hi as u64 {
            hi
        } else {
            vu as usize
        }
    }
}

impl Canvas {
    /// A fresh all-white canvas.
    pub fn new(width: usize, height: usize) -> (c: Canvas)
        requires
            width * height <= usize::MAX,
        ensures
            c.width == width,
            c.height == height,
            canvas_wf(c),
            c.pixels@ =~= spec_blank(width as int * height as int),
    {
        let white = Color { r: 255, g: 255, b: 255, a: 255 };
        let n = width * height;
        let pixels = vec![white; n];
        let c = Canvas { pixels, width, height };
        proof {
            assert(c.pixels@ =~= spec_blank(width as int * height as int));
        }
        c
    }

    /// Execute one command: overwrite every pixel its clipped rectangle
    /// covers with the command's color.
    pub fn paint_item(&mut self, item: &DisplayCommand)
        requires
            canvas_wf(*old(self)),
        ensures
            canvas_wf(*final(self)),
            final(self).width == old(self).width,
            final(self).height == old(self).height,
            final(self).pixels@ =~= spec_paint_cmd(
                old(self).pixels@,
                old(self).width as int,
                old(self).height as int,
                item@,
            ),
    {
        let DisplayCommand::SolidColor(color, rect) = item;
        let w = self.width;
        let h = self.height;
        let ghost cmd = item@;
        let ghost px0 = self.pixels@;
        // Clip the rectangle to the canvas bounds.
        let x0 = clamp_to(rect.x, w);
        let y0 = clamp_to(rect.y, h);
        let x1 = clamp_to(px_add(rect.x, rect.width), w);
        let y1 = clamp_to(px_add(rect.y, rect.height), h);
        let mut y = y0;
        while y < y1
            invariant
                y0 <= y <= if y1 > y0 {
                    y1
                } else {
                    y0
                },
                self.width == w,
                self.height == h,
                self.pixels@.len() == px0.len(),
                canvas_wf(*self),
                forall|i: int|
                    0 <= i < px0.len() ==> self.pixels@[i] == (if covers(
                        cmd,
                        w as int,
                        h as int,
                        i % (w as int),
                        i / (w as int),
                    ) && i / (w as int) < y {
                        cmd.color
                    } else {
                        px0[i]
                    }),
            decreases y1 - y,
        {
            let mut x = x0;
            while x < x1
                invariant
                    y0 <= y < y1,
                    x0 <= x <= if x1 > x0 {
                        x1
                    } else {
                        x0
                    },
                    self.width == w,
                    self.height == h,
                    self.pixels@.len() == px0.len(),
                    canvas_wf(*self),
                    forall|i: int|
                        0 <= i < px0.len() ==> self.pixels@[i] == (if covers(
                            cmd,
                            w as int,
                            h as int,
                            i % (w as int),
                            i / (w as int),
                        ) && (i / (w as int) < y || (i / (w as int) == y && i % (w as int)
                            < x)) {
                            cmd.color
                        } else {
                            px0[i]
                        }),
                decreases x1 - x,
            {
                let plen = self.pixels.len();
                proof {
                    assert(x < w && y < h);
                    assert(y * w + x < h * w) by (nonlinear_arith)
                        requires
                            0 <= x < w && 0 <= y < h,
                    ;
                    assert(h * w == w * h) by (nonlinear_arith);
                    assert(plen as int == w * h);
                    assert(y * w + x < plen);
                }
                let idx = y * w + x;
                proof {
                    lemma_fundamental_div_mod_converse(idx as int, w as int, y as int, x as int);
                    assert(idx as int % (w as int) == x as int);
                    assert(idx as int / (w as int) == y as int);
                    assert(covers(cmd, w as int, h as int, x as int, y as int));
                }
                self.pixels.set(idx, *color);
                proof {
                    assert forall|i: int|
                        #![trigger i / (w as int)]
                        0 <= i < px0.len() && i != idx implies !(i / (w as int) == y && i % (
                        w as int) == x) by {
                        vstd::arithmetic::div_mod::lemma_fundamental_div_mod(i, w as int);
                        assert(i == (w as int) * (i / (w as int)) + i % (w as int));
                        if i / (w as int) == y && i % (w as int) == x {
                            assert(i == (w as int) * (y as int) + (x as int));
                            assert((w as int) * (y as int) == (y as int) * (w as int))
                                by (nonlinear_arith);
                            assert(i == idx);
                        }
                    }
                }
                x = x + 1;
            }
            let ghost yprev = y as int;
            y = y + 1;
            proof {
                assert forall|i: int| 0 <= i < px0.len() implies self.pixels@[i] == (if covers(
                    cmd,
                    w as int,
                    h as int,
                    i % (w as int),
                    i / (w as int),
                ) && i / (w as int) < y {
                    cmd.color
                } else {
                    px0[i]
                }) by {
                    if covers(cmd, w as int, h as int, i % (w as int), i / (w as int)) && i / (
                    w as int) == yprev {
                        assert(x0 as int <= i % (w as int) < x1 as int);
                        if x1 > x0 {
                            assert(x == x1);
                        } else {
                            assert(false);
                        }
                    }
                }
            }
        }
        proof {
            assert forall|i: int| 0 <= i < px0.len() implies self.pixels@[i] == (if covers(
                cmd,
                w as int,
                h as int,
                i % (w as int),
                i / (w as int),
            ) {
                cmd.color
            } else {
                px0[i]
            }) by {
                if covers(cmd, w as int, h as int, i % (w as int), i / (w as int)) {
                    assert(i / (w as int) < y1);
                }
            }
            assert(self.pixels@ =~= spec_paint_cmd(px0, w as int, h as int, cmd));
        }
    }
}

/// Paint a laid-out box tree onto a fresh canvas of the given bounds.
pub fn paint(layout_root: &LayoutBox, bounds: Rect) -> (canvas: Canvas)
    requires
        0 <= bounds.width,
        0 <= bounds.height,
        bounds.width <= usize::MAX,
        bounds.height <= usize::MAX,
        bounds.width * bounds.height <= usize::MAX,
    ensures
        canvas.width as int == bounds.width as int,
        canvas.height as int == bounds.height as int,
        canvas_wf(canvas),
        canvas.pixels@ =~= spec_rasterize(
            spec_display_list(layout_root@),
            bounds.width as int,
            bounds.height as int,
        ),
{
    let display_list = build_display_list(layout_root);
    let ghost cmds = view_cmds(display_list@);
    let w = bounds.width as usize;
    let h = bounds.height as usize;
    let mut canvas = Canvas::new(w, h);
    let n = display_list.len();
    let mut i: usize = 0;
    proof {
        assert(cmds.take(0) =~= Seq::<CmdV>::empty());
    }
    while i < n
        invariant
            n == display_list.len(),
            i <= n,
            canvas.width == w,
            canvas.height == h,
            canvas_wf(canvas),
            canvas.pixels@ =~= spec_rasterize(cmds.take(i as int), w as int, h as int),
        decreases n - i,
    {
        canvas.paint_item(&display_list[i]);
        proof {
            assert(cmds.take(i + 1).drop_last() =~= cmds.take(i as int));
            assert(cmds.take(i + 1).last() == cmds[i as int]);
            assert(cmds[i as int] == display_list@[i as int]@);
        }
        i = i + 1;
    }
    proof {
        assert(cmds.take(n as int) =~= cmds);
    }
    canvas
}

} // verus!
