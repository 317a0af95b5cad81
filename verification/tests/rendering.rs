use tinyrender::css::parser::parse as css_parse;
use tinyrender::css::Color;
use tinyrender::html::parse as html_parse;
use tinyrender::layout::{build_layout_tree, layout_tree, BoxType, Dimensions, EdgeSizes,
    LayoutBox, LayoutError, Rect};
use tinyrender::painting::{paint, Canvas, DisplayCommand};
use tinyrender::px::{px_add, px_sub, PX_MAX};
use tinyrender::style::style_tree;

fn viewport(width: i64, height: i64) -> Dimensions {
    let mut d = Dimensions::default();
    d.content.width = width;
    d.content.height = height;
    d
}

fn layout_of(html: &str, css: &str, width: i64) -> LayoutBox {
    let doc = html_parse(html.to_string()).expect("markup should parse");
    let sheet = css_parse(css.to_string()).expect("stylesheet should parse");
    let styled = style_tree(&doc, &sheet);
    layout_tree(&styled, viewport(width, 600)).expect("layout should succeed")
}

#[test]
fn geometry_boxes_compose() {
    let d = Dimensions {
        content: Rect { x: 10, y: 20, width: 100, height: 50 },
        padding: EdgeSizes { left: 1, right: 2, top: 3, bottom: 4 },
        border: EdgeSizes { left: 5, right: 6, top: 7, bottom: 8 },
        margin: EdgeSizes { left: 9, right: 10, top: 11, bottom: 12 },
    };
    assert_eq!(d.padding_box(), d.content.expanded_by(d.padding));
    assert_eq!(d.border_box(), d.padding_box().expanded_by(d.border));
    assert_eq!(d.margin_box(), d.border_box().expanded_by(d.margin));
    assert_eq!(d.padding_box(), Rect { x: 9, y: 17, width: 103, height: 57 });
    assert_eq!(d.margin_box(), Rect { x: -5, y: -1, width: 133, height: 95 });
}

#[test]
fn auto_width_fills_container() {
    let root = layout_of("<div></div>", "div { display: block; }", 200);
    assert_eq!(root.dimensions.content.width, 200);
    assert_eq!(root.dimensions.content.x, 0);
}

#[test]
fn auto_margins_split_evenly() {
    let root = layout_of(
        "<div></div>",
        "div { display: block; margin-left: auto; margin-right: auto; width: 100px; }",
        300,
    );
    assert_eq!(root.dimensions.content.width, 100);
    assert_eq!(root.dimensions.margin.left, 100);
    assert_eq!(root.dimensions.margin.right, 100);
    assert_eq!(root.dimensions.content.x, 100);
}

#[test]
fn odd_underflow_gives_extra_pixel_to_right_margin() {
    let root = layout_of(
        "<div></div>",
        "div { display: block; margin-left: auto; margin-right: auto; width: 100px; }",
        301,
    );
    assert_eq!(root.dimensions.margin.left, 100);
    assert_eq!(root.dimensions.margin.right, 101);
}

#[test]
fn overconstrained_margin_right_absorbs() {
    let root = layout_of(
        "<div></div>",
        "div { display: block; width: 150px; margin-left: 10px; margin-right: 10px; }",
        100,
    );
    // 10 + 150 + margin-right must equal 100: the right margin goes negative.
    assert_eq!(root.dimensions.content.width, 150);
    assert_eq!(root.dimensions.margin.left, 10);
    assert_eq!(root.dimensions.margin.right, -60);
}

#[test]
fn block_parts_sum_to_container() {
    let root = layout_of(
        "<div></div>",
        "div { display: block; width: 50px; margin-left: 7px; padding-left: 3px; \
         padding-right: 4px; border-left-width: 2px; border-right-width: 1px; }",
        120,
    );
    let d = &root.dimensions;
    let sum = d.margin.left + d.border.left + d.padding.left + d.content.width + d.padding.right
        + d.border.right + d.margin.right;
    assert_eq!(sum, 120);
    assert_eq!(d.content.x, 12);
}

#[test]
fn heights_accumulate_from_children() {
    let root = layout_of(
        "<div><p>a</p><p>b</p></div>",
        "div { display: block; } p { display: block; height: 30px; }",
        200,
    );
    assert_eq!(root.dimensions.content.height, 60);
}

#[test]
fn explicit_height_overrides() {
    let root = layout_of(
        "<div><p>a</p></div>",
        "div { display: block; height: 45px; } p { display: block; height: 30px; }",
        200,
    );
    assert_eq!(root.dimensions.content.height, 45);
}

#[test]
fn root_display_none_is_an_error() {
    let doc = html_parse("<div></div>".to_string()).expect("parse");
    let sheet = css_parse("div { display: none; }".to_string()).expect("parse");
    let styled = style_tree(&doc, &sheet);
    assert_eq!(layout_tree(&styled, viewport(100, 100)).unwrap_err(), LayoutError::RootDisplayNone);
}

#[test]
fn display_none_children_are_dropped() {
    let doc = html_parse("<div><p>a</p><p>b</p></div>".to_string()).expect("parse");
    let sheet =
        css_parse("div { display: block; } p { display: none; }".to_string()).expect("parse");
    let styled = style_tree(&doc, &sheet);
    let root = build_layout_tree(&styled).expect("build");
    assert_eq!(root.children.len(), 0);
}

#[test]
fn anonymous_boxes_wrap_inline_runs() {
    // Children [inline, inline, block, inline] must become exactly three
    // boxes: one anonymous holding two inlines, the block, and one
    // anonymous holding the last inline.
    let doc = html_parse(
        "<div><span>a</span><span>b</span><p>c</p><span>d</span></div>".to_string(),
    )
    .expect("parse");
    let sheet =
        css_parse("div { display: block; } p { display: block; }".to_string()).expect("parse");
    let styled = style_tree(&doc, &sheet);
    let root = build_layout_tree(&styled).expect("build");
    assert_eq!(root.children.len(), 3);
    match &root.children[0].box_type {
        BoxType::AnonymousBlock => assert_eq!(root.children[0].children.len(), 2),
        _ => panic!("first child should be an anonymous box"),
    }
    match &root.children[1].box_type {
        BoxType::BlockNode(_) => {},
        _ => panic!("second child should be the block"),
    }
    match &root.children[2].box_type {
        BoxType::AnonymousBlock => assert_eq!(root.children[2].children.len(), 1),
        _ => panic!("third child should be an anonymous box"),
    }
    assert!(root.children[0].get_style_node().is_none());
    assert!(root.children[1].get_style_node().is_some());
}

#[test]
fn inline_parent_keeps_children_flat() {
    let doc =
        html_parse("<div><span>a</span><span>b</span></div>".to_string()).expect("parse");
    let sheet = css_parse("".to_string()).expect("parse");
    let styled = style_tree(&doc, &sheet);
    let root = build_layout_tree(&styled).expect("build");
    // An inline parent is its own inline container: no anonymous wrappers.
    assert_eq!(root.children.len(), 2);
}

fn pixel(canvas: &Canvas, x: usize, y: usize) -> Color {
    canvas.pixels[y * canvas.width + x]
}

#[test]
fn end_to_end_red_rectangle() {
    // The scenario needs `display: block`: the default display is inline,
    // and inline boxes are not dimensioned by this block-only solver.
    let doc = html_parse("<div class=\"a\"><span>x</span></div>".to_string()).expect("parse");
    let sheet = css_parse(
        ".a { display: block; background: #ff0000; width: 100px; height: 50px; }".to_string(),
    )
    .expect("parse");
    let styled = style_tree(&doc, &sheet);
    let root = layout_tree(&styled, viewport(800, 600)).expect("layout");
    let canvas = paint(&root, viewport(800, 600).content);
    assert_eq!(canvas.width, 800);
    assert_eq!(canvas.height, 600);
    let red = Color { r: 255, g: 0, b: 0, a: 255 };
    let white = Color { r: 255, g: 255, b: 255, a: 255 };
    for y in 0..600 {
        for x in 0..800 {
            let expected = if x < 100 && y < 50 { red } else { white };
            assert_eq!(pixel(&canvas, x, y), expected);
        }
    }
}

#[test]
fn rasterizer_clips_to_canvas() {
    // A rectangle starting 10 pixels left of the canvas and 30 wide paints
    // exactly columns 0 through 19 of a 20-pixel-wide canvas.
    let mut canvas = Canvas::new(20, 10);
    let blue = Color { r: 0, g: 0, b: 255, a: 255 };
    let cmd = DisplayCommand::SolidColor(blue, Rect { x: -10, y: 0, width: 30, height: 5 });
    canvas.paint_item(&cmd);
    let white = Color { r: 255, g: 255, b: 255, a: 255 };
    for y in 0..10 {
        for x in 0..20 {
            let expected = if y < 5 { blue } else { white };
            assert_eq!(pixel(&canvas, x, y), expected);
        }
    }
}

#[test]
fn later_commands_overwrite_earlier() {
    let mut canvas = Canvas::new(4, 4);
    let red = Color { r: 255, g: 0, b: 0, a: 255 };
    let green = Color { r: 0, g: 255, b: 0, a: 255 };
    canvas.paint_item(&DisplayCommand::SolidColor(red, Rect { x: 0, y: 0, width: 4, height: 4 }));
    canvas.paint_item(&DisplayCommand::SolidColor(
        green,
        Rect { x: 1, y: 1, width: 2, height: 2 },
    ));
    assert_eq!(pixel(&canvas, 0, 0), red);
    assert_eq!(pixel(&canvas, 1, 1), green);
    assert_eq!(pixel(&canvas, 2, 2), green);
    assert_eq!(pixel(&canvas, 3, 3), red);
}

#[test]
fn borders_paint_four_edges() {
    let root = layout_of(
        "<div></div>",
        "div { display: block; width: 10px; height: 10px; border-color: #00ff00; \
         border-left-width: 1px; border-right-width: 1px; border-top-width: 1px; \
         border-bottom-width: 1px; }",
        20,
    );
    let canvas = paint(&root, Rect { x: 0, y: 0, width: 12, height: 12 });
    let green = Color { r: 0, g: 255, b: 0, a: 255 };
    let white = Color { r: 255, g: 255, b: 255, a: 255 };
    // Border box is 12x12 at the origin; the interior has no background.
    assert_eq!(pixel(&canvas, 0, 0), green);
    assert_eq!(pixel(&canvas, 11, 0), green);
    assert_eq!(pixel(&canvas, 0, 11), green);
    assert_eq!(pixel(&canvas, 11, 11), green);
    assert_eq!(pixel(&canvas, 5, 0), green);
    assert_eq!(pixel(&canvas, 0, 5), green);
    assert_eq!(pixel(&canvas, 5, 5), white);
}

#[test]
fn saturating_pixel_arithmetic_clamps() {
    assert_eq!(px_add(PX_MAX, PX_MAX), PX_MAX);
    assert_eq!(px_sub(-PX_MAX, PX_MAX), -PX_MAX);
    assert_eq!(px_add(2, 3), 5);
    assert_eq!(px_sub(2, 3), -1);
}
