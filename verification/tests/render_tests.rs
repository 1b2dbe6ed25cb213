use void::render::frame::{frame_cells, label_anchor};
use void::graph::types::NodeType;
use void::render::label::{label_can_be_cut, node_label_text, search_line_text};
use void::render::node_renderer::{draw_priority, edge_glyph, node_highlight, NodeHighlight, bresenham_line, color_to_rgb, EdgeRenderer, NodeRenderer};
use void::render::themes::{Color, Theme};

#[test]
fn bresenham_horizontal() {
    assert_eq!(bresenham_line(0, 0, 3, 0), vec![(0, 0), (1, 0), (2, 0), (3, 0)]);
}

#[test]
fn bresenham_backwards_vertical() {
    assert_eq!(bresenham_line(2, 5, 2, 2), vec![(2, 5), (2, 4), (2, 3), (2, 2)]);
}

#[test]
fn bresenham_diagonal() {
    assert_eq!(bresenham_line(0, 0, 2, 2), vec![(0, 0), (1, 1), (2, 2)]);
    assert_eq!(bresenham_line(0, 0, -2, 2), vec![(0, 0), (-1, 1), (-2, 2)]);
}

#[test]
fn bresenham_single_point() {
    assert_eq!(bresenham_line(7, -3, 7, -3), vec![(7, -3)]);
}

#[test]
fn bresenham_shallow_slope() {
    assert_eq!(
        bresenham_line(0, 0, 4, 2),
        vec![(0, 0), (1, 0), (2, 1), (3, 1), (4, 2)]
    );
}

#[test]
fn bresenham_caps_at_501_points() {
    let pts = bresenham_line(0, 0, 1000, 0);
    assert_eq!(pts.len(), 501);
    assert_eq!(pts[500], (500, 0));
    let exact = bresenham_line(0, 0, 500, 0);
    assert_eq!(exact.len(), 501);
    assert_eq!(exact[500], (500, 0));
}

#[test]
fn bresenham_steps_are_adjacent() {
    let pts = bresenham_line(-3, 10, 17, -4);
    assert_eq!(pts[0], (-3, 10));
    assert_eq!(*pts.last().unwrap(), (17, -4));
    for w in pts.windows(2) {
        let dx = w[1].0 - w[0].0;
        let dy = w[1].1 - w[0].1;
        assert!(dx == 0 || dx == 1);
        assert!(dy == 0 || dy == -1);
        assert!(dx != 0 || dy != 0);
    }
}

#[test]
fn rgb_of_colours() {
    assert_eq!(color_to_rgb(Color::Rgb(1, 2, 3)), (1, 2, 3));
    assert_eq!(color_to_rgb(Color::Red), (255, 0, 0));
    assert_eq!(color_to_rgb(Color::Gray), (128, 128, 128));
    assert_eq!(color_to_rgb(Color::DarkGray), (64, 64, 64));
    assert_eq!(color_to_rgb(Color::Reset), (200, 200, 200));
    assert_eq!(color_to_rgb(Color::Indexed(9)), (200, 200, 200));
}

#[test]
fn glyphs_and_colours_of_node_types() {
    let r = NodeRenderer::new(Theme::void_dark());
    assert_eq!(r.node_glyph(&NodeType::Root), '\u{25C8}');
    assert_eq!(r.node_glyph(&NodeType::Cluster), '\u{2B21}');
    assert_eq!(r.node_color(&NodeType::Task), Color::Rgb(200, 100, 100));
    let n = NodeRenderer::new(Theme::nebula());
    assert_eq!(n.node_color(&NodeType::Task), Color::Rgb(220, 80, 80));
    let e = EdgeRenderer::new(Theme::nebula());
    assert_eq!(e.theme.edge_color, Color::Rgb(40, 40, 65));
}

#[test]
fn default_theme_is_void_dark() {
    assert_eq!(Theme::default(), Theme::void_dark());
    assert_eq!(Theme::void_dark().background, Color::Rgb(10, 10, 15));
    assert_ne!(Theme::void_dark(), Theme::nebula());
}

#[test]
fn short_label_shown_whole() {
    assert_eq!(node_label_text('\u{25CF}', "Modal Soul"), "\u{25CF} Modal Soul");
    // exactly 20 bytes stays whole
    assert_eq!(node_label_text('*', "abcdefghijklmnopqrst"), "* abcdefghijklmnopqrst");
}

#[test]
fn long_label_cut_after_seventeen_bytes() {
    assert_eq!(
        node_label_text('\u{266C}', "Feather (feat. Cise Starr & Akin)"),
        "\u{266C} Feather (feat. Ci..."
    );
    // 21 bytes is already cut
    assert_eq!(node_label_text('*', "abcdefghijklmnopqrstu"), "* abcdefghijklmnopq...");
}

#[test]
fn shown_label_fits_twenty_bytes() {
    // a cut through multi-byte characters lands on a character boundary
    let text = node_label_text('*', "ab\u{20AC}\u{20AC}\u{20AC}\u{20AC}\u{20AC}\u{20AC}\u{20AC}");
    assert_eq!(text, "* ab\u{20AC}\u{20AC}\u{20AC}\u{20AC}\u{20AC}...");
    let shown = &text[2..];
    assert_eq!(shown.len(), 20);
    for label in ["Hydeout Productions 1st Collection", "wasmtime component model", "Ibiza"] {
        let text = node_label_text('*', label);
        assert!(text[2..].len() <= 20);
    }
}

#[test]
fn frame_of_a_small_box() {
    let h = '\u{2500}';
    let v = '\u{2502}';
    assert_eq!(
        frame_cells(1, 3, 0, 2, 10, 10),
        vec![
            (1, 0, h), (1, 2, h), (2, 0, h), (2, 2, h), (3, 0, h), (3, 2, h),
            (1, 0, v), (3, 0, v), (1, 1, v), (3, 1, v), (1, 2, v), (3, 2, v),
            (1, 0, '\u{250C}'), (3, 0, '\u{2510}'), (1, 2, '\u{2514}'), (3, 2, '\u{2518}'),
        ]
    );
}

#[test]
fn frame_is_clipped_to_the_area() {
    assert!(frame_cells(-1, 1, -1, 1, 1, 1).is_empty());
    let h = '\u{2500}';
    assert_eq!(
        frame_cells(-1, 1, 0, 1, 2, 2),
        vec![(0, 0, h), (0, 1, h), (1, 0, h), (1, 1, h), (1, 0, '\u{2502}'), (1, 1, '\u{2502}'), (1, 0, '\u{2510}'), (1, 1, '\u{2518}')]
    );
    for (x, y, _) in frame_cells(-5, 30, -4, 12, 20, 8) {
        assert!(x < 20 && y < 8);
    }
}

#[test]
fn frame_label_anchor() {
    assert_eq!(label_anchor(1, 0, 10, 10), Some((3, 0)));
    assert_eq!(label_anchor(-2, 4, 10, 10), Some((0, 4)));
    assert_eq!(label_anchor(8, 0, 10, 10), None);
    assert_eq!(label_anchor(-3, 0, 10, 10), None);
    assert_eq!(label_anchor(0, 10, 10, 10), None);
}

#[test]
fn labels_that_can_be_cut() {
    assert!(label_can_be_cut("short"));
    assert!(label_can_be_cut("Feather (feat. Cise Starr & Akin)"));
    // byte 17 falls inside a two-byte character
    assert!(!label_can_be_cut("abcdefghijklmnop\u{e9}xyzw"));
    // exactly 20 bytes is never cut
    assert!(label_can_be_cut("abcdefghijklmnop\u{e9}xy"));
}

#[test]
fn highlight_precedence_and_draw_order() {
    assert_eq!(node_highlight(true, true, true), NodeHighlight::Selected);
    assert_eq!(node_highlight(false, true, true), NodeHighlight::Hovered);
    assert_eq!(node_highlight(false, false, true), NodeHighlight::SearchHit);
    assert_eq!(node_highlight(false, false, false), NodeHighlight::Plain);
    assert_eq!(draw_priority(NodeHighlight::Selected), 3);
    assert_eq!(draw_priority(NodeHighlight::Hovered), 2);
    assert_eq!(draw_priority(NodeHighlight::SearchHit), 1);
    assert_eq!(draw_priority(NodeHighlight::Plain), 0);
}

#[test]
fn search_line_drops_the_slash() {
    assert_eq!(search_line_text("/tmux"), "tmux");
    assert_eq!(search_line_text("tmux"), "tmux");
    assert_eq!(search_line_text("/"), "");
    assert_eq!(search_line_text(""), "");
}

#[test]
fn bresenham_length_major_axis_and_half_cell() {
    let pts = bresenham_line(0, 0, 7, 3);
    assert_eq!(pts.len(), 8);
    for k in 0..pts.len() {
        let (x, y) = pts[k];
        assert_eq!(x, k as i32);
        // within half a cell of the ideal line: |y*7 - x*3| * 2 <= 7
        assert!((y * 7 - x * 3).abs() * 2 <= 7);
    }
    let pts = bresenham_line(0, 0, -2, -9);
    assert_eq!(pts.len(), 10);
    for k in 1..pts.len() {
        assert_ne!(pts[k].1, pts[k - 1].1);
    }
}

#[test]
fn edge_glyph_follows_the_longer_axis() {
    assert_eq!(edge_glyph(0, 0, 5, 2), '\u{2500}');
    assert_eq!(edge_glyph(0, 0, -5, 2), '\u{2500}');
    assert_eq!(edge_glyph(0, 0, 2, -5), '\u{2502}');
    assert_eq!(edge_glyph(3, 3, 6, 6), '\u{2502}');
    assert_eq!(edge_glyph(1, 1, 1, 1), '\u{2502}');
}
