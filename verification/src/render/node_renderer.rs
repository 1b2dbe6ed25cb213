use vstd::prelude::*;
use crate::graph::types::NodeType;
use crate::render::themes::{Color, Theme};

verus! {

/// Draws nodes: the glyph and colour of each node type.
pub struct NodeRenderer {
    pub theme: Theme,
}

/// The glyph of each node type.
pub open spec fn glyph_of(t: NodeType) -> char {
    match t {
        NodeType::Root => '\u{25C8}',
        NodeType::Project => '\u{25C6}',
        NodeType::Task => '\u{25A0}',
        NodeType::Note => '\u{25CF}',
        NodeType::File => '\u{25C7}',
        NodeType::Person => '\u{25C9}',
        NodeType::Music => '\u{266B}',
        NodeType::Artist => '\u{266A}',
        NodeType::Album => '\u{25A3}',
        NodeType::Song => '\u{266C}',
        NodeType::Bookmark => '\u{2605}',
        NodeType::Knowledge => '\u{25CE}',
        NodeType::Event => '\u{25CB}',
        NodeType::Cluster => '\u{2B21}',
    }
}

/// The colour that a theme gives each node type.
pub open spec fn color_of(theme: Theme, t: NodeType) -> Color {
    match t {
        NodeType::Root => theme.node_colors.root,
        NodeType::Project => theme.node_colors.project,
        NodeType::Task => theme.node_colors.task,
        NodeType::Note => theme.node_colors.note,
        NodeType::File => theme.node_colors.file,
        NodeType::Person => theme.node_colors.person,
        NodeType::Music => theme.node_colors.music,
        NodeType::Artist => theme.node_colors.artist,
        NodeType::Album => theme.node_colors.album,
        NodeType::Song => theme.node_colors.song,
        NodeType::Bookmark => theme.node_colors.bookmark,
        NodeType::Knowledge => theme.node_colors.knowledge,
        NodeType::Event => theme.node_colors.event,
        NodeType::Cluster => theme.node_colors.cluster,
    }
}

/// Each node type is drawn with a glyph of its own: two different types never
/// share a glyph, so the glyph tells the type.
pub proof fn law_glyphs_tell_types_apart(s: NodeType, t: NodeType)
    ensures
        s != t ==> glyph_of(s) != glyph_of(t),
{
}

/// The glyphs the node types are drawn with.
pub proof fn law_node_glyph_table()
    ensures
        glyph_of(NodeType::Root) == '\u{25C8}',
        glyph_of(NodeType::Project) == '\u{25C6}',
        glyph_of(NodeType::Task) == '\u{25A0}',
        glyph_of(NodeType::Note) == '\u{25CF}',
        glyph_of(NodeType::File) == '\u{25C7}',
        glyph_of(NodeType::Person) == '\u{25C9}',
        glyph_of(NodeType::Music) == '\u{266B}',
        glyph_of(NodeType::Artist) == '\u{266A}',
        glyph_of(NodeType::Album) == '\u{25A3}',
        glyph_of(NodeType::Song) == '\u{266C}',
        glyph_of(NodeType::Bookmark) == '\u{2605}',
        glyph_of(NodeType::Knowledge) == '\u{25CE}',
        glyph_of(NodeType::Event) == '\u{25CB}',
        glyph_of(NodeType::Cluster) == '\u{2B21}',
{
}

/// Each node type is drawn in the colour that the theme gives that type.
pub proof fn law_node_color_from_theme(theme: Theme)
    ensures
        color_of(theme, NodeType::Root) == theme.node_colors.root,
        color_of(theme, NodeType::Project) == theme.node_colors.project,
        color_of(theme, NodeType::Task) == theme.node_colors.task,
        color_of(theme, NodeType::Note) == theme.node_colors.note,
        color_of(theme, NodeType::File) == theme.node_colors.file,
        color_of(theme, NodeType::Person) == theme.node_colors.person,
        color_of(theme, NodeType::Music) == theme.node_colors.music,
        color_of(theme, NodeType::Artist) == theme.node_colors.artist,
        color_of(theme, NodeType::Album) == theme.node_colors.album,
        color_of(theme, NodeType::Song) == theme.node_colors.song,
        color_of(theme, NodeType::Bookmark) == theme.node_colors.bookmark,
        color_of(theme, NodeType::Knowledge) == theme.node_colors.knowledge,
        color_of(theme, NodeType::Event) == theme.node_colors.event,
        color_of(theme, NodeType::Cluster) == theme.node_colors.cluster,
{
}

impl NodeRenderer {
    pub fn new(theme: Theme) -> (r: Self)
        ensures
            r.theme == theme,
    {
        Self { theme }
    }

    pub fn node_glyph(&self, node_type: &NodeType) -> (c: char)
        ensures
            c == glyph_of(*node_type),
    {
        match node_type {
            NodeType::Root => '\u{25C8}',
            NodeType::Project => '\u{25C6}',
            NodeType::Task => '\u{25A0}',
            NodeType::Note => '\u{25CF}',
            NodeType::File => '\u{25C7}',
            NodeType::Person => '\u{25C9}',
            NodeType::Music => '\u{266B}',
            NodeType::Artist => '\u{266A}',
            NodeType::Album => '\u{25A3}',
            NodeType::Song => '\u{266C}',
            NodeType::Bookmark => '\u{2605}',
            NodeType::Knowledge => '\u{25CE}',
            NodeType::Event => '\u{25CB}',
            NodeType::Cluster => '\u{2B21}',
        }
    }

    pub fn node_color(&self, node_type: &NodeType) -> (c: Color)
        ensures
            c == color_of(self.theme, *node_type),
    {
        match node_type {
            NodeType::Root => self.theme.node_colors.root,
            NodeType::Project => self.theme.node_colors.project,
            NodeType::Task => self.theme.node_colors.task,
            NodeType::Note => self.theme.node_colors.note,
            NodeType::File => self.theme.node_colors.file,
            NodeType::Person => self.theme.node_colors.person,
            NodeType::Music => self.theme.node_colors.music,
            NodeType::Artist => self.theme.node_colors.artist,
            NodeType::Album => self.theme.node_colors.album,
            NodeType::Song => self.theme.node_colors.song,
            NodeType::Bookmark => self.theme.node_colors.bookmark,
            NodeType::Knowledge => self.theme.node_colors.knowledge,
            NodeType::Event => self.theme.node_colors.event,
            NodeType::Cluster => self.theme.node_colors.cluster,
        }
    }
}

/// How a node is highlighted: selected before hovered before search hit.
#[derive(Debug, Clone, Copy, PartialEq, Eq, Structural)]
pub enum NodeHighlight {
    Selected,
    Hovered,
    SearchHit,
    Plain,
}

/// The highlight of a node: the first that applies of selected, hovered and
/// search hit.
pub fn node_highlight(selected: bool, hovered: bool, search_result: bool) -> (h: NodeHighlight)
    ensures
        h == (if selected {
            NodeHighlight::Selected
        } else if hovered {
            NodeHighlight::Hovered
        } else if search_result {
            NodeHighlight::SearchHit
        } else {
            NodeHighlight::Plain
        }),
{
    if selected {
        NodeHighlight::Selected
    } else if hovered {
        NodeHighlight::Hovered
    } else if search_result {
        NodeHighlight::SearchHit
    } else {
        NodeHighlight::Plain
    }
}

/// The drawing order of a highlight: nodes are drawn by increasing priority,
/// so the selected node ends on top, then the hovered one, then search hits.
pub fn draw_priority(h: NodeHighlight) -> (p: u8)
    ensures
        p == (match h {
            NodeHighlight::Selected => 3u8,
            NodeHighlight::Hovered => 2u8,
            NodeHighlight::SearchHit => 1u8,
            NodeHighlight::Plain => 0u8,
        }),
{
    match h {
        NodeHighlight::Selected => 3,
        NodeHighlight::Hovered => 2,
        NodeHighlight::SearchHit => 1,
        NodeHighlight::Plain => 0,
    }
}

/// Draws edges in the theme's edge colour.
pub struct EdgeRenderer {
    pub theme: Theme,
}

impl EdgeRenderer {
    pub fn new(theme: Theme) -> (r: Self)
        ensures
            r.theme == theme,
    {
        Self { theme }
    }
}

/// The glyph an edge from `(x0, y0)` to `(x1, y1)` is drawn with: a
/// horizontal line when it runs further across than up or down, a vertical
/// line otherwise.
pub open spec fn edge_glyph_of(x0: int, y0: int, x1: int, y1: int) -> char {
    let dx = if x1 - x0 < 0 { x0 - x1 } else { x1 - x0 };
    let dy = if y1 - y0 < 0 { y0 - y1 } else { y1 - y0 };
    if dx > dy {
        '\u{2500}'
    } else {
        '\u{2502}'
    }
}

/// The glyph of the cells of an edge (see `edge_glyph_of`).
pub fn edge_glyph(x0: i32, y0: i32, x1: i32, y1: i32) -> (c: char)
    requires
        i32::MIN < x1 - x0 <= i32::MAX,
        i32::MIN < y1 - y0 <= i32::MAX,
    ensures
        c == edge_glyph_of(x0 as int, y0 as int, x1 as int, y1 as int),
{
    let dx = x1 - x0;
    let dy = y1 - y0;
    let ax = if dx < 0 { -dx } else { dx };
    let ay = if dy < 0 { -dy } else { dy };
    if ax > ay {
        '\u{2500}'
    } else {
        '\u{2502}'
    }
}

/// The red, green and blue components that a colour is drawn with: its own
/// for an RGB colour, the usual values for eight named colours, and a light
/// grey for every other colour.
pub open spec fn rgb_of(color: Color) -> (u8, u8, u8) {
    match color {
        Color::Rgb(r, g, b) => (r, g, b),
        Color::Red => (255, 0, 0),
        Color::Green => (0, 255, 0),
        Color::Blue => (0, 0, 255),
        Color::Yellow => (255, 255, 0),
        Color::Cyan => (0, 255, 255),
        Color::Magenta => (255, 0, 255),
        Color::White => (255, 255, 255),
        Color::Gray => (128, 128, 128),
        Color::DarkGray => (64, 64, 64),
        _ => (200, 200, 200),
    }
}

pub fn color_to_rgb(color: Color) -> (c: (u8, u8, u8))
    ensures
        c == rgb_of(color),
{
    match color {
        Color::Rgb(r, g, b) => (r, g, b),
        Color::Red => (255, 0, 0),
        Color::Green => (0, 255, 0),
        Color::Blue => (0, 0, 255),
        Color::Yellow => (255, 255, 0),
        Color::Cyan => (0, 255, 255),
        Color::Magenta => (255, 0, 255),
        Color::White => (255, 255, 255),
        Color::Gray => (128, 128, 128),
        Color::DarkGray => (64, 64, 64),
        _ => (200, 200, 200),
    }
}

pub open spec fn abs_int(v: int) -> int {
    if v < 0 {
        -v
    } else {
        v
    }
}

/// The direction in which a coordinate moves from `a` towards `b`.
pub open spec fn step_sign(a: int, b: int) -> int {
    if a < b {
        1
    } else {
        -1
    }
}

/// `v` lies between `a` and `b`, both included.
pub open spec fn between(v: int, a: int, b: int) -> bool {
    (a <= v <= b) || (b <= v <= a)
}

/// Bresenham's decision from point `a` to the next point `b`: with `(cx, cy)`
/// the distances of `a` from the start and `e = dx - dy + cy*dx - cx*dy` its
/// error term, x moves exactly when `2e > -dy` and y moves exactly when
/// `2e < dx`.
pub open spec fn bresenham_next(x0: int, y0: int, x1: int, y1: int, a: (i32, i32), b: (i32, i32)) -> bool {
    let dx = abs_int(x1 - x0);
    let dy = abs_int(y1 - y0);
    let cx = abs_int(a.0 - x0);
    let cy = abs_int(a.1 - y0);
    let e = dx - dy + cy * dx - cx * dy;
    &&& (b.0 != a.0 <==> 2 * e > -dy)
    &&& (b.1 != a.1 <==> 2 * e < dx)
}

/// Point `b` follows point `a`: it moves by one in x, in y or in both,
/// towards the end, as Bresenham's decision says.
pub open spec fn bresenham_step_ok(x0: int, y0: int, x1: int, y1: int, a: (i32, i32), b: (i32, i32)) -> bool {
    let mx = b.0 - a.0;
    let my = b.1 - a.1;
    &&& (mx == 0 || mx == step_sign(x0, x1))
    &&& (my == 0 || my == step_sign(y0, y1))
    &&& (mx != 0 || my != 0)
    &&& bresenham_next(x0, y0, x1, y1, a, b)
}

/// Properties of the points drawn so far: they start at `(x0, y0)`; each lies
/// in the box of the two ends and close to the ideal line; each next point
/// moves by one in x, in y or in both, towards the end, as Bresenham's
/// decision says; none is the end point.
pub open spec fn bresenham_prefix(x0: int, y0: int, x1: int, y1: int, p: Seq<(i32, i32)>) -> bool {
    let dx = abs_int(x1 - x0);
    let dy = abs_int(y1 - y0);
    &&& p.len() > 0 ==> p[0] == (x0 as i32, y0 as i32)
    &&& forall|k: int|
        0 <= k < p.len() ==> between(#[trigger] p[k].0 as int, x0, x1) && between(
            p[k].1 as int,
            y0,
            y1,
        )
    &&& forall|k: int|
        0 <= k < p.len() ==> {
            let cx = abs_int(#[trigger] p[k].0 - x0);
            let cy = abs_int(p[k].1 - y0);
            -(2 * dx + dy) <= 2 * (cy * dx - cx * dy) <= dx + 2 * dy
        }
    &&& forall|k: int|
        0 <= k < p.len() - 1 ==> #[trigger] bresenham_step_ok(x0, y0, x1, y1, p[k], p[k + 1])
}

/// The points of a line from `(x0, y0)` towards `(x1, y1)` by Bresenham's
/// method: the first point is the start; each next point follows from the
/// one before by Bresenham's decision (`bresenham_next`), moving by one in x,
/// in y or in both, always towards the end; every point lies in the box of the
/// two ends and close to the ideal line; the walk stops at the end point, or
/// after 501 points. The start and the decision fix every point.
pub open spec fn bresenham_points(x0: int, y0: int, x1: int, y1: int, p: Seq<(i32, i32)>) -> bool {
    &&& 1 <= p.len() <= 501
    &&& bresenham_prefix(x0, y0, x1, y1, p)
    &&& p.len() < 501 ==> p.last() == (x1 as i32, y1 as i32)
    &&& forall|k: int| 0 <= k < p.len() - 1 ==> #[trigger] p[k] != (x1 as i32, y1 as i32)
}

/// Appending a point keeps the properties of the points drawn so far, when
/// the point lies in the box and close to the line, and either starts the
/// walk or follows the last point by one step of Bresenham's decision towards
/// the end.
proof fn lemma_prefix_push(x0: int, y0: int, x1: int, y1: int, p: Seq<(i32, i32)>, q: (i32, i32))
    requires
        bresenham_prefix(x0, y0, x1, y1, p),
        p.len() == 0 ==> q == (x0 as i32, y0 as i32),
        between(q.0 as int, x0, x1),
        between(q.1 as int, y0, y1),
        ({
            let dx = abs_int(x1 - x0);
            let dy = abs_int(y1 - y0);
            let cx = abs_int(q.0 - x0);
            let cy = abs_int(q.1 - y0);
            -(2 * dx + dy) <= 2 * (cy * dx - cx * dy) <= dx + 2 * dy
        }),
        p.len() > 0 ==> bresenham_step_ok(x0, y0, x1, y1, p.last(), q),
    ensures
        bresenham_prefix(x0, y0, x1, y1, p.push(q)),
{
    let r = p.push(q);
    let dx = abs_int(x1 - x0);
    let dy = abs_int(y1 - y0);
    assert forall|k: int| 0 <= k < r.len() implies between(#[trigger] r[k].0 as int, x0, x1)
        && between(r[k].1 as int, y0, y1) by {
        if k < p.len() {
            assert(r[k] == p[k]);
        }
    }
    assert forall|k: int| 0 <= k < r.len() implies {
        let cxx = abs_int(#[trigger] r[k].0 - x0);
        let cyy = abs_int(r[k].1 - y0);
        -(2 * dx + dy) <= 2 * (cyy * dx - cxx * dy) <= dx + 2 * dy
    } by {
        if k < p.len() {
            assert(r[k] == p[k]);
        }
    }
    assert forall|k: int| 0 <= k < r.len() - 1 implies #[trigger] bresenham_step_ok(
        x0,
        y0,
        x1,
        y1,
        r[k],
        r[k + 1],
    ) by {
        assert(r[k] == p[k]);
        if k < p.len() - 1 {
            assert(r[k + 1] == p[k + 1]);
        } else {
            assert(r[k + 1] == q);
        }
    }
}

/// The number of steps of a line: its longer extent.
pub open spec fn line_steps(x0: int, y0: int, x1: int, y1: int) -> int {
    if abs_int(x1 - x0) >= abs_int(y1 - y0) {
        abs_int(x1 - x0)
    } else {
        abs_int(y1 - y0)
    }
}

/// How far point `a` lies off the ideal line, measured along the shorter axis
/// and scaled by the line's steps: `cy*dx - cx*dy` for its distances `cx`,
/// `cy` from the start.
pub open spec fn line_error(x0: int, y0: int, x1: int, y1: int, a: (i32, i32)) -> int {
    abs_int(a.1 - y0) * abs_int(x1 - x0) - abs_int(a.0 - x0) * abs_int(y1 - y0)
}

/// The point at place `k` of the walk is `k` steps along the longer axis (along
/// both when they are equal) and within half a cell of the ideal line.
proof fn lemma_bresenham_walk(x0: int, y0: int, x1: int, y1: int, p: Seq<(i32, i32)>, k: int)
    requires
        bresenham_prefix(x0, y0, x1, y1, p),
        0 <= k < p.len(),
        i32::MIN <= x0 <= i32::MAX,
        i32::MIN <= y0 <= i32::MAX,
        i32::MIN <= x1 <= i32::MAX,
        i32::MIN <= y1 <= i32::MAX,
    ensures
        abs_int(x1 - x0) >= abs_int(y1 - y0) ==> abs_int(p[k].0 - x0) == k,
        abs_int(y1 - y0) >= abs_int(x1 - x0) ==> abs_int(p[k].1 - y0) == k,
        -line_steps(x0, y0, x1, y1) <= 2 * line_error(x0, y0, x1, y1, p[k]) <= line_steps(x0, y0, x1, y1),
    decreases k,
{
    let dx = abs_int(x1 - x0);
    let dy = abs_int(y1 - y0);
    if k > 0 {
        let j = k - 1;
        lemma_bresenham_walk(x0, y0, x1, y1, p, j);
        assert(bresenham_step_ok(x0, y0, x1, y1, p[j], p[j + 1]));
        let a = p[j];
        let b = p[k];
        assert(between(a.0 as int, x0, x1) && between(a.1 as int, y0, y1));
        assert(between(b.0 as int, x0, x1) && between(b.1 as int, y0, y1));
        let cx = abs_int(a.0 - x0);
        let cy = abs_int(a.1 - y0);
        let f = cy * dx - cx * dy;
        let e = dx - dy + f;
        let mx: int = if b.0 != a.0 { 1 } else { 0 };
        let my: int = if b.1 != a.1 { 1 } else { 0 };
        assert(abs_int(b.0 - x0) == cx + mx);
        assert(abs_int(b.1 - y0) == cy + my);
        let fb = f + (if my == 1 { dx } else { 0 }) - (if mx == 1 { dy } else { 0 });
        assert((cy + my) * dx - (cx + mx) * dy == fb) by (nonlinear_arith)
            requires
                f == cy * dx - cx * dy,
                fb == f + (if my == 1 { dx } else { 0 }) - (if mx == 1 { dy } else { 0 }),
                mx == 0 || mx == 1,
                my == 0 || my == 1,
        ;
        assert(line_error(x0, y0, x1, y1, b) == fb);
        assert(mx == 1 <==> 2 * e > -dy);
        assert(my == 1 <==> 2 * e < dx);
        if dx == dy && dx > 0 {
            assert(f == (cy - cx) * dx) by (nonlinear_arith)
                requires
                    f == cy * dx - cx * dy,
                    dx == dy,
            ;
            assert(2 * f != -dx && 2 * f != dx) by (nonlinear_arith)
                requires
                    f == (cy - cx) * dx,
                    dx > 0,
            ;
        }
        if dx >= dy {
            assert(-dx <= 2 * f <= dx);
            if dx > 0 {
                assert(mx == 1);
            } else {
                assert(dy == 0);
            }
            if my == 1 {
                assert(2 * fb == 2 * f + 2 * dx - 2 * dy);
            } else {
                assert(2 * fb == 2 * f - 2 * dy || dx == 0);
            }
            assert(-dx <= 2 * fb <= dx);
        } else {
            assert(-dy <= 2 * f <= dy);
            assert(my == 1);
            if mx == 1 {
                assert(2 * fb == 2 * f + 2 * dx - 2 * dy);
            } else {
                assert(2 * fb == 2 * f + 2 * dx);
            }
            assert(-dy <= 2 * fb <= dy);
        }
    } else {
        assert(p[0] == (x0 as i32, y0 as i32));
        assert(line_error(x0, y0, x1, y1, p[0]) == 0) by (nonlinear_arith)
            requires
                line_error(x0, y0, x1, y1, p[0]) == abs_int(p[0].1 - y0) * abs_int(x1 - x0) - abs_int(
                    p[0].0 - x0,
                ) * abs_int(y1 - y0),
                p[0].0 == x0,
                p[0].1 == y0,
        ;
    }
}

/// A line has one point per step of its longer extent plus the start, that
/// is `D + 1` points for `D = line_steps`, except that it stops at 501.
pub proof fn law_bresenham_length(x0: int, y0: int, x1: int, y1: int, p: Seq<(i32, i32)>)
    requires
        i32::MIN <= x0 <= i32::MAX,
        i32::MIN <= y0 <= i32::MAX,
        i32::MIN <= x1 <= i32::MAX,
        i32::MIN <= y1 <= i32::MAX,
        bresenham_points(x0, y0, x1, y1, p),
    ensures
        p.len() == (if line_steps(x0, y0, x1, y1) < 500 {
            line_steps(x0, y0, x1, y1) + 1
        } else {
            501
        }),
{
    let n = p.len() as int;
    lemma_bresenham_walk(x0, y0, x1, y1, p, n - 1);
    assert(between(p[n - 1].0 as int, x0, x1) && between(p[n - 1].1 as int, y0, y1));
    if n < 501 {
        assert(p[n - 1] == (x1 as i32, y1 as i32));
    }
}

/// Every step of a line moves along its longer axis (along both when the two
/// extents are equal).
pub proof fn law_bresenham_major_axis(x0: int, y0: int, x1: int, y1: int, p: Seq<(i32, i32)>)
    requires
        i32::MIN <= x0 <= i32::MAX,
        i32::MIN <= y0 <= i32::MAX,
        i32::MIN <= x1 <= i32::MAX,
        i32::MIN <= y1 <= i32::MAX,
        bresenham_points(x0, y0, x1, y1, p),
    ensures
        forall|k: int|
            0 <= k < p.len() - 1 ==> (abs_int(x1 - x0) >= abs_int(y1 - y0) ==> p[k + 1].0 != (#[trigger] p[k]).0)
                && (abs_int(y1 - y0) >= abs_int(x1 - x0) ==> p[k + 1].1 != p[k].1),
{
    assert forall|k: int| 0 <= k < p.len() - 1 implies (abs_int(x1 - x0) >= abs_int(y1 - y0) ==> p[k
        + 1].0 != (#[trigger] p[k]).0) && (abs_int(y1 - y0) >= abs_int(x1 - x0) ==> p[k + 1].1
        != p[k].1) by {
        lemma_bresenham_walk(x0, y0, x1, y1, p, k);
        lemma_bresenham_walk(x0, y0, x1, y1, p, k + 1);
    }
}

/// Every point of a line lies within half a cell of the ideal line, measured
/// along the shorter axis: `|cy*dx - cx*dy| <= D / 2`.
pub proof fn law_bresenham_half_cell(x0: int, y0: int, x1: int, y1: int, p: Seq<(i32, i32)>)
    requires
        i32::MIN <= x0 <= i32::MAX,
        i32::MIN <= y0 <= i32::MAX,
        i32::MIN <= x1 <= i32::MAX,
        i32::MIN <= y1 <= i32::MAX,
        bresenham_points(x0, y0, x1, y1, p),
    ensures
        forall|k: int|
            0 <= k < p.len() ==> -line_steps(x0, y0, x1, y1) <= 2 * line_error(x0, y0, x1, y1, #[trigger] p[k])
                <= line_steps(x0, y0, x1, y1),
{
    assert forall|k: int| 0 <= k < p.len() implies -line_steps(x0, y0, x1, y1) <= 2 * line_error(
        x0,
        y0,
        x1,
        y1,
        #[trigger] p[k],
    ) <= line_steps(x0, y0, x1, y1) by {
        lemma_bresenham_walk(x0, y0, x1, y1, p, k);
    }
}

/// One step of the walk keeps the error term `err == dx - dy + cy*dx - cx*dy`
/// within `[-3dy/2, 3dx/2]`, and some coordinate moves unless both distances
/// are zero.
proof fn lemma_bresenham_step(dx: int, dy: int, cx: int, cy: int, err: int)
    requires
        dx >= 0,
        dy >= 0,
        -3 * dy <= 2 * err <= 3 * dx,
        err == dx - dy + cy * dx - cx * dy,
    ensures
        err - dy == dx - dy + cy * dx - (cx + 1) * dy,
        err + dx == dx - dy + (cy + 1) * dx - cx * dy,
        err - dy + dx == dx - dy + (cy + 1) * dx - (cx + 1) * dy,
        (2 * err > -dy && 2 * err < dx) ==> -3 * dy <= 2 * (err - dy + dx) <= 3 * dx,
        (2 * err > -dy && !(2 * err < dx)) ==> -3 * dy <= 2 * (err - dy) <= 3 * dx,
        (!(2 * err > -dy) && 2 * err < dx) ==> -3 * dy <= 2 * (err + dx) <= 3 * dx,
        (2 * err > -dy) || (2 * err < dx) || (dx == 0 && dy == 0),
{
    assert((cx + 1) * dy == cx * dy + dy) by (nonlinear_arith);
    assert((cy + 1) * dx == cy * dx + dx) by (nonlinear_arith);
}

/// When one coordinate has arrived and the other has not, the walk does not
/// move the arrived one further.
proof fn lemma_bresenham_stops(dx: int, dy: int, cx: int, cy: int, err: int)
    requires
        dx >= 0,
        dy >= 0,
        0 <= cx <= dx,
        0 <= cy <= dy,
        err == dx - dy + cy * dx - cx * dy,
        !(cx == dx && cy == dy),
    ensures
        cx == dx ==> !(2 * err > -dy),
        cy == dy ==> !(2 * err < dx),
{
    if cx == dx {
        assert(cy * dx <= (dy - 1) * dx) by (nonlinear_arith)
            requires
                cy <= dy - 1,
                dx >= 0,
        ;
        assert((dy - 1) * dx == dy * dx - dx) by (nonlinear_arith);
        assert(dx * dy == dy * dx) by (nonlinear_arith);
    }
    if cy == dy {
        assert(cx * dy <= (dx - 1) * dy) by (nonlinear_arith)
            requires
                cx <= dx - 1,
                dy >= 0,
        ;
        assert((dx - 1) * dy == dx * dy - dy) by (nonlinear_arith);
        assert(dx * dy == dy * dx) by (nonlinear_arith);
    }
}

/// Bresenham's line between two cell positions, at most 501 points.
///
/// The error term is kept in 128 bits, where it cannot overflow.
pub fn bresenham_line(x0: i32, y0: i32, x1: i32, y1: i32) -> (points: Vec<(i32, i32)>)
    requires
        i32::MIN < x1 - x0 <= i32::MAX,
        i32::MIN < y1 - y0 <= i32::MAX,
    ensures
        bresenham_points(x0 as int, y0 as int, x1 as int, y1 as int, points@),
{
    let mut points: Vec<(i32, i32)> = Vec::new();
    let mut x: i64 = x0 as i64;
    let mut y: i64 = y0 as i64;
    let ddx: i64 = x1 as i64 - x0 as i64;
    let ddy: i64 = y1 as i64 - y0 as i64;
    let dx: i128 = if ddx < 0 { -(ddx as i128) } else { ddx as i128 };
    let dy: i128 = if ddy < 0 { -(ddy as i128) } else { ddy as i128 };
    let sx: i64 = if x0 < x1 { 1 } else { -1 };
    let sy: i64 = if y0 < y1 { 1 } else { -1 };
    let mut err: i128 = dx - dy;
    let ghost mut cx: int = 0;
    let ghost mut cy: int = 0;
    let ghost gx0 = x0 as int;
    let ghost gy0 = y0 as int;
    let ghost gx1 = x1 as int;
    let ghost gy1 = y1 as int;

    loop
        invariant_except_break
            gx0 == x0 as int,
            gy0 == y0 as int,
            gx1 == x1 as int,
            gy1 == y1 as int,
            dx == abs_int(gx1 - gx0),
            dy == abs_int(gy1 - gy0),
            sx == step_sign(gx0, gx1),
            sy == step_sign(gy0, gy1),
            0 <= cx <= dx,
            0 <= cy <= dy,
            x == (if gx0 < gx1 { gx0 + cx } else { gx0 - cx }),
            y == (if gy0 < gy1 { gy0 + cy } else { gy0 - cy }),
            err == dx - dy + cy * dx - cx * dy,
            -3 * dy <= 2 * err <= 3 * dx,
            points@.len() <= 500,
            points@.len() == 0 ==> (cx == 0 && cy == 0),
            points@.len() > 0 ==> {
                let mx = x - points@.last().0;
                let my = y - points@.last().1;
                &&& (mx == 0 || mx == sx)
                &&& (my == 0 || my == sy)
                &&& (mx != 0 || my != 0)
                &&& bresenham_next(gx0, gy0, gx1, gy1, points@.last(), (x as i32, y as i32))
            },
            bresenham_prefix(gx0, gy0, gx1, gy1, points@),
            forall|k: int| 0 <= k < points@.len() ==> #[trigger] points@[k] != (x1, y1),
        ensures
            bresenham_points(gx0, gy0, gx1, gy1, points@),
        decreases (dx - cx) + (dy - cy),
    {
        let ghost old_points = points@;
        proof {
            assert(between(x as int, gx0, gx1));
            assert(between(y as int, gy0, gy1));
            assert(abs_int(x - gx0) == cx);
            assert(abs_int(y - gy0) == cy);
            assert(i32::MIN <= x <= i32::MAX);
            assert(i32::MIN <= y <= i32::MAX);
        }
        points.push((x as i32, y as i32));
        proof {
            let p = points@;
            assert((x as i32) as int == x as int);
            assert((y as i32) as int == y as int);
            assert forall|k: int| 0 <= k < p.len() - 1 implies #[trigger] p[k] == old_points[k] by {}
            assert(p.last() == (x as i32, y as i32));
            lemma_prefix_push(gx0, gy0, gx1, gy1, old_points, (x as i32, y as i32));
        }
        if x == x1 as i64 && y == y1 as i64 {
            proof {
                assert forall|k: int| 0 <= k < points@.len() - 1 implies #[trigger] points@[k] != (
                gx1 as i32, gy1 as i32) by {
                    assert(points@[k] == old_points[k]);
                }
            }
            break;
        }
        proof {
            assert(points@.last() != (x1, y1));
            assert forall|k: int| 0 <= k < points@.len() implies #[trigger] points@[k] != (x1, y1) by {
                if k < points@.len() - 1 {
                    assert(points@[k] == old_points[k]);
                }
            }
            lemma_bresenham_step(dx as int, dy as int, cx, cy, err as int);
            lemma_bresenham_stops(dx as int, dy as int, cx, cy, err as int);
        }
        let e2 = 2 * err;
        if e2 > -dy {
            err -= dy;
            x += sx;
            proof {
                cx = cx + 1;
            }
        }
        if e2 < dx {
            err += dx;
            y += sy;
            proof {
                cy = cy + 1;
            }
        }
        if points.len() > 500 {
            break;
        }
    }
    points
}

} // verus!
