//! Where the main window's controls go for a given window size.
use vstd::prelude::*;

verus! {

/// A control's place: position and size (never negative).
#[derive(Copy, Clone, PartialEq, Eq, Structural, Debug)]
pub struct Rect {
    pub x: i32,
    pub y: i32,
    pub w: u32,
    pub h: u32,
}

/// A panel's three controls.
#[derive(Copy, Clone, PartialEq, Eq, Structural, Debug)]
pub struct PanelRects {
    pub path: Rect,
    pub list: Rect,
    pub info: Rect,
}

/// The whole window.
pub struct Layout {
    pub status: Rect,
    pub buttons: Vec<Rect>,
    pub left: PanelRects,
    pub right: PanelRects,
}

/// Margin around and between the areas.
pub const MARGIN: i32 = 6;
/// Height of the status line.
pub const STATUS_H: i32 = 22;
/// Height of the function-key bar.
pub const FUNC_H: i32 = 30;
/// Gap between function buttons.
pub const GAP: i32 = 2;
/// Height of a panel's path label.
pub const PATH_H: i32 = 20;
/// Height of a panel's info label.
pub const INFO_H: i32 = 18;

/// A place from position and size, negative sizes taken as zero.
pub open spec fn rect_of(x: int, y: int, w: int, h: int) -> Rect {
    Rect {
        x: x as i32,
        y: y as i32,
        w: (if w > 0 { w } else { 0 }) as u32,
        h: (if h > 0 { h } else { 0 }) as u32,
    }
}

/// The larger of two numbers.
pub open spec fn max_int(a: int, b: int) -> int {
    if a > b { a } else { b }
}

/// Width of each of the nine function buttons.
pub open spec fn button_width(w: int) -> int {
    max_int(w - 2 * 6 - 2 * 8, 9) / 9
}

/// A panel's controls in the area at `x`, `y` of `pw` by `ph`: the path
/// label on top, the info label at the bottom, the list between.
pub open spec fn panel_rects_spec(x: int, y: int, pw: int, ph: int) -> PanelRects {
    let list_h = max_int(ph - 20 - 18, 0);
    PanelRects {
        path: rect_of(x, y, pw, 20),
        list: rect_of(x, y + 20, pw, list_h),
        info: rect_of(x, y + 20 + list_h, pw, 18),
    }
}

/// The layout of a window of `w` by `h`: the status line along the bottom,
/// the nine function buttons above it, the two panels side by side above
/// those.
pub open spec fn layout_spec(w: int, h: int, l: Layout) -> bool {
    let fb_y = h - 22 - 30;
    let bw = button_width(w);
    let area_h = max_int(fb_y - 6 - 6, 0);
    let panel_w = max_int((w - 18) / 2, 0);
    &&& l.status == rect_of(0, h - 22, w, 22)
    &&& l.buttons@.len() == 9
    &&& forall|i: int| 0 <= i < 9 ==> #[trigger] l.buttons@[i] == rect_of(6 + (bw + 2) * i, fb_y, bw, 28)
    &&& l.left == panel_rects_spec(6, 6, panel_w, area_h)
    &&& l.right == panel_rects_spec(6 + panel_w + 6, 6, panel_w, area_h)
}

fn rect(x: i32, y: i32, w: i32, h: i32) -> (r: Rect)
    ensures
        r == rect_of(x as int, y as int, w as int, h as int),
{
    Rect { x, y, w: if w > 0 { w as u32 } else { 0 }, h: if h > 0 { h as u32 } else { 0 } }
}

fn panel_rects(x: i32, y: i32, pw: i32, ph: i32) -> (r: PanelRects)
    requires
        0 <= x <= 0x4000_0010,
        0 <= y <= 6,
        0 <= pw <= 0x4000_0000,
        0 <= ph,
    ensures
        r == panel_rects_spec(x as int, y as int, pw as int, ph as int),
{
    let list_h = if ph - PATH_H - INFO_H > 0 { ph - PATH_H - INFO_H } else { 0 };
    PanelRects {
        path: rect(x, y, pw, PATH_H),
        list: rect(x, y + PATH_H, pw, list_h),
        info: rect(x, y + PATH_H + list_h, pw, INFO_H),
    }
}

/// Places every control of a window of `w` by `h` (sizes so far below
/// zero that the margins would overflow excepted).
pub fn layout(w: i32, h: i32) -> (r: Layout)
    requires
        i32::MIN + 28 <= w,
        i32::MIN + 64 <= h,
    ensures
        layout_spec(w as int, h as int, r),
{
    let fb_y = h - STATUS_H - FUNC_H;
    let total = if w - 2 * MARGIN - GAP * 8 > 9 { w - 2 * MARGIN - GAP * 8 } else { 9 };
    let bw = total / 9;
    let mut buttons: Vec<Rect> = Vec::new();
    let mut i: i32 = 0;
    while i < 9
        invariant
            0 <= i <= 9,
            i32::MIN + 28 <= w,
            bw == button_width(w as int),
            0 < bw <= 0x0F00_0000,
            i32::MIN + 12 <= fb_y,
            buttons@.len() == i,
            forall|k: int| 0 <= k < i ==> #[trigger] buttons@[k] == rect_of(6 + (bw + 2) * k, fb_y as int, bw as int, 28),
        decreases 9 - i,
    {
        assert((bw + 2) * i <= 0x7800_0010) by (nonlinear_arith)
            requires
                0 < bw <= 0x0F00_0000,
                0 <= i < 9,
        ;
        let x = MARGIN + (bw + GAP) * i;
        buttons.push(rect(x, fb_y, bw, FUNC_H - 2));
        i = i + 1;
    }
    let area_h = if fb_y - 2 * MARGIN > 0 { fb_y - 2 * MARGIN } else { 0 };
    let panel_w = if w - 3 * MARGIN > 0 { (w - 3 * MARGIN) / 2 } else { 0 };
    Layout {
        status: rect(0, h - STATUS_H, w, STATUS_H),
        buttons,
        left: panel_rects(MARGIN, MARGIN, panel_w, area_h),
        right: panel_rects(MARGIN + panel_w + MARGIN, MARGIN, panel_w, area_h),
    }
}

/// Nothing overlaps: each function button ends before the next one
/// begins, and the left panel ends before the right one begins.
pub proof fn law_layout_disjoint(w: int, h: int, l: Layout)
    requires
        i32::MIN + 28 <= w <= i32::MAX,
        i32::MIN + 64 <= h <= i32::MAX,
        layout_spec(w, h, l),
    ensures
        forall|i: int| 0 <= i < 8 ==> #[trigger] l.buttons@[i].x + l.buttons@[i].w < l.buttons@[i + 1].x,
        l.left.path.x + l.left.path.w < l.right.path.x,
{
    let bw = button_width(w);
    assert(1 <= bw <= 0x0F00_0000);
    assert forall|i: int| 0 <= i < 8 implies #[trigger] l.buttons@[i].x + l.buttons@[i].w < l.buttons@[i + 1].x by {
        assert(l.buttons@[i] == rect_of(6 + (bw + 2) * i, h - 22 - 30, bw, 28));
        assert(l.buttons@[i + 1] == rect_of(6 + (bw + 2) * (i + 1), h - 22 - 30, bw, 28));
        assert(0 <= (bw + 2) * i <= (bw + 2) * (i + 1) <= 0x7800_0010) by (nonlinear_arith)
            requires
                1 <= bw <= 0x0F00_0000,
                0 <= i < 8,
        ;
        assert((bw + 2) * (i + 1) == (bw + 2) * i + bw + 2) by (nonlinear_arith);
    }
}

} // verus!
