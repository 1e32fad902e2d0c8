//! The icon grid inside a fence: how many columns and rows fit, which items
//! are drawn where for a scroll position, which item a point hits, and how
//! the wheel and the keyboard move through the rows.

use vstd::prelude::*;
use crate::geometry::{
    clamp, contains_point, div_toward_zero, max, min, point_in_rect, sat, sat_add, Point, Rect,
};
use crate::interaction::{bounded, rect_bounded};

verus! {

pub const HEADER_HEIGHT: i32 = 48;

pub const COMPACT_HEADER_HEIGHT: i32 = 16;

pub const CONTENT_LEFT: i32 = 12;

pub const CONTENT_RIGHT: i32 = 12;

pub const CONTENT_TOP_PADDING: i32 = 6;

pub const CONTENT_BOTTOM: i32 = 8;

pub const DEFAULT_ITEM_ICON_SIZE: i32 = 46;

/// The height of a fence's title bar, full or compact.
pub fn title_bar_height(show_fence_titles: bool) -> (r: i32)
    ensures
        r == (if show_fence_titles { HEADER_HEIGHT } else { COMPACT_HEADER_HEIGHT }),
{
    if show_fence_titles {
        HEADER_HEIGHT
    } else {
        COMPACT_HEADER_HEIGHT
    }
}

/// How far a compact title bar starts below where a full one would.
pub fn hidden_title_offset(show_fence_titles: bool) -> (r: i32)
    ensures
        r == HEADER_HEIGHT - (if show_fence_titles { HEADER_HEIGHT } else { COMPACT_HEADER_HEIGHT }),
{
    HEADER_HEIGHT - title_bar_height(show_fence_titles)
}

/// Where the item grid starts below the top of the fence window.
pub fn content_top(show_fence_titles: bool) -> (r: i32)
    ensures
        r == (if show_fence_titles { HEADER_HEIGHT } else { COMPACT_HEADER_HEIGHT })
            + CONTENT_TOP_PADDING,
{
    title_bar_height(show_fence_titles) + CONTENT_TOP_PADDING
}

/// The icon size in use: the preference clamped to 36..=64 pixels.
pub open spec fn icon_px(icon_size: u32) -> int {
    clamp(icon_size as int, 36, 64)
}

/// A metric designed for 46-pixel icons, scaled to the icon size and
/// rounded, never below one pixel, as an `i32`.
pub open spec fn item_metric(default_value: int, icon_size: u32) -> i32 {
    max(div_toward_zero(default_value * icon_px(icon_size) + 23, 46), 1) as i32
}

fn clamped_icon(icon_size: u32) -> (r: u32)
    ensures
        r == icon_px(icon_size),
{
    if icon_size < 36 {
        36
    } else if icon_size > 64 {
        64
    } else {
        icon_size
    }
}

/// Scales a grid metric designed for the default icon size.
pub fn scale_item_metric(default_value: i32, icon_size: u32) -> (r: i32)
    ensures
        r == item_metric(default_value as int, icon_size),
{
    let icon = clamped_icon(icon_size) as i64;
    assert(-0x8000_0000 * 64 <= default_value * icon <= 0x8000_0000 * 64) by (nonlinear_arith)
        requires
            -0x8000_0000 <= default_value < 0x8000_0000,
            36 <= icon <= 64,
    ;
    let v = (default_value as i64 * icon + (DEFAULT_ITEM_ICON_SIZE / 2) as i64)
        / DEFAULT_ITEM_ICON_SIZE as i64;
    let v = if v < 1 {
        1
    } else {
        v
    };
    v as i32
}

proof fn lemma_item_metric_range(default_value: int, icon_size: u32)
    requires
        1 <= default_value <= 48,
    ensures
        1 <= item_metric(default_value, icon_size) <= 68,
        (36 * default_value + 23) / 46 <= item_metric(default_value, icon_size),
{
    let icon = icon_px(icon_size);
    assert(0 <= default_value * icon + 23 <= 48 * 64 + 23) by (nonlinear_arith)
        requires
            1 <= default_value <= 48,
            36 <= icon <= 64,
    ;
    assert(36 * default_value <= default_value * icon) by (nonlinear_arith)
        requires
            1 <= default_value,
            36 <= icon,
    ;
}

#[derive(Clone, Copy, Debug, PartialEq, Eq, Structural)]
pub struct GridMetrics {
    pub columns: usize,
    pub row_height: i32,
    pub visible_rows: usize,
    pub total_rows: usize,
    pub max_scroll_row: usize,
}

impl Default for GridMetrics {
    fn default() -> (m: Self)
        ensures
            m == (GridMetrics {
                columns: 0,
                row_height: 0,
                visible_rows: 0,
                total_rows: 0,
                max_scroll_row: 0,
            }),
    {
        GridMetrics { columns: 0, row_height: 0, visible_rows: 0, total_rows: 0, max_scroll_row: 0 }
    }
}

/// `a.div_ceil(b)` for a positive `b`.
pub open spec fn ceil_div(a: int, b: int) -> int {
    if a % b == 0 {
        a / b
    } else {
        a / b + 1
    }
}

/// How many rows one wheel notch or page moves: all visible rows but one,
/// at least one.
pub open spec fn page_step(visible_rows: int) -> int {
    max(visible_rows - 1, 1)
}

pub open spec fn cell_width_px(icon_size: u32) -> int {
    icon_px(icon_size) + item_metric(48, icon_size)
}

pub open spec fn row_height_px(icon_size: u32) -> int {
    icon_px(icon_size) + item_metric(44, icon_size)
}

pub open spec fn grid_content_width(client: Rect) -> int {
    client.right - client.left - CONTENT_LEFT - CONTENT_RIGHT
}

pub open spec fn grid_content_height(client: Rect, content_top: int) -> int {
    client.bottom - client.top - content_top - CONTENT_BOTTOM
}

/// The grid for `item_count` items in the client area, or none when the
/// content area is empty.
pub open spec fn metrics_of(client: Rect, content_top: int, icon_size: u32, item_count: nat) -> Option<
    GridMetrics,
> {
    let width = grid_content_width(client);
    let height = grid_content_height(client, content_top);
    if width <= 0 || height <= 0 {
        None
    } else {
        let columns = max(width / cell_width_px(icon_size), 1);
        let visible = max(height / row_height_px(icon_size), 1);
        let total = ceil_div(item_count as int, columns);
        let page = page_step(visible);
        let overflow = max(total - visible, 0);
        Some(
            GridMetrics {
                columns: columns as usize,
                row_height: row_height_px(icon_size) as i32,
                visible_rows: visible as usize,
                total_rows: total as usize,
                max_scroll_row: min(ceil_div(overflow, page) * page, usize::MAX as int) as usize,
            },
        )
    }
}

fn div_ceil_usize(a: usize, b: usize) -> (r: usize)
    requires
        b > 0,
    ensures
        r == ceil_div(a as int, b as int),
{
    let q = a / b;
    if a % b == 0 {
        q
    } else {
        assert(q < usize::MAX) by (nonlinear_arith)
            requires
                q == a / b,
                a % b != 0,
                b > 0,
                a <= usize::MAX,
        ;
        q + 1
    }
}

/// The grid for `item_count` items in the client area.
pub fn grid_metrics(client: &Rect, content_top: i32, icon_size: u32, item_count: usize) -> (m:
    Option<GridMetrics>)
    requires
        rect_bounded(*client),
        bounded(content_top as int),
    ensures
        m == metrics_of(*client, content_top as int, icon_size, item_count as nat),
{
    let icon = clamped_icon(icon_size) as i32;
    let wide = scale_item_metric(48, icon as u32);
    let tall = scale_item_metric(44, icon as u32);
    proof {
        lemma_item_metric_range(48, icon_size);
        lemma_item_metric_range(44, icon_size);
    }
    assert(wide == item_metric(48, icon_size));
    assert(tall == item_metric(44, icon_size));
    let cell_width = icon + wide;
    let row_height = icon + tall;
    let content_width = client.right - client.left - CONTENT_LEFT - CONTENT_RIGHT;
    let content_height = client.bottom - client.top - content_top - CONTENT_BOTTOM;
    if content_width <= 0 || content_height <= 0 {
        return None;
    }
    let columns_i = content_width / cell_width;
    let columns: usize = if columns_i < 1 {
        1
    } else {
        columns_i as usize
    };
    let rows_i = content_height / row_height;
    let visible_rows: usize = if rows_i < 1 {
        1
    } else {
        rows_i as usize
    };
    let total_rows = div_ceil_usize(item_count, columns);
    let page_step = scroll_page_step(visible_rows);
    let overflow_rows: usize = if total_rows > visible_rows {
        total_rows - visible_rows
    } else {
        0
    };
    let pages = div_ceil_usize(overflow_rows, page_step);
    let max_scroll_row = match pages.checked_mul(page_step) {
        Some(v) => v,
        None => usize::MAX,
    };
    Some(
        GridMetrics {
            columns,
            row_height,
            visible_rows,
            total_rows,
            max_scroll_row,
        },
    )
}

/// How many rows one wheel notch moves.
pub fn scroll_page_step(visible_rows: usize) -> (r: usize)
    ensures
        r == page_step(visible_rows as int),
{
    if visible_rows <= 2 {
        1
    } else {
        visible_rows - 1
    }
}

/// The scroll row after `notches` wheel notches (positive notches scroll up).
pub open spec fn wheel_row(current: int, notches: int, metrics: GridMetrics) -> int {
    clamp(
        current - notches * page_step(metrics.visible_rows as int),
        0,
        metrics.max_scroll_row as int,
    )
}

/// The scroll row after `notches` wheel notches; each notch moves a page
/// that keeps the previous page's last row in view.
pub fn wheel_scroll_row(current_scroll_row: usize, notches: i32, metrics: GridMetrics) -> (r: usize)
    requires
        current_scroll_row < 0x4000_0000_0000_0000,
        metrics.visible_rows <= 0x8000_0000,
        metrics.max_scroll_row <= i64::MAX,
    ensures
        r == wheel_row(current_scroll_row as int, notches as int, metrics),
{
    let step = scroll_page_step(metrics.visible_rows) as i64;
    assert(-0x4000_0000_0000_0000 <= notches * step <= 0x4000_0000_0000_0000) by (nonlinear_arith)
        requires
            -0x8000_0000 <= notches <= 0x8000_0000,
            1 <= step <= 0x8000_0000,
    ;
    let next = current_scroll_row as i64 - notches as i64 * step;
    let highest = metrics.max_scroll_row as i64;
    if next < 0 {
        0
    } else if next > highest {
        metrics.max_scroll_row
    } else {
        next as usize
    }
}

/// The wheel delta of one notch.
pub const WHEEL_DELTA: i32 = 120;

/// A fence's scroll position and the wheel movement not yet worth a notch.
#[derive(Clone, Copy, Debug, PartialEq, Eq, Structural)]
pub struct WheelScroll {
    pub scroll_row: usize,
    pub remainder: i32,
}

/// The scroll state after a wheel movement of `delta`, and whether the
/// fence takes the movement. Without a grid (`None`: collapsed, or no room)
/// or without a movement nothing happens; when nothing can scroll the
/// position and the remainder are reset. Otherwise the movement joins the
/// remainder, whole notches scroll, and the rest is kept.
pub open spec fn wheel_scrolled(state: WheelScroll, delta: int, metrics: Option<GridMetrics>) -> (WheelScroll, bool) {
    match metrics {
        None => (state, false),
        Some(m) => if delta == 0 {
            (state, false)
        } else if m.max_scroll_row == 0 {
            (WheelScroll { scroll_row: 0, remainder: 0 }, false)
        } else {
            let total = sat(state.remainder + delta);
            let notches = div_toward_zero(total, WHEEL_DELTA as int);
            let rest = total - notches * WHEEL_DELTA;
            let row = if notches == 0 {
                state.scroll_row as int
            } else {
                wheel_row(state.scroll_row as int, notches, m)
            };
            (WheelScroll { scroll_row: row as usize, remainder: rest as i32 }, true)
        },
    }
}

pub fn scroll_by_wheel(state: WheelScroll, delta: i32, metrics: Option<GridMetrics>) -> (r: (WheelScroll, bool))
    requires
        state.scroll_row < 0x4000_0000_0000_0000,
        metrics matches Some(m) ==> m.visible_rows <= 0x8000_0000 && m.max_scroll_row <= i64::MAX,
    ensures
        r == wheel_scrolled(state, delta as int, metrics),
{
    let m = match metrics {
        None => {
            return (state, false);
        },
        Some(m) => m,
    };
    if delta == 0 {
        return (state, false);
    }
    if m.max_scroll_row == 0 {
        return (WheelScroll { scroll_row: 0, remainder: 0 }, false);
    }
    let total = sat_add(state.remainder, delta) as i64;
    let notches: i64 = if total >= 0 {
        total / 120
    } else {
        -((-total) / 120)
    };
    assert(notches == div_toward_zero(total as int, WHEEL_DELTA as int));
    let rest = (total - notches * 120) as i32;
    let row = if notches == 0 {
        state.scroll_row
    } else {
        wheel_scroll_row(state.scroll_row, notches as i32, m)
    };
    (WheelScroll { scroll_row: row, remainder: rest }, true)
}

/// The scroll state kept after the grid changed: the row goes no further
/// than the last one that can be scrolled to (none without a grid), and the
/// remainder is dropped when nothing can scroll.
pub fn clamped_scroll(state: WheelScroll, metrics: Option<GridMetrics>) -> (r: WheelScroll)
    ensures
        ({
            let max_row = match metrics {
                Some(m) => m.max_scroll_row as int,
                None => 0,
            };
            &&& r.scroll_row == min(state.scroll_row as int, max_row)
            &&& r.remainder == if max_row == 0 { 0 } else { state.remainder as int }
        }),
{
    let max_row = match metrics {
        Some(m) => m.max_scroll_row,
        None => 0,
    };
    let scroll_row = if state.scroll_row < max_row { state.scroll_row } else { max_row };
    let remainder = if max_row == 0 { 0 } else { state.remainder };
    WheelScroll { scroll_row, remainder }
}

/// The scroll row that brings item `item` into view, moving as little as
/// possible.
pub open spec fn reveal_row(current: int, item: int, metrics: GridMetrics) -> int {
    if metrics.columns == 0 || metrics.visible_rows == 0 {
        current
    } else {
        let row = item / (metrics.columns as int);
        if row < current {
            row
        } else if row >= min(current + metrics.visible_rows, usize::MAX as int) {
            min(max(min(row + 1, usize::MAX as int) - metrics.visible_rows, 0), metrics.max_scroll_row as int)
        } else {
            min(current, metrics.max_scroll_row as int)
        }
    }
}

/// The scroll row after the keyboard focus moved to item `item_index`.
pub fn scroll_row_for_item(current_scroll_row: usize, item_index: usize, metrics: GridMetrics) -> (r:
    usize)
    ensures
        r == reveal_row(current_scroll_row as int, item_index as int, metrics),
{
    if metrics.columns == 0 || metrics.visible_rows == 0 {
        return current_scroll_row;
    }
    let item_row = item_index / metrics.columns;
    let window_end = current_scroll_row.saturating_add(metrics.visible_rows);
    if item_row < current_scroll_row {
        item_row
    } else if item_row >= window_end {
        let first = item_row.saturating_add(1).saturating_sub(metrics.visible_rows);
        if first < metrics.max_scroll_row {
            first
        } else {
            metrics.max_scroll_row
        }
    } else if current_scroll_row < metrics.max_scroll_row {
        current_scroll_row
    } else {
        metrics.max_scroll_row
    }
}

#[derive(Clone, Copy, Debug, PartialEq, Eq, Structural)]
pub enum NavigationDirection {
    Left,
    Right,
    Up,
    Down,
}

/// The item the keyboard focus moves to from `current` in a grid of
/// `columns` columns: it stops at the edges, and the first item is focused
/// when nothing (or nothing valid) was.
pub open spec fn navigation(current: Option<usize>, item_count: int, columns: int, direction: NavigationDirection) -> Option<int> {
    if item_count == 0 || columns == 0 {
        None
    } else {
        match current {
            Some(c) if c < item_count => match direction {
                NavigationDirection::Left => Some(max(c - 1, 0)),
                NavigationDirection::Right => Some(min(c + 1, item_count - 1)),
                NavigationDirection::Up => Some(if c >= columns { c - columns } else { c as int }),
                NavigationDirection::Down => Some(if c + columns < item_count { c + columns } else { c as int }),
            },
            _ => Some(0),
        }
    }
}

pub fn navigation_target(
    current: Option<usize>,
    item_count: usize,
    columns: usize,
    direction: NavigationDirection,
) -> (r: Option<usize>)
    ensures
        match navigation(current, item_count as int, columns as int, direction) {
            Some(t) => r == Some(t as usize),
            None => r is None,
        },
{
    if item_count == 0 || columns == 0 {
        return None;
    }
    let c = match current {
        Some(c) => {
            if c < item_count {
                c
            } else {
                return Some(0);
            }
        },
        None => {
            return Some(0);
        },
    };
    match direction {
        NavigationDirection::Left => Some(c.saturating_sub(1)),
        NavigationDirection::Right => {
            let next = c.saturating_add(1);
            Some(if next < item_count - 1 { next } else { item_count - 1 })
        },
        NavigationDirection::Up => Some(if c >= columns { c - columns } else { c }),
        NavigationDirection::Down => {
            match c.checked_add(columns) {
                Some(target) => Some(if target < item_count { target } else { c }),
                None => Some(c),
            }
        },
    }
}


/// Where one item is drawn: its cell, its icon and its label.
#[derive(Clone, Copy, Debug, PartialEq, Eq, Structural)]
pub struct ItemCell {
    pub index: usize,
    pub bounds: Rect,
    pub icon: Rect,
    pub label: Rect,
}

/// The cell of item `index` when the grid is scrolled to `scroll_row`. The
/// content width is divided between the columns, so the cells fill it.
pub open spec fn cell_of(
    client: Rect,
    content_top: int,
    icon_size: u32,
    metrics: GridMetrics,
    scroll_row: int,
    index: int,
) -> ItemCell {
    let icon = icon_px(icon_size);
    let pad_top = item_metric(5, icon_size) as int;
    let gap = item_metric(4, icon_size) as int;
    let pad_side = item_metric(6, icon_size) as int;
    let pad_bottom = item_metric(4, icon_size) as int;
    let content_left = client.left + CONTENT_LEFT;
    let width = client.right - CONTENT_RIGHT - content_left;
    let columns = metrics.columns as int;
    let column = index % columns;
    let row = index / columns - scroll_row;
    let left = content_left + width * column / columns;
    let right = content_left + width * (column + 1) / columns;
    let top = client.top + content_top + row * metrics.row_height;
    let icon_left = left + max(right - left - icon, 0) / 2;
    let floor = client.bottom - CONTENT_BOTTOM;
    ItemCell {
        index: index as usize,
        bounds: Rect {
            left: left as i32,
            top: top as i32,
            right: right as i32,
            bottom: min(top + metrics.row_height, floor) as i32,
        },
        icon: Rect {
            left: icon_left as i32,
            top: (top + pad_top) as i32,
            right: (icon_left + icon) as i32,
            bottom: (top + pad_top + icon) as i32,
        },
        label: Rect {
            left: (left + pad_side) as i32,
            top: (top + pad_top + icon + gap) as i32,
            right: (right - pad_side) as i32,
            bottom: min(top + metrics.row_height - pad_bottom, floor) as i32,
        },
    }
}

/// The scroll row in effect, and the first and the end (exclusive) index of
/// the items drawn.
pub open spec fn visible_range(metrics: GridMetrics, item_count: int, scroll_row: int) -> (int, int, int) {
    let scroll = min(scroll_row, metrics.max_scroll_row as int);
    let first = min(scroll * metrics.columns, usize::MAX as int);
    let end_row = min(
        min(scroll + metrics.visible_rows, usize::MAX as int),
        metrics.total_rows as int,
    );
    let end = min(min(end_row * metrics.columns, usize::MAX as int), item_count);
    (scroll, first, end)
}

/// The cells drawn for `item_count` items scrolled to `scroll_row`, in
/// index order.
pub open spec fn cells_of(
    client: Rect,
    content_top: int,
    icon_size: u32,
    item_count: nat,
    scroll_row: int,
) -> Seq<ItemCell> {
    match metrics_of(client, content_top, icon_size, item_count) {
        None => seq![],
        Some(metrics) => {
            let (scroll, first, end) = visible_range(metrics, item_count as int, scroll_row);
            Seq::new(
                max(end - first, 0) as nat,
                |k: int| cell_of(client, content_top, icon_size, metrics, scroll, first + k),
            )
        },
    }
}

fn make_cell(
    client: &Rect,
    content_top: i32,
    icon_size: u32,
    metrics: GridMetrics,
    scroll_row: usize,
    index: usize,
) -> (cell: ItemCell)
    requires
        rect_bounded(*client),
        bounded(content_top as int),
        grid_content_width(*client) > 0,
        grid_content_height(*client, content_top as int) > 0,
        metrics.columns as int == max(
            grid_content_width(*client) / cell_width_px(icon_size),
            1,
        ),
        metrics.visible_rows as int == max(
            grid_content_height(*client, content_top as int) / row_height_px(icon_size),
            1,
        ),
        metrics.row_height as int == row_height_px(icon_size),
        scroll_row * metrics.columns <= index < (scroll_row + metrics.visible_rows)
            * metrics.columns,
    ensures
        cell == cell_of(
            *client,
            content_top as int,
            icon_size,
            metrics,
            scroll_row as int,
            index as int,
        ),
{
    let icon = clamped_icon(icon_size) as i32;
    let pad_top = scale_item_metric(5, icon as u32);
    let gap = scale_item_metric(4, icon as u32);
    let pad_side = scale_item_metric(6, icon as u32);
    proof {
        lemma_item_metric_range(5, icon_size);
        lemma_item_metric_range(4, icon_size);
        lemma_item_metric_range(6, icon_size);
        lemma_item_metric_range(44, icon_size);
        lemma_item_metric_range(48, icon_size);
    }
    assert(pad_top == item_metric(5, icon_size));
    assert(gap == item_metric(4, icon_size));
    assert(pad_side == item_metric(6, icon_size));
    let pad_bottom = gap;
    let content_left = client.left + CONTENT_LEFT;
    let content_right = client.right - CONTENT_RIGHT;
    let width = content_right - content_left;
    let columns = metrics.columns;
    let rows = metrics.visible_rows;
    let row_height = metrics.row_height;
    let height = client.bottom - client.top - content_top - CONTENT_BOTTOM;
    let cell_width = icon + item_metric_exec(48, icon_size);
    assert(1 <= columns <= width) by (nonlinear_arith)
        requires
            columns == max(width / cell_width, 1),
            width > 0,
            cell_width >= 1,
    ;
    assert(scroll_row <= index / columns < scroll_row + rows) by (nonlinear_arith)
        requires
            scroll_row * columns <= index < (scroll_row + rows) * columns,
            columns >= 1,
    ;
    assert(rows - 1 <= height / row_height || rows == 1);
    let column = index % columns;
    let row = index / columns - scroll_row;
    assert(row * row_height <= height) by (nonlinear_arith)
        requires
            0 <= row < rows,
            rows == max(height / row_height, 1),
            row_height >= 1,
            height > 0,
    ;
    let ghost w = width as int;
    let ghost c = column as int;
    let ghost n = columns as int;
    assert(0 <= w * c / n <= w && 0 <= w * (c + 1) / n <= w && w * c / n <= w * (c + 1) / n)
        by (nonlinear_arith)
        requires
            0 <= c < n,
            1 <= n <= w,
    ;
    assert(w * c <= 0x8000_0000 * 0x8000_0000 && w * (c + 1) <= 0x8000_0000 * 0x8000_0000)
        by (nonlinear_arith)
        requires
            0 <= c < n,
            1 <= n <= w,
            w <= 0x8000_0000,
    ;
    let left_offset = (width as i64 * column as i64 / columns as i64) as i32;
    let right_offset = (width as i64 * (column + 1) as i64 / columns as i64) as i32;
    let left = content_left + left_offset;
    let right = content_left + right_offset;
    let top = client.top + content_top + row as i32 * row_height;
    let spare = if right - left - icon > 0 {
        right - left - icon
    } else {
        0
    };
    let icon_left = left + spare / 2;
    let floor = client.bottom - CONTENT_BOTTOM;
    let cell_bottom = if top + row_height < floor {
        top + row_height
    } else {
        floor
    };
    let label_bottom = if top + row_height - pad_bottom < floor {
        top + row_height - pad_bottom
    } else {
        floor
    };
    ItemCell {
        index,
        bounds: Rect { left, top, right, bottom: cell_bottom },
        icon: Rect {
            left: icon_left,
            top: top + pad_top,
            right: icon_left + icon,
            bottom: top + pad_top + icon,
        },
        label: Rect {
            left: left + pad_side,
            top: top + pad_top + icon + gap,
            right: right - pad_side,
            bottom: label_bottom,
        },
    }
}

fn item_metric_exec(default_value: i32, icon_size: u32) -> (r: i32)
    ensures
        r == item_metric(default_value as int, icon_size),
{
    scale_item_metric(default_value, icon_size)
}

/// The cells drawn for `item_count` items when the grid is scrolled to
/// `scroll_row` (clamped to the last scroll row), in index order.
pub fn item_cells(
    client: &Rect,
    content_top: i32,
    icon_size: u32,
    item_count: usize,
    scroll_row: usize,
) -> (cells: Vec<ItemCell>)
    requires
        rect_bounded(*client),
        bounded(content_top as int),
    ensures
        cells@ == cells_of(*client, content_top as int, icon_size, item_count as nat, scroll_row as int),
{
    let metrics = match grid_metrics(client, content_top, icon_size, item_count) {
        Some(m) => m,
        None => {
            return Vec::new();
        },
    };
    let ghost range = visible_range(metrics, item_count as int, scroll_row as int);
    let scroll = if scroll_row < metrics.max_scroll_row {
        scroll_row
    } else {
        metrics.max_scroll_row
    };
    let first = match scroll.checked_mul(metrics.columns) {
        Some(v) => v,
        None => usize::MAX,
    };
    let end_row_all = scroll.saturating_add(metrics.visible_rows);
    let end_row = if end_row_all < metrics.total_rows {
        end_row_all
    } else {
        metrics.total_rows
    };
    let end_all = match end_row.checked_mul(metrics.columns) {
        Some(v) => v,
        None => usize::MAX,
    };
    let end = if end_all < item_count {
        end_all
    } else {
        item_count
    };
    assert(range == (scroll as int, first as int, end as int));
    let mut cells: Vec<ItemCell> = Vec::new();
    let mut index = first;
    if first < end {
        proof {
            lemma_item_metric_range(48, icon_size);
            lemma_item_metric_range(44, icon_size);
        }
        assert(end_row * metrics.columns <= (scroll + metrics.visible_rows) * metrics.columns)
            by (nonlinear_arith)
            requires
                end_row <= scroll + metrics.visible_rows,
                metrics.columns >= 1,
        ;
        while index < end
            invariant
                rect_bounded(*client),
                bounded(content_top as int),
                metrics_of(*client, content_top as int, icon_size, item_count as nat) == Some(
                    metrics,
                ),
                first as int == scroll * metrics.columns,
                first <= index <= end,
                end <= (scroll + metrics.visible_rows) * metrics.columns,
                cells@ == Seq::new(
                    (index - first) as nat,
                    |k: int|
                        cell_of(
                            *client,
                            content_top as int,
                            icon_size,
                            metrics,
                            scroll as int,
                            first + k,
                        ),
                ),
            decreases end - index,
        {
            let cell = make_cell(client, content_top, icon_size, metrics, scroll, index);
            cells.push(cell);
            index = index + 1;
        }
    }
    cells
}

/// The first of `cells`, from position `i` on, that holds `point`.
pub open spec fn hit_from(cells: Seq<ItemCell>, point: Point, i: int) -> Option<usize>
    decreases cells.len() - i,
{
    if i < 0 || i >= cells.len() {
        None
    } else if contains_point(cells[i].bounds, point) {
        Some(cells[i].index)
    } else {
        hit_from(cells, point, i + 1)
    }
}

/// The item whose drawn cell holds `point`; the same cells as `item_cells`
/// are used, so drawing and hit testing agree.
pub fn item_index_at(
    client: &Rect,
    content_top: i32,
    icon_size: u32,
    item_count: usize,
    scroll_row: usize,
    point: Point,
) -> (r: Option<usize>)
    requires
        rect_bounded(*client),
        bounded(content_top as int),
    ensures
        r == hit_from(
            cells_of(*client, content_top as int, icon_size, item_count as nat, scroll_row as int),
            point,
            0,
        ),
{
    let cells = item_cells(client, content_top, icon_size, item_count, scroll_row);
    let mut i: usize = 0;
    while i < cells.len()
        invariant
            i <= cells@.len(),
            hit_from(cells@, point, 0) == hit_from(cells@, point, i as int),
            cells@ == cells_of(
                *client,
                content_top as int,
                icon_size,
                item_count as nat,
                scroll_row as int,
            ),
        decreases cells.len() - i,
    {
        if point_in_rect(point, &cells[i].bounds) {
            assert(hit_from(cells@, point, i as int) == Some(cells@[i as int].index));
            return Some(cells[i].index);
        }
        i = i + 1;
    }
    assert(hit_from(cells@, point, i as int) is None);
    None
}

/// The area in which a marquee selection is drawn.
pub fn selection_content_rect(client: &Rect, content_top: i32) -> (r: Rect)
    requires
        rect_bounded(*client),
        bounded(content_top as int),
    ensures
        r == (Rect {
            left: (client.left + CONTENT_LEFT) as i32,
            top: (client.top + content_top) as i32,
            right: max(client.right - CONTENT_RIGHT, client.left + CONTENT_LEFT) as i32,
            bottom: max(client.bottom - CONTENT_BOTTOM, client.top + content_top) as i32,
        }),
{
    let left = client.left + CONTENT_LEFT;
    let top = client.top + content_top;
    let right = if client.right - CONTENT_RIGHT > left {
        client.right - CONTENT_RIGHT
    } else {
        left
    };
    let bottom = if client.bottom - CONTENT_BOTTOM > top {
        client.bottom - CONTENT_BOTTOM
    } else {
        top
    };
    Rect { left, top, right, bottom }
}

proof fn lemma_cell_position(
    client: Rect,
    content_top: int,
    icon_size: u32,
    metrics: GridMetrics,
    scroll: int,
    index: int,
)
    requires
        rect_bounded(client),
        bounded(content_top),
        grid_content_width(client) > 0,
        grid_content_height(client, content_top) > 0,
        metrics.columns as int == max(grid_content_width(client) / cell_width_px(icon_size), 1),
        metrics.visible_rows as int == max(
            grid_content_height(client, content_top) / row_height_px(icon_size),
            1,
        ),
        metrics.row_height as int == row_height_px(icon_size),
        scroll * metrics.columns <= index < (scroll + metrics.visible_rows) * metrics.columns,
        0 <= scroll,
    ensures
        ({
            let cell = cell_of(client, content_top, icon_size, metrics, scroll, index);
            let n = metrics.columns as int;
            let width = client.right - CONTENT_RIGHT - (client.left + CONTENT_LEFT);
            let row = index / n - scroll;
            let column = index % n;
            let top = client.top + content_top + row * metrics.row_height;
            &&& 0 <= row < metrics.visible_rows
            &&& 0 <= column < n
            &&& cell.bounds.left == client.left + CONTENT_LEFT + width * column / n
            &&& cell.bounds.right == client.left + CONTENT_LEFT + width * (column + 1) / n
            &&& cell.bounds.top == top
            &&& cell.bounds.bottom <= top + metrics.row_height
        }),
{
    lemma_item_metric_range(48, icon_size);
    lemma_item_metric_range(44, icon_size);
    let n = metrics.columns as int;
    let rows = metrics.visible_rows as int;
    let rh = metrics.row_height as int;
    let width = client.right - CONTENT_RIGHT - (client.left + CONTENT_LEFT);
    let height = grid_content_height(client, content_top);
    let cw = cell_width_px(icon_size);
    assert(1 <= n <= width) by (nonlinear_arith)
        requires
            n == max(width / cw, 1),
            width > 0,
            cw >= 1,
    ;
    assert(scroll <= index / n < scroll + rows) by (nonlinear_arith)
        requires
            scroll * n <= index < (scroll + rows) * n,
            n >= 1,
    ;
    let row = index / n - scroll;
    let column = index % n;
    assert(row * rh <= height) by (nonlinear_arith)
        requires
            0 <= row < rows,
            rows == max(height / rh, 1),
            rh >= 1,
            height > 0,
    ;
    assert(0 <= width * column / n <= width && 0 <= width * (column + 1) / n <= width)
        by (nonlinear_arith)
        requires
            0 <= column < n,
            1 <= n <= width,
    ;
}

proof fn lemma_earlier_cell_is_apart(
    client: Rect,
    content_top: int,
    icon_size: u32,
    metrics: GridMetrics,
    scroll: int,
    i: int,
    k: int,
    point: Point,
)
    requires
        rect_bounded(client),
        bounded(content_top),
        grid_content_width(client) > 0,
        grid_content_height(client, content_top) > 0,
        metrics.columns as int == max(grid_content_width(client) / cell_width_px(icon_size), 1),
        metrics.visible_rows as int == max(
            grid_content_height(client, content_top) / row_height_px(icon_size),
            1,
        ),
        metrics.row_height as int == row_height_px(icon_size),
        0 <= scroll,
        scroll * metrics.columns <= i < k < (scroll + metrics.visible_rows) * metrics.columns,
        contains_point(cell_of(client, content_top, icon_size, metrics, scroll, k).bounds, point),
    ensures
        !contains_point(cell_of(client, content_top, icon_size, metrics, scroll, i).bounds, point),
{
    lemma_cell_position(client, content_top, icon_size, metrics, scroll, i);
    lemma_cell_position(client, content_top, icon_size, metrics, scroll, k);
    lemma_item_metric_range(44, icon_size);
    let n = metrics.columns as int;
    let rh = metrics.row_height as int;
    let width = client.right - CONTENT_RIGHT - (client.left + CONTENT_LEFT);
    let ri = i / n;
    let rk = k / n;
    let ci = i % n;
    let ck = k % n;
    assert(ri < rk || (ri == rk && ci < ck)) by (nonlinear_arith)
        requires
            0 <= i < k,
            n >= 1,
            ri == i / n,
            rk == k / n,
            ci == i % n,
            ck == k % n,
    ;
    if ri < rk {
        assert((ri - scroll) * rh + rh <= (rk - scroll) * rh) by (nonlinear_arith)
            requires
                ri < rk,
                rh >= 1,
        ;
    } else {
        assert(width * (ci + 1) / n <= width * ck / n) by (nonlinear_arith)
            requires
                0 <= ci < ck,
                n >= 1,
                width >= 0,
        ;
    }
}

proof fn lemma_hit_skips_to(cells: Seq<ItemCell>, point: Point, i: int, k: int)
    requires
        0 <= i <= k < cells.len(),
        forall|j: int| i <= j < k ==> !contains_point(#[trigger] cells[j].bounds, point),
    ensures
        hit_from(cells, point, i) == hit_from(cells, point, k),
    decreases k - i,
{
    if i < k {
        lemma_hit_skips_to(cells, point, i + 1, k);
    }
}

/// Drawing and hit testing agree: a point inside a drawn cell hits exactly
/// the item of that cell.
pub proof fn law_hit_testing_finds_the_drawn_cell(
    client: Rect,
    content_top: int,
    icon_size: u32,
    item_count: nat,
    scroll_row: int,
    k: int,
    point: Point,
)
    requires
        rect_bounded(client),
        bounded(content_top),
        0 <= scroll_row,
        0 <= k < cells_of(client, content_top, icon_size, item_count, scroll_row).len(),
        contains_point(
            cells_of(client, content_top, icon_size, item_count, scroll_row)[k].bounds,
            point,
        ),
    ensures
        hit_from(cells_of(client, content_top, icon_size, item_count, scroll_row), point, 0)
            == Some(cells_of(client, content_top, icon_size, item_count, scroll_row)[k].index),
{
    let cells = cells_of(client, content_top, icon_size, item_count, scroll_row);
    let metrics = metrics_of(client, content_top, icon_size, item_count).unwrap();
    let (scroll, first, end) = visible_range(metrics, item_count as int, scroll_row);
    lemma_item_metric_range(48, icon_size);
    lemma_item_metric_range(44, icon_size);
    assert(first == scroll * metrics.columns);
    let n = metrics.columns as int;
    let end_row = min(
        min(scroll + metrics.visible_rows, usize::MAX as int),
        metrics.total_rows as int,
    );
    assert(end_row * n <= (scroll + metrics.visible_rows) * n) by (nonlinear_arith)
        requires
            end_row <= scroll + metrics.visible_rows,
            n >= 1,
    ;
    assert forall|j: int| 0 <= j < k implies !contains_point(#[trigger] cells[j].bounds, point) by {
        lemma_earlier_cell_is_apart(
            client,
            content_top,
            icon_size,
            metrics,
            scroll,
            first + j,
            first + k,
            point,
        );
    }
    lemma_hit_skips_to(cells, point, 0, k);
}

/// Arrow keys move the focus from item `c` by one item (Left, Right) or by
/// one row of `columns` items (Up, Down), whatever the number of columns,
/// and never leave the items: Left from the first item and Up from the first
/// row stay put, Right stops at the last item, and Down stays put when no
/// item lies a row below.
pub proof fn law_arrow_keys_step_by_item_or_row(c: usize, item_count: nat, columns: nat)
    requires
        c < item_count,
        columns > 0,
    ensures
        navigation(Some(c), item_count as int, columns as int, NavigationDirection::Left) == Some(
            if c > 0 { c - 1 } else { 0 },
        ),
        navigation(Some(c), item_count as int, columns as int, NavigationDirection::Right) == Some(
            if c + 1 < item_count { c + 1 } else { c as int },
        ),
        navigation(Some(c), item_count as int, columns as int, NavigationDirection::Up) == Some(
            if c >= columns { c - columns } else { c as int },
        ),
        navigation(Some(c), item_count as int, columns as int, NavigationDirection::Down) == Some(
            if c + columns < item_count { c + columns } else { c as int },
        ),
{
}

/// Without a focused item among the items the focus goes to the first one;
/// without items or columns there is no focus.
pub proof fn law_arrow_keys_without_focus(current: Option<usize>, item_count: nat, columns: nat, d: NavigationDirection)
    ensures
        item_count == 0 || columns == 0 ==> navigation(current, item_count as int, columns as int, d) is None,
        item_count > 0 && columns > 0 && (current is None || current->0 >= item_count) ==> navigation(
            current,
            item_count as int,
            columns as int,
            d,
        ) == Some(0int),
{
}

/// Right undoes Left, and Down undoes Up, away from the edges.
pub proof fn law_opposite_arrows_return(c: usize, item_count: nat, columns: nat)
    requires
        0 < c < item_count,
        columns > 0,
    ensures
        navigation(current_after(c, item_count, columns, NavigationDirection::Left), item_count as int, columns as int, NavigationDirection::Right) == Some(c as int),
        c >= columns ==> navigation(current_after(c, item_count, columns, NavigationDirection::Up), item_count as int, columns as int, NavigationDirection::Down) == Some(c as int),
{
}

/// The focus after one arrow key from item `c`.
pub open spec fn current_after(c: usize, item_count: nat, columns: nat, d: NavigationDirection) -> Option<usize> {
    match navigation(Some(c), item_count as int, columns as int, d) {
        Some(t) => Some(t as usize),
        None => None,
    }
}

} // verus!
