//! Positions, the camera transform, rectangles, bounds and the snap grid.

use vstd::prelude::*;
use crate::arith::floor_div;
use vstd::arithmetic::div_mod::{lemma_fundamental_div_mod, lemma_fundamental_div_mod_converse};

verus! {

/// Width given to a node that declares none.
pub const DEFAULT_NODE_WIDTH: u32 = 150;
/// Height given to a node that declares none.
pub const DEFAULT_NODE_HEIGHT: u32 = 40;
/// The zoom factor 1:1, in thousandths.
pub const ZOOM_ONE: u32 = 1000;
/// Smallest zoom factor the camera takes, in thousandths.
pub const MIN_ZOOM: u32 = 100;
/// Largest zoom factor the camera takes, in thousandths.
pub const MAX_ZOOM: u32 = 4000;

/// A point in diagram space.
#[derive(Debug, Clone, Copy, PartialEq, Eq, Default, Structural)]
pub struct Position {
    pub x: i64,
    pub y: i64,
}

impl Position {
    pub fn new(x: i64, y: i64) -> (r: Position)
        ensures
            r.x == x,
            r.y == y,
    {
        Position { x, y }
    }
}


/// `v` is representable as an `i64`.
pub open spec fn fits_i64(v: int) -> bool {
    i64::MIN <= v <= i64::MAX
}

/// Clamps `v` into `[lo, hi]`; where the range is empty the lower bound wins.
pub open spec fn clamp_axis(v: int, lo: int, hi: int) -> int {
    if v > hi {
        if hi > lo { hi } else { lo }
    } else if v < lo {
        lo
    } else {
        v
    }
}

/// `value` raised to at least `lo`, then lowered to at most `hi`.
pub open spec fn raise_then_lower(value: int, lo: int, hi: int) -> int {
    let raised = if value < lo { lo } else { value };
    if raised > hi { hi } else { raised }
}

/// Raises `value` to at least `min`, then lowers it to at most `max`; where
/// the range is empty the upper bound wins.
pub fn clamp(value: i64, min: i64, max: i64) -> (r: i64)
    ensures
        r == raise_then_lower(value as int, min as int, max as int),
{
    let raised = if value < min { min } else { value };
    if raised > max { max } else { raised }
}

/// Camera transform: a translation in screen units and a zoom factor in
/// thousandths.
#[derive(Debug, Clone, Copy, PartialEq, Eq, Structural)]
pub struct Viewport {
    pub x: i64,
    pub y: i64,
    pub zoom: u32,
}

/// The zoom factor `z` brought into `[MIN_ZOOM, MAX_ZOOM]`.
pub open spec fn clamp_zoom(z: int) -> int {
    if z < MIN_ZOOM { MIN_ZOOM as int } else if z > MAX_ZOOM { MAX_ZOOM as int } else { z }
}

/// Diagram coordinate under screen coordinate `s`, rounded down.
pub open spec fn to_diagram(s: int, offset: int, zoom: int) -> int {
    (s - offset) * (ZOOM_ONE as int) / zoom
}

/// Screen coordinate of diagram coordinate `d`, rounded down.
pub open spec fn to_screen(d: int, offset: int, zoom: int) -> int {
    d * zoom / (ZOOM_ONE as int) + offset
}

/// Offset after zooming from `zoom` to `new_zoom` around screen coordinate `anchor`.
pub open spec fn zoomed_offset(anchor: int, offset: int, zoom: int, new_zoom: int) -> int {
    anchor - (anchor - offset) * new_zoom / zoom
}

pub fn clamp_zoom_exec(z: u32) -> (r: u32)
    ensures
        r == clamp_zoom(z as int),
{
    if z < MIN_ZOOM { MIN_ZOOM } else if z > MAX_ZOOM { MAX_ZOOM } else { z }
}

impl Viewport {
    /// The zoom factor lies in the camera's range.
    pub open spec fn wf(&self) -> bool {
        MIN_ZOOM <= self.zoom <= MAX_ZOOM
    }

    /// A camera; the zoom factor is brought into range.
    pub fn new(x: i64, y: i64, zoom: u32) -> (r: Viewport)
        ensures
            r.x == x,
            r.y == y,
            r.zoom == clamp_zoom(zoom as int),
            r.wf(),
    {
        Viewport { x, y, zoom: clamp_zoom_exec(zoom) }
    }

    pub open spec fn screen_to_flow_fits(&self, sx: int, sy: int) -> bool {
        &&& fits_i64(to_diagram(sx, self.x as int, self.zoom as int))
        &&& fits_i64(to_diagram(sy, self.y as int, self.zoom as int))
    }

    /// Diagram point under the screen point `(screen_x, screen_y)`.
    pub fn screen_to_flow(&self, screen_x: i64, screen_y: i64) -> (r: Position)
        requires
            self.wf(),
            self.screen_to_flow_fits(screen_x as int, screen_y as int),
        ensures
            r.x == to_diagram(screen_x as int, self.x as int, self.zoom as int),
            r.y == to_diagram(screen_y as int, self.y as int, self.zoom as int),
    {
        let z = self.zoom as i128;
        let fx = floor_div((screen_x as i128 - self.x as i128) * 1000, z);
        let fy = floor_div((screen_y as i128 - self.y as i128) * 1000, z);
        Position { x: fx as i64, y: fy as i64 }
    }

    pub open spec fn flow_to_screen_fits(&self, fx: int, fy: int) -> bool {
        &&& fits_i64(to_screen(fx, self.x as int, self.zoom as int))
        &&& fits_i64(to_screen(fy, self.y as int, self.zoom as int))
    }

    /// Screen point of the diagram point `(flow_x, flow_y)`.
    pub fn flow_to_screen(&self, flow_x: i64, flow_y: i64) -> (r: Position)
        requires
            self.wf(),
            self.flow_to_screen_fits(flow_x as int, flow_y as int),
        ensures
            r.x == to_screen(flow_x as int, self.x as int, self.zoom as int),
            r.y == to_screen(flow_y as int, self.y as int, self.zoom as int),
    {
        let z = self.zoom as i128;
        let sx = floor_div(flow_x as i128 * z, 1000) + self.x as i128;
        let sy = floor_div(flow_y as i128 * z, 1000) + self.y as i128;
        Position { x: sx as i64, y: sy as i64 }
    }
}

impl Default for Viewport {
    fn default() -> (r: Viewport)
        ensures
            r.x == 0,
            r.y == 0,
            r.zoom == ZOOM_ONE,
    {
        Viewport { x: 0, y: 0, zoom: ZOOM_ONE }
    }
}

/// Side of a node on which a handle sits.
#[derive(Debug, Clone, Copy, PartialEq, Eq, Hash, Default, Structural)]
pub enum HandlePosition {
    #[default]
    Top,
    Right,
    Bottom,
    Left,
}

/// Offset from a node's origin of the middle of `side`.
pub open spec fn side_midpoint(side: HandlePosition, width: int, height: int) -> (int, int) {
    match side {
        HandlePosition::Top => (width / 2, 0),
        HandlePosition::Right => (width, height / 2),
        HandlePosition::Bottom => (width / 2, height),
        HandlePosition::Left => (0, height / 2),
    }
}

/// Offset from a node's origin of slot `index` of `count` slots spread evenly
/// along `side`.
pub open spec fn side_slot(side: HandlePosition, width: int, height: int, index: int, count: int) -> (int, int) {
    match side {
        HandlePosition::Top => (width * (index + 1) / (count + 1), 0),
        HandlePosition::Bottom => (width * (index + 1) / (count + 1), height),
        HandlePosition::Left => (0, height * (index + 1) / (count + 1)),
        HandlePosition::Right => (width, height * (index + 1) / (count + 1)),
    }
}

impl HandlePosition {
    /// Offset from the node's origin of the middle of this side.
    pub fn offset(&self, width: u32, height: u32) -> (r: Position)
        ensures
            (r.x as int, r.y as int) == side_midpoint(*self, width as int, height as int),
    {
        match self {
            HandlePosition::Top => Position::new(width as i64 / 2, 0),
            HandlePosition::Right => Position::new(width as i64, height as i64 / 2),
            HandlePosition::Bottom => Position::new(width as i64 / 2, height as i64),
            HandlePosition::Left => Position::new(0, height as i64 / 2),
        }
    }

    /// Offset of handle `index` of `count` handles on this side; a single
    /// handle sits in the middle.
    pub fn offset_indexed(&self, width: u32, height: u32, index: usize, count: usize) -> (r: Position)
        requires
            count <= 1 || index < count,
        ensures
            count <= 1 ==> (r.x as int, r.y as int) == side_midpoint(*self, width as int, height as int),
            count > 1 ==> (r.x as int, r.y as int) == side_slot(*self, width as int, height as int, index as int, count as int),
    {
        if count <= 1 {
            return self.offset(width, height);
        }
        let len: u128 = match self {
            HandlePosition::Top | HandlePosition::Bottom => width as u128,
            HandlePosition::Left | HandlePosition::Right => height as u128,
        };
        proof {
            assert(len * (index + 1) <= 0x1_0000_0000 * 0x1_0000_0000_0000_0000) by (nonlinear_arith)
                requires len <= 0x1_0000_0000, index + 1 <= 0x1_0000_0000_0000_0000;
            assert(len * (index + 1) <= len * count) by (nonlinear_arith)
                requires index < count;
            assert(len * count / (count + 1) <= len) by (nonlinear_arith)
                requires count > 1;
            assert(len * (index + 1) / (count + 1) <= len * count / (count + 1)) by (nonlinear_arith)
                requires len * (index + 1) <= len * count, count > 1;
        }
        let pos = (len * (index as u128 + 1) / (count as u128 + 1)) as i64;
        match self {
            HandlePosition::Top => Position::new(pos, 0),
            HandlePosition::Bottom => Position::new(pos, height as i64),
            HandlePosition::Left => Position::new(0, pos),
            HandlePosition::Right => Position::new(width as i64, pos),
        }
    }
}

/// Axis-aligned rectangle used for box selection.
#[derive(Debug, Clone, Copy, PartialEq, Eq, Default, Structural)]
pub struct SelectionRect {
    pub x: i64,
    pub y: i64,
    pub width: u64,
    pub height: u64,
}

/// Two closed rectangles overlap unless one lies wholly to one side of the other.
pub open spec fn rects_intersect(
    ax: int, ay: int, aw: int, ah: int, bx: int, by: int, bw: int, bh: int,
) -> bool {
    !(bx > ax + aw || bx + bw < ax || by > ay + ah || by + bh < ay)
}

impl SelectionRect {
    pub open spec fn spec_contains(&self, x: int, y: int) -> bool {
        self.x <= x <= self.x + self.width && self.y <= y <= self.y + self.height
    }

    pub open spec fn meets(&self, x: int, y: int, w: int, h: int) -> bool {
        rects_intersect(self.x as int, self.y as int, self.width as int, self.height as int, x, y, w, h)
    }

    /// Whether the point lies in the rectangle, borders included.
    pub fn contains(&self, x: i64, y: i64) -> (r: bool)
        ensures
            r == self.spec_contains(x as int, y as int),
    {
        let (px, py) = (x as i128, y as i128);
        px >= self.x as i128 && px <= self.x as i128 + self.width as i128
            && py >= self.y as i128 && py <= self.y as i128 + self.height as i128
    }

    /// Whether the two rectangles overlap, borders included.
    pub fn intersects(&self, other: &SelectionRect) -> (r: bool)
        ensures
            r == self.meets(other.x as int, other.y as int, other.width as int, other.height as int),
    {
        rect_meets(self, other.x, other.y, other.width, other.height)
    }
}

pub(crate) fn rect_meets(rect: &SelectionRect, x: i64, y: i64, w: u64, h: u64) -> (r: bool)
    ensures
        r == rect.meets(x as int, y as int, w as int, h as int),
{
    let (ax, ay, aw, ah) = (rect.x as i128, rect.y as i128, rect.width as i128, rect.height as i128);
    let (bx, by, bw, bh) = (x as i128, y as i128, w as i128, h as i128);
    !(bx > ax + aw || bx + bw < ax || by > ay + ah || by + bh < ay)
}

/// Tracks a rubber-band drag; the rectangle spans its two corners.
#[derive(Debug, Clone, Copy, PartialEq, Eq, Default, Structural)]
pub struct SelectionBoxState {
    pub active: bool,
    pub start: Position,
    pub end: Position,
}

/// The rectangle spanned by two corners.
pub open spec fn spanned(a: Position, b: Position) -> SelectionRect {
    let (x0, x1) = if a.x <= b.x { (a.x, b.x) } else { (b.x, a.x) };
    let (y0, y1) = if a.y <= b.y { (a.y, b.y) } else { (b.y, a.y) };
    SelectionRect { x: x0, y: y0, width: (x1 - x0) as u64, height: (y1 - y0) as u64 }
}

impl SelectionBoxState {
    pub fn new() -> (r: SelectionBoxState)
        ensures
            !r.active,
            r.start == (Position { x: 0, y: 0 }),
            r.end == (Position { x: 0, y: 0 }),
    {
        SelectionBoxState { active: false, start: Position { x: 0, y: 0 }, end: Position { x: 0, y: 0 } }
    }

    /// Begins a drag at `position`.
    pub fn start(&mut self, position: Position)
        ensures
            *final(self) == (SelectionBoxState { active: true, start: position, end: position }),
    {
        self.active = true;
        self.start = position;
        self.end = position;
    }

    /// Moves the free corner while a drag is active.
    pub fn update(&mut self, position: Position)
        ensures
            old(self).active ==> *final(self) == (SelectionBoxState { end: position, ..*old(self) }),
            !old(self).active ==> *final(self) == *old(self),
    {
        if self.active {
            self.end = position;
        }
    }

    /// Ends the drag and hands back its rectangle; nothing when none was active.
    pub fn finish(&mut self) -> (r: Option<SelectionRect>)
        ensures
            old(self).active ==> r == Some(spanned(old(self).start, old(self).end)),
            !old(self).active ==> r.is_none(),
            *final(self) == (SelectionBoxState { active: false, ..*old(self) }),
    {
        if !self.active {
            return None;
        }
        self.active = false;
        Some(self.get_rect())
    }

    /// Abandons the drag.
    pub fn cancel(&mut self)
        ensures
            *final(self) == (SelectionBoxState { active: false, ..*old(self) }),
    {
        self.active = false;
    }

    /// The normalized rectangle spanned by the two corners.
    pub fn get_rect(&self) -> (r: SelectionRect)
        ensures
            r == spanned(self.start, self.end),
    {
        let (x0, x1) = if self.start.x <= self.end.x { (self.start.x, self.end.x) } else { (self.end.x, self.start.x) };
        let (y0, y1) = if self.start.y <= self.end.y { (self.start.y, self.end.y) } else { (self.end.y, self.start.y) };
        SelectionRect { x: x0, y: y0, width: (x1 as i128 - x0 as i128) as u64, height: (y1 as i128 - y0 as i128) as u64 }
    }

    /// Whether the point lies in the current rectangle.
    pub fn contains(&self, x: i64, y: i64) -> (r: bool)
        ensures
            r == spanned(self.start, self.end).spec_contains(x as int, y as int),
    {
        self.get_rect().contains(x, y)
    }

    /// Whether the given rectangle overlaps the current one.
    pub fn intersects(&self, x: i64, y: i64, width: u64, height: u64) -> (r: bool)
        ensures
            r == spanned(self.start, self.end).meets(x as int, y as int, width as int, height as int),
    {
        let rect = self.get_rect();
        rect_meets(&rect, x, y, width, height)
    }
}

/// Bounds within which a node must stay.
#[derive(Debug, Clone, Copy, PartialEq, Eq, Structural)]
pub struct NodeExtent {
    pub min_x: i64,
    pub min_y: i64,
    pub max_x: i64,
    pub max_y: i64,
}

impl NodeExtent {
    pub fn new(min_x: i64, min_y: i64, max_x: i64, max_y: i64) -> (r: NodeExtent)
        ensures
            r == (NodeExtent { min_x, min_y, max_x, max_y }),
    {
        NodeExtent { min_x, min_y, max_x, max_y }
    }

    /// Bounds of a parent of the given size, with its origin at zero.
    pub fn parent(parent_width: u32, parent_height: u32) -> (r: NodeExtent)
        ensures
            r == (NodeExtent { min_x: 0, min_y: 0, max_x: parent_width as i64, max_y: parent_height as i64 }),
    {
        NodeExtent { min_x: 0, min_y: 0, max_x: parent_width as i64, max_y: parent_height as i64 }
    }

    /// Position moved so that a node of the given size stays within the bounds.
    pub open spec fn spec_clamp(&self, p: Position, w: int, h: int) -> Position {
        Position {
            x: clamp_axis(p.x as int, self.min_x as int, self.max_x - w) as i64,
            y: clamp_axis(p.y as int, self.min_y as int, self.max_y - h) as i64,
        }
    }

    /// Moves `position` so that a node of the given size lies within the
    /// bounds; where it cannot, its origin rests on the lower bound.
    pub fn clamp(&self, position: Position, node_width: u32, node_height: u32) -> (r: Position)
        ensures
            r == self.spec_clamp(position, node_width as int, node_height as int),
    {
        Position {
            x: clamp_axis_exec(position.x, self.min_x, self.max_x as i128 - node_width as i128),
            y: clamp_axis_exec(position.y, self.min_y, self.max_y as i128 - node_height as i128),
        }
    }
}

fn clamp_axis_exec(v: i64, lo: i64, hi: i128) -> (r: i64)
    ensures
        r == clamp_axis(v as int, lo as int, hi as int),
{
    if v as i128 > hi {
        if hi > lo as i128 { hi as i64 } else { lo }
    } else if v < lo {
        lo
    } else {
        v
    }
}

/// Quotient of `v` by `s > 0`, rounded to nearest, halves away from zero.
pub open spec fn round_div(v: int, s: int) -> int {
    if v >= 0 { (2 * v + s) / (2 * s) } else { -((-2 * v + s) / (2 * s)) }
}

/// `v` moved to the nearest multiple of `s`; unchanged where `s` is zero.
pub open spec fn snap_axis(v: int, s: int) -> int {
    if s <= 0 { v } else { s * round_div(v, s) }
}

/// Optional quantization of positions to a square grid.
#[derive(Debug, Clone, Copy, PartialEq, Eq, Structural)]
pub struct SnapGrid {
    pub enabled: bool,
    pub size: u32,
}

impl Default for SnapGrid {
    fn default() -> (r: SnapGrid)
        ensures
            r == (SnapGrid { enabled: false, size: 15 }),
    {
        SnapGrid { enabled: false, size: 15 }
    }
}

impl SnapGrid {
    /// An enabled grid with cells of `size` units.
    pub fn new(size: u32) -> (r: SnapGrid)
        ensures
            r == (SnapGrid { enabled: true, size }),
    {
        SnapGrid { enabled: true, size }
    }

    /// Where `p` lands: on the nearest grid point when enabled, else unchanged.
    pub open spec fn spec_snap(&self, p: Position) -> Position {
        if self.enabled {
            Position {
                x: snap_axis(p.x as int, self.size as int) as i64,
                y: snap_axis(p.y as int, self.size as int) as i64,
            }
        } else {
            p
        }
    }

    /// The snapped coordinates of `p` are representable.
    pub open spec fn snap_fits(&self, p: Position) -> bool {
        self.enabled ==> fits_i64(snap_axis(p.x as int, self.size as int)) && fits_i64(
            snap_axis(p.y as int, self.size as int),
        )
    }

    /// Snaps `position` to the grid when snapping is enabled.
    pub fn snap(&self, position: Position) -> (r: Position)
        requires
            self.snap_fits(position),
        ensures
            r == self.spec_snap(position),
    {
        if !self.enabled {
            return position;
        }
        Position { x: snap_axis_exec(position.x, self.size), y: snap_axis_exec(position.y, self.size) }
    }
}

fn snap_axis_exec(v: i64, s: u32) -> (r: i64)
    requires
        fits_i64(snap_axis(v as int, s as int)),
    ensures
        r == snap_axis(v as int, s as int),
{
    if s == 0 {
        return v;
    }
    let (v, s) = (v as i128, s as i128);
    let q: i128 = if v >= 0 {
        (2 * v + s) / (2 * s)
    } else {
        -((-2 * v + s) / (2 * s))
    };
    proof {
        assert(-0x1_0000_0000_0000_0000 <= q <= 0x1_0000_0000_0000_0000) by (nonlinear_arith)
            requires
                v >= 0 ==> q == (2 * v + s) / (2 * s),
                v < 0 ==> q == -((-2 * v + s) / (2 * s)),
                -0x8000_0000_0000_0000 <= v < 0x8000_0000_0000_0000,
                1 <= s < 0x1_0000_0000;
    }
    (s * q) as i64
}


/// Mapping a screen coordinate into the diagram and back lands on it or
/// short of it by less than one diagram unit at the camera's zoom plus one
/// screen unit of rounding.
pub proof fn lemma_coordinate_round_trip(camera: Viewport, screen: Position)
    requires
        camera.wf(),
    ensures
        ({
            let (z, one) = (camera.zoom as int, ZOOM_ONE as int);
            let bx = to_screen(to_diagram(screen.x as int, camera.x as int, z), camera.x as int, z);
            let by = to_screen(to_diagram(screen.y as int, camera.y as int, z), camera.y as int, z);
            &&& bx <= screen.x && (screen.x - bx) * one < z + one
            &&& by <= screen.y && (screen.y - by) * one < z + one
        }),
{
    lemma_round_trip_axis(screen.x as int, camera.x as int, camera.zoom as int);
    lemma_round_trip_axis(screen.y as int, camera.y as int, camera.zoom as int);
}

proof fn lemma_round_trip_axis(s: int, offset: int, z: int)
    requires
        MIN_ZOOM <= z <= MAX_ZOOM,
    ensures
        to_screen(to_diagram(s, offset, z), offset, z) <= s,
        (s - to_screen(to_diagram(s, offset, z), offset, z)) * 1000 < z + 1000,
{
    let d = s - offset;
    let q = d * 1000 / z;
    let w = q * z / 1000;
    lemma_fundamental_div_mod(d * 1000, z);
    lemma_fundamental_div_mod(q * z, 1000);
    let r1 = (d * 1000) % z;
    let r2 = (q * z) % 1000;
    assert(1000 * (d - w) == r1 + r2) by (nonlinear_arith)
        requires d * 1000 == z * q + r1, q * z == 1000 * w + r2;
}

/// Zooming around an anchor keeps the diagram point under it: the point
/// after lies at or before the one before, by less than one screen unit at
/// the new zoom plus one diagram unit of rounding.
pub proof fn lemma_anchor_zoom(camera: Viewport, anchor: Position, new_zoom: int)
    requires
        camera.wf(),
        MIN_ZOOM <= new_zoom <= MAX_ZOOM,
    ensures
        ({
            let z = camera.zoom as int;
            let bx = to_diagram(anchor.x as int, camera.x as int, z);
            let by = to_diagram(anchor.y as int, camera.y as int, z);
            let ax = to_diagram(anchor.x as int, zoomed_offset(anchor.x as int, camera.x as int, z, new_zoom), new_zoom);
            let ay = to_diagram(anchor.y as int, zoomed_offset(anchor.y as int, camera.y as int, z, new_zoom), new_zoom);
            &&& ax <= bx && (bx - ax) * new_zoom < ZOOM_ONE + new_zoom
            &&& ay <= by && (by - ay) * new_zoom < ZOOM_ONE + new_zoom
        }),
{
    lemma_anchor_axis(anchor.x as int, camera.x as int, camera.zoom as int, new_zoom);
    lemma_anchor_axis(anchor.y as int, camera.y as int, camera.zoom as int, new_zoom);
}

proof fn lemma_anchor_axis(a: int, x: int, z: int, z2: int)
    requires
        MIN_ZOOM <= z <= MAX_ZOOM,
        MIN_ZOOM <= z2 <= MAX_ZOOM,
    ensures
        to_diagram(a, zoomed_offset(a, x, z, z2), z2) <= to_diagram(a, x, z),
        (to_diagram(a, x, z) - to_diagram(a, zoomed_offset(a, x, z, z2), z2)) * z2 < 1000 + z2,
{
    let d = a - x;
    let e = d * z2 / z;
    assert(a - zoomed_offset(a, x, z, z2) == e);
    let p = d * 1000 / z;
    let q = e * 1000 / z2;
    lemma_fundamental_div_mod(d * z2, z);
    lemma_fundamental_div_mod(d * 1000, z);
    lemma_fundamental_div_mod(e * 1000, z2);
    let r1 = (d * z2) % z;
    let r2 = (d * 1000) % z;
    let r3 = (e * 1000) % z2;
    assert(z * z2 * (p - q) == 1000 * r1 + z * r3 - z2 * r2) by (nonlinear_arith)
        requires d * z2 == z * e + r1, d * 1000 == z * p + r2, e * 1000 == z2 * q + r3;
    assert(z2 * r2 < z2 * z) by (nonlinear_arith) requires r2 < z, z2 > 0;
    assert(z * r3 >= 0) by (nonlinear_arith) requires r3 >= 0, z > 0;
    assert(z * z2 * (p - q) > -(z * z2)) by (nonlinear_arith)
        requires z * z2 * (p - q) == 1000 * r1 + z * r3 - z2 * r2, 0 <= r1, z * r3 >= 0, z2 * r2 < z2 * z;
    assert(p - q >= 0) by (nonlinear_arith)
        requires z * z2 * (p - q) > -(z * z2), z > 0, z2 > 0;
    assert(z * r3 < z * z2) by (nonlinear_arith) requires r3 < z2, z > 0;
    assert(z2 * r2 >= 0) by (nonlinear_arith) requires r2 >= 0, z2 > 0;
    assert(z * (z2 * (p - q)) < z * (1000 + z2)) by (nonlinear_arith)
        requires z * z2 * (p - q) == 1000 * r1 + z * r3 - z2 * r2, r1 < z, z * r3 < z * z2, z2 * r2 >= 0;
    assert(z2 * (p - q) < 1000 + z2) by (nonlinear_arith)
        requires z * (z2 * (p - q)) < z * (1000 + z2), z > 0;
    assert((p - q) * z2 == z2 * (p - q)) by (nonlinear_arith);
}

proof fn lemma_snap_axis_idempotent(v: int, s: int)
    requires
        s > 0,
    ensures
        snap_axis(snap_axis(v, s), s) == snap_axis(v, s),
{
    let k = round_div(v, s);
    let w = s * k;
    if k >= 0 {
        assert(w >= 0) by (nonlinear_arith) requires s > 0, k >= 0, w == s * k;
        assert(2 * w + s == k * (2 * s) + s) by (nonlinear_arith) requires w == s * k;
        lemma_fundamental_div_mod_converse(2 * w + s, 2 * s, k, s);
    } else {
        assert(w < 0) by (nonlinear_arith) requires s > 0, k < 0, w == s * k;
        assert(-2 * w + s == (-k) * (2 * s) + s) by (nonlinear_arith) requires w == s * k;
        lemma_fundamental_div_mod_converse(-2 * w + s, 2 * s, -k, s);
    }
}

proof fn lemma_snap_axis_near(v: int, s: int)
    requires
        s > 0,
    ensures
        v - s <= snap_axis(v, s) <= v + s,
{
    if v >= 0 {
        let q = (2 * v + s) / (2 * s);
        lemma_fundamental_div_mod(2 * v + s, 2 * s);
        let r = (2 * v + s) % (2 * s);
        assert(2 * s * q == 2 * v + s - r);
        assert(s * q <= v + s && s * q >= v - s) by (nonlinear_arith)
            requires 2 * s * q == 2 * v + s - r, 0 <= r < 2 * s, s > 0;
    } else {
        let q = (-2 * v + s) / (2 * s);
        lemma_fundamental_div_mod(-2 * v + s, 2 * s);
        let r = (-2 * v + s) % (2 * s);
        assert(2 * s * q == -2 * v + s - r);
        assert(s * q <= -v + s && s * q >= -v - s) by (nonlinear_arith)
            requires 2 * s * q == -2 * v + s - r, 0 <= r < 2 * s, s > 0;
        assert(s * (-q) == -(s * q)) by (nonlinear_arith);
    }
}

/// Every point at least one grid cell away from the `i64` limits snaps to
/// a representable point.
pub proof fn lemma_snap_fits_within_cell(grid: SnapGrid, p: Position)
    requires
        i64::MIN + grid.size <= p.x <= i64::MAX - grid.size,
        i64::MIN + grid.size <= p.y <= i64::MAX - grid.size,
    ensures
        grid.snap_fits(p),
{
    if grid.size > 0 {
        lemma_snap_axis_near(p.x as int, grid.size as int);
        lemma_snap_axis_near(p.y as int, grid.size as int);
    }
}

/// Snapping a snapped position changes nothing.
pub proof fn lemma_snap_idempotent(grid: SnapGrid, p: Position)
    requires
        grid.snap_fits(p),
    ensures
        grid.snap_fits(grid.spec_snap(p)),
        grid.spec_snap(grid.spec_snap(p)) == grid.spec_snap(p),
{
    if grid.enabled && grid.size > 0 {
        lemma_snap_axis_idempotent(p.x as int, grid.size as int);
        lemma_snap_axis_idempotent(p.y as int, grid.size as int);
    }
}

} // verus!
