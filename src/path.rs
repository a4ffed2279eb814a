//! Edge routing: the drawing commands of an edge between two points, and
//! their SVG path notation.

use vstd::prelude::*;
use vstd::string::StringExecFns;
use crate::arith::floor_div;
use crate::geometry::{HandlePosition, Position};
use crate::types::{EdgeType, decimal, push_decimal};

verus! {

/// Coordinates of route end points stay within this magnitude.
pub const ROUTE_LIMIT: i64 = 0x4000_0000_0000_0000;

/// Fixed bend of the smooth-step route when the target lies behind.
pub const BACKTRACK_OFFSET: i64 = 80;

/// Largest corner radius of the smooth-step route.
pub const MAX_CORNER_RADIUS: u32 = 10;

/// Corner radius the edge path dispatcher gives smooth-step routes.
pub const SMOOTH_STEP_RADIUS: u32 = 5;

/// One drawing command of a path.
#[derive(Debug, Clone, Copy, PartialEq, Eq, Structural)]
pub enum PathCommand {
    MoveTo(Position),
    LineTo(Position),
    /// Quadratic curve through a control point.
    QuadTo(Position, Position),
    /// Cubic curve through two control points.
    CubicTo(Position, Position, Position),
}

/// A route end point lies within `ROUTE_LIMIT`.
pub open spec fn routable(p: Position) -> bool {
    -ROUTE_LIMIT <= p.x <= ROUTE_LIMIT && -ROUTE_LIMIT <= p.y <= ROUTE_LIMIT
}

pub open spec fn pt(x: int, y: int) -> Position {
    Position { x: x as i64, y: y as i64 }
}

pub open spec fn abs(v: int) -> int {
    if v < 0 { -v } else { v }
}

/// Distance of the bezier control points from the end points.
pub open spec fn control_distance(s: Position, t: Position) -> int {
    let base = (abs(t.x - s.x) + abs(t.y - s.y)) / 3;
    if base < 30 { 30 } else if base > 150 { 150 } else { base }
}

/// Outward normal of `side` scaled by `d`.
pub open spec fn outward(side: HandlePosition, d: int) -> (int, int) {
    match side {
        HandlePosition::Top => (0, -d),
        HandlePosition::Right => (d, 0),
        HandlePosition::Bottom => (0, d),
        HandlePosition::Left => (-d, 0),
    }
}

/// Cubic curve leaving each end along its side's outward normal.
pub open spec fn bezier_route(s: Position, t: Position, sp: HandlePosition, tp: HandlePosition) -> Seq<PathCommand> {
    let d = control_distance(s, t);
    let (ax, ay) = outward(sp, d);
    let (bx, by) = outward(tp, d);
    seq![PathCommand::MoveTo(s), PathCommand::CubicTo(pt(s.x + ax, s.y + ay), pt(t.x + bx, t.y + by), t)]
}

pub open spec fn straight_route(s: Position, t: Position) -> Seq<PathCommand> {
    seq![PathCommand::MoveTo(s), PathCommand::LineTo(t)]
}

/// One orthogonal bend at the midline between the ends: horizontal for a
/// top or bottom source, vertical otherwise.
pub open spec fn step_route(s: Position, t: Position, sp: HandlePosition) -> Seq<PathCommand> {
    match sp {
        HandlePosition::Top | HandlePosition::Bottom => {
            let mid_y = (s.y + t.y) / 2;
            seq![PathCommand::MoveTo(s), PathCommand::LineTo(pt(s.x as int, mid_y)), PathCommand::LineTo(pt(t.x as int, mid_y)), PathCommand::LineTo(t)]
        },
        _ => {
            let mid_x = (s.x + t.x) / 2;
            seq![PathCommand::MoveTo(s), PathCommand::LineTo(pt(mid_x, s.y as int)), PathCommand::LineTo(pt(mid_x, t.y as int)), PathCommand::LineTo(t)]
        },
    }
}

/// `r` with the sign of `v`; zero where `v` is zero.
pub open spec fn toward(v: int, r: int) -> int {
    if v == 0 { 0 } else if v > 0 { r } else { -r }
}

/// Route through the vertical midline with rounded corners; `lead` is the
/// horizontal direction of the first corner.
pub open spec fn vertical_midline(s: Position, t: Position, r: int, lead: int) -> Seq<PathCommand> {
    let mid_x = (s.x + t.x) / 2;
    let dir_y = toward(t.y - s.y, r);
    seq![
        PathCommand::MoveTo(s),
        PathCommand::LineTo(pt(mid_x - r * lead, s.y as int)),
        PathCommand::QuadTo(pt(mid_x, s.y as int), pt(mid_x, s.y + dir_y)),
        PathCommand::LineTo(pt(mid_x, t.y - dir_y)),
        PathCommand::QuadTo(pt(mid_x, t.y as int), pt(mid_x + r * lead, t.y as int)),
        PathCommand::LineTo(t),
    ]
}

/// Orthogonal route with rounded corners of radius `radius`, at most
/// `MAX_CORNER_RADIUS`. A right-to-left route whose target lies behind its
/// source bends out as a curve instead.
pub open spec fn smooth_step_route(s: Position, t: Position, sp: HandlePosition, tp: HandlePosition, radius: int) -> Seq<PathCommand> {
    let r = if radius > MAX_CORNER_RADIUS { MAX_CORNER_RADIUS as int } else { radius };
    match (sp, tp) {
        (HandlePosition::Right, HandlePosition::Left) => {
            if t.x < s.x {
                seq![
                    PathCommand::MoveTo(s),
                    PathCommand::CubicTo(pt(s.x + BACKTRACK_OFFSET, s.y as int), pt(t.x - BACKTRACK_OFFSET, t.y as int), t),
                ]
            } else {
                vertical_midline(s, t, r, 1)
            }
        },
        (HandlePosition::Left, HandlePosition::Right) => vertical_midline(s, t, r, -1),
        (HandlePosition::Top, _) | (HandlePosition::Bottom, _) => {
            let mid_y = (s.y + t.y) / 2;
            let dir_y = if t.y > s.y { 1int } else { -1int };
            let dir_x = toward(t.x - s.x, r);
            seq![
                PathCommand::MoveTo(s),
                PathCommand::LineTo(pt(s.x as int, mid_y - r * dir_y)),
                PathCommand::QuadTo(pt(s.x as int, mid_y), pt(s.x + dir_x, mid_y)),
                PathCommand::LineTo(pt(t.x - dir_x, mid_y)),
                PathCommand::QuadTo(pt(t.x as int, mid_y), pt(t.x as int, mid_y + r * dir_y)),
                PathCommand::LineTo(t),
            ]
        },
        _ => vertical_midline(s, t, r, if t.x > s.x { 1 } else { -1 }),
    }
}

/// The route of an edge of the given kind.
pub open spec fn edge_route(kind: EdgeType, s: Position, t: Position, sp: HandlePosition, tp: HandlePosition) -> Seq<PathCommand> {
    match kind {
        EdgeType::Bezier => bezier_route(s, t, sp, tp),
        EdgeType::Straight => straight_route(s, t),
        EdgeType::Step => step_route(s, t, sp),
        EdgeType::SmoothStep => smooth_step_route(s, t, sp, tp, SMOOTH_STEP_RADIUS as int),
    }
}

fn at(x: i128, y: i128) -> (r: Position)
    requires
        i64::MIN <= x <= i64::MAX,
        i64::MIN <= y <= i64::MAX,
    ensures
        r == pt(x as int, y as int),
{
    Position { x: x as i64, y: y as i64 }
}

fn outward_exec(side: HandlePosition, d: i128) -> (r: (i128, i128))
    requires
        0 <= d <= 1000,
    ensures
        r.0 == outward(side, d as int).0,
        r.1 == outward(side, d as int).1,
{
    match side {
        HandlePosition::Top => (0, -d),
        HandlePosition::Right => (d, 0),
        HandlePosition::Bottom => (0, d),
        HandlePosition::Left => (-d, 0),
    }
}

/// Cubic bezier route; each control point sits along its side's outward
/// normal, at a third of the ends' Manhattan distance kept within 30..150.
pub fn get_bezier_path(source: Position, target: Position, source_position: HandlePosition, target_position: HandlePosition) -> (r: Vec<PathCommand>)
    requires
        routable(source),
        routable(target),
    ensures
        r@ == bezier_route(source, target, source_position, target_position),
{
    let (sx, sy, tx, ty) = (source.x as i128, source.y as i128, target.x as i128, target.y as i128);
    let dx = if tx - sx < 0 { sx - tx } else { tx - sx };
    let dy = if ty - sy < 0 { sy - ty } else { ty - sy };
    let base = (dx + dy) / 3;
    let d = if base < 30 { 30 } else if base > 150 { 150 } else { base };
    let (ax, ay) = outward_exec(source_position, d);
    let (bx, by) = outward_exec(target_position, d);
    let c1 = at(sx + ax, sy + ay);
    let c2 = at(tx + bx, ty + by);
    let r = vec![PathCommand::MoveTo(source), PathCommand::CubicTo(c1, c2, target)];
    assert(r@ =~= bezier_route(source, target, source_position, target_position));
    r
}

/// Straight segment between the ends.
pub fn get_straight_path(source: Position, target: Position) -> (r: Vec<PathCommand>)
    ensures
        r@ == straight_route(source, target),
{
    let r = vec![PathCommand::MoveTo(source), PathCommand::LineTo(target)];
    assert(r@ =~= straight_route(source, target));
    r
}

/// Orthogonal route with one bend at the midline between the ends.
pub fn get_step_path(source: Position, target: Position, source_position: HandlePosition, target_position: HandlePosition) -> (r: Vec<PathCommand>)
    requires
        routable(source),
        routable(target),
    ensures
        r@ == step_route(source, target, source_position),
{
    let (sx, sy, tx, ty) = (source.x as i128, source.y as i128, target.x as i128, target.y as i128);
    let r = match source_position {
        HandlePosition::Top | HandlePosition::Bottom => {
            let mid_y = floor_div(sy + ty, 2);
            let (pa, pb) = (at(sx, mid_y), at(tx, mid_y));
            vec![PathCommand::MoveTo(source), PathCommand::LineTo(pa), PathCommand::LineTo(pb), PathCommand::LineTo(target)]
        },
        _ => {
            let mid_x = floor_div(sx + tx, 2);
            let (pa, pb) = (at(mid_x, sy), at(mid_x, ty));
            vec![PathCommand::MoveTo(source), PathCommand::LineTo(pa), PathCommand::LineTo(pb), PathCommand::LineTo(target)]
        },
    };
    assert(r@ =~= step_route(source, target, source_position));
    r
}

fn toward_exec(v: i128, r: i128) -> (o: i128)
    requires
        0 <= r <= 10,
    ensures
        o == toward(v as int, r as int),
{
    if v == 0 { 0 } else if v > 0 { r } else { -r }
}

fn vertical_midline_exec(source: Position, target: Position, r: i128, lead: i128) -> (o: Vec<PathCommand>)
    requires
        routable(source),
        routable(target),
        0 <= r <= 10,
        lead == 1 || lead == -1,
    ensures
        o@ == vertical_midline(source, target, r as int, lead as int),
{
    let (sx, sy, tx, ty) = (source.x as i128, source.y as i128, target.x as i128, target.y as i128);
    let mid_x = floor_div(sx + tx, 2);
    let dir_y = toward_exec(ty - sy, r);
    let pa = at(mid_x - r * lead, sy);
    let c1 = at(mid_x, sy);
    let pb = at(mid_x, sy + dir_y);
    let pc = at(mid_x, ty - dir_y);
    let c2 = at(mid_x, ty);
    let pd = at(mid_x + r * lead, ty);
    let o = vec![
        PathCommand::MoveTo(source),
        PathCommand::LineTo(pa),
        PathCommand::QuadTo(c1, pb),
        PathCommand::LineTo(pc),
        PathCommand::QuadTo(c2, pd),
        PathCommand::LineTo(target),
    ];
    assert(o@ =~= vertical_midline(source, target, r as int, lead as int));
    o
}

/// Orthogonal route with rounded corners; see `smooth_step_route`.
pub fn get_smooth_step_path(source: Position, target: Position, source_position: HandlePosition, target_position: HandlePosition, border_radius: u32) -> (o: Vec<PathCommand>)
    requires
        routable(source),
        routable(target),
    ensures
        o@ == smooth_step_route(source, target, source_position, target_position, border_radius as int),
{
    let (sx, sy, tx, ty) = (source.x as i128, source.y as i128, target.x as i128, target.y as i128);
    let r: i128 = if border_radius > MAX_CORNER_RADIUS { MAX_CORNER_RADIUS as i128 } else { border_radius as i128 };
    match (source_position, target_position) {
        (HandlePosition::Right, HandlePosition::Left) => {
            if tx < sx {
                let c1 = at(sx + 80, sy);
                let c2 = at(tx - 80, ty);
                let o = vec![PathCommand::MoveTo(source), PathCommand::CubicTo(c1, c2, target)];
                assert(o@ =~= smooth_step_route(source, target, source_position, target_position, border_radius as int));
                o
            } else {
                vertical_midline_exec(source, target, r, 1)
            }
        },
        (HandlePosition::Left, HandlePosition::Right) => vertical_midline_exec(source, target, r, -1),
        (HandlePosition::Top, _) | (HandlePosition::Bottom, _) => {
            let mid_y = floor_div(sy + ty, 2);
            let dir_y: i128 = if ty > sy { 1 } else { -1 };
            let dir_x = toward_exec(tx - sx, r);
            let rd: i128 = if ty > sy { r } else { -r };
            assert(rd == r * dir_y) by (nonlinear_arith)
                requires (ty > sy ==> rd == r && dir_y == 1), (ty <= sy ==> rd == -r && dir_y == -1);
            let pa = at(sx, mid_y - rd);
            let c1 = at(sx, mid_y);
            let pb = at(sx + dir_x, mid_y);
            let pc = at(tx - dir_x, mid_y);
            let c2 = at(tx, mid_y);
            let pd = at(tx, mid_y + rd);
            let o = vec![
                PathCommand::MoveTo(source),
                PathCommand::LineTo(pa),
                PathCommand::QuadTo(c1, pb),
                PathCommand::LineTo(pc),
                PathCommand::QuadTo(c2, pd),
                PathCommand::LineTo(target),
            ];
            assert(o@ =~= smooth_step_route(source, target, source_position, target_position, border_radius as int));
            o
        },
        _ => vertical_midline_exec(source, target, r, if tx > sx { 1 } else { -1 }),
    }
}

/// The route of an edge of the given kind; smooth steps get corners of
/// radius `SMOOTH_STEP_RADIUS`.
pub fn get_edge_path(edge_type: EdgeType, source: Position, target: Position, source_position: HandlePosition, target_position: HandlePosition) -> (r: Vec<PathCommand>)
    requires
        routable(source),
        routable(target),
    ensures
        r@ == edge_route(edge_type, source, target, source_position, target_position),
{
    match edge_type {
        EdgeType::Bezier => get_bezier_path(source, target, source_position, target_position),
        EdgeType::Straight => get_straight_path(source, target),
        EdgeType::Step => get_step_path(source, target, source_position, target_position),
        EdgeType::SmoothStep => get_smooth_step_path(source, target, source_position, target_position, SMOOTH_STEP_RADIUS),
    }
}


/// Decimal notation of an integer, with a leading minus when negative.
pub open spec fn int_text(v: int) -> Seq<char> {
    if v < 0 { seq!['-'] + decimal((-v) as nat) } else { decimal(v as nat) }
}

/// `x,y`
pub open spec fn point_text(p: Position) -> Seq<char> {
    int_text(p.x as int) + seq![','] + int_text(p.y as int)
}

/// A command in SVG path notation: its letter, then its points.
pub open spec fn command_text(c: PathCommand) -> Seq<char> {
    match c {
        PathCommand::MoveTo(p) => seq!['M', ' '] + point_text(p),
        PathCommand::LineTo(p) => seq!['L', ' '] + point_text(p),
        PathCommand::QuadTo(a, p) => seq!['Q', ' '] + point_text(a) + seq![' '] + point_text(p),
        PathCommand::CubicTo(a, b, p) => seq!['C', ' '] + point_text(a) + seq![' '] + point_text(b) + seq![' '] + point_text(p),
    }
}

/// The commands in SVG path notation, separated by spaces.
pub open spec fn svg_of(cmds: Seq<PathCommand>) -> Seq<char>
    decreases cmds.len(),
{
    if cmds.len() == 0 {
        Seq::empty()
    } else if cmds.len() == 1 {
        command_text(cmds[0])
    } else {
        svg_of(cmds.drop_last()) + seq![' '] + command_text(cmds.last())
    }
}

fn push_int(s: &mut String, v: i64)
    ensures
        final(s)@ == old(s)@ + int_text(v as int),
{
    if v < 0 {
        s.append("-");
        push_decimal(s, (-(v as i128)) as u64);
        proof {
            reveal_strlit("-");
            assert(final(s)@ =~= old(s)@ + int_text(v as int));
        }
    } else {
        push_decimal(s, v as u64);
    }
}

fn push_point(s: &mut String, p: Position)
    ensures
        final(s)@ == old(s)@ + point_text(p),
{
    push_int(s, p.x);
    s.append(",");
    push_int(s, p.y);
    proof {
        reveal_strlit(",");
        assert(final(s)@ =~= old(s)@ + point_text(p));
    }
}

fn push_command(s: &mut String, c: PathCommand)
    ensures
        final(s)@ == old(s)@ + command_text(c),
{
    proof {
        reveal_strlit("M ");
        reveal_strlit("L ");
        reveal_strlit("Q ");
        reveal_strlit("C ");
        reveal_strlit(" ");
    }
    match c {
        PathCommand::MoveTo(p) => {
            s.append("M ");
            push_point(s, p);
        },
        PathCommand::LineTo(p) => {
            s.append("L ");
            push_point(s, p);
        },
        PathCommand::QuadTo(a, p) => {
            s.append("Q ");
            push_point(s, a);
            s.append(" ");
            push_point(s, p);
        },
        PathCommand::CubicTo(a, b, p) => {
            s.append("C ");
            push_point(s, a);
            s.append(" ");
            push_point(s, b);
            s.append(" ");
            push_point(s, p);
        },
    }
    assert(final(s)@ =~= old(s)@ + command_text(c));
}

/// The route in SVG path notation, as the `d` attribute of a `path`.
pub fn path_to_svg(cmds: &Vec<PathCommand>) -> (r: String)
    ensures
        r@ == svg_of(cmds@),
{
    let mut s = String::new();
    let mut i: usize = 0;
    while i < cmds.len()
        invariant
            i <= cmds@.len(),
            s@ == svg_of(cmds@.take(i as int)),
        decreases cmds@.len() - i,
    {
        proof {
            let t = cmds@.take(i + 1);
            assert(t.drop_last() =~= cmds@.take(i as int));
            assert(t.last() == cmds@[i as int]);
            reveal_strlit(" ");
        }
        if i > 0 {
            s.append(" ");
        }
        push_command(&mut s, cmds[i]);
        proof {
            let t = cmds@.take(i + 1);
            if i == 0 {
                assert(svg_of(cmds@.take(0)) =~= Seq::<char>::empty());
                assert(s@ =~= svg_of(t));
            } else {
                assert(s@ =~= svg_of(t));
            }
        }
        i += 1;
    }
    assert(cmds@.take(cmds@.len() as int) =~= cmds@);
    s
}

} // verus!
