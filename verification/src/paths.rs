//! Minimum-length move sequences between keys of a keypad.
//!
//! Both keypads are rectangles with one corner cell missing, so a
//! minimum-length route between two keys always moves along one axis fully
//! and then along the other: at most two candidate routes exist (horizontal
//! then vertical, or vertical then horizontal), and a candidate is legal
//! exactly when it never enters the gap cell or leaves the grid. Route
//! length always equals the Manhattan distance of the two keys. Which legal
//! candidate is cheapest depends on the indirection depth and is decided by
//! the cost table, not here.

use vstd::math::abs;
use vstd::prelude::*;

use crate::direction::{go_spec, Direction};
use crate::keypad::{DirPad, NumPad};

verus! {

/// The cell one step in direction `d` from `pos`.
pub open spec fn step(pos: (int, int), d: Direction) -> (int, int) {
    go_spec(pos, d, 1)
}

/// The cell reached from `pos` after making `moves` in order.
pub open spec fn walk(pos: (int, int), moves: Seq<Direction>) -> (int, int)
    decreases moves.len(),
{
    if moves.len() == 0 {
        pos
    } else {
        walk(step(pos, moves[0]), moves.skip(1))
    }
}

/// Every cell entered from `pos` along `moves` satisfies `valid`.
/// The start cell itself is not checked.
pub open spec fn stays_on(
    pos: (int, int),
    moves: Seq<Direction>,
    valid: spec_fn((int, int)) -> bool,
) -> bool
    decreases moves.len(),
{
    if moves.len() == 0 {
        true
    } else {
        let p = step(pos, moves[0]);
        valid(p) && stays_on(p, moves.skip(1), valid)
    }
}

/// Whether `p` is a key cell of the directional keypad.
pub open spec fn dir_cells() -> spec_fn((int, int)) -> bool {
    |p: (int, int)| DirPad::at_spec(p) is Some
}

/// Whether `p` is a key cell of the numeric keypad.
pub open spec fn num_cells() -> spec_fn((int, int)) -> bool {
    |p: (int, int)| NumPad::at_spec(p) is Some
}

/// `|dx|` horizontal moves: rightwards for positive `dx`, leftwards for
/// negative `dx`.
pub open spec fn h_moves(dx: int) -> Seq<Direction> {
    if dx >= 0 {
        Seq::new(dx as nat, |i: int| Direction::Right)
    } else {
        Seq::new((-dx) as nat, |i: int| Direction::Left)
    }
}

/// `|dy|` vertical moves: downwards for positive `dy`, upwards for negative
/// `dy`.
pub open spec fn v_moves(dy: int) -> Seq<Direction> {
    if dy >= 0 {
        Seq::new(dy as nat, |i: int| Direction::Down)
    } else {
        Seq::new((-dy) as nat, |i: int| Direction::Up)
    }
}

/// The horizontal-then-vertical candidate route from `src` to `dst`.
pub open spec fn hv_moves(src: (int, int), dst: (int, int)) -> Seq<Direction> {
    h_moves(dst.0 - src.0) + v_moves(dst.1 - src.1)
}

/// The vertical-then-horizontal candidate route from `src` to `dst`.
pub open spec fn vh_moves(src: (int, int), dst: (int, int)) -> Seq<Direction> {
    v_moves(dst.1 - src.1) + h_moves(dst.0 - src.0)
}

/// The Manhattan distance between two cells.
pub open spec fn manhattan(a: (int, int), b: (int, int)) -> nat {
    abs(b.0 - a.0) + abs(b.1 - a.1)
}

/// Whether the horizontal-then-vertical route between two directional keys
/// stays on key cells.
pub open spec fn dir_hv_ok(src: DirPad, dst: DirPad) -> bool {
    stays_on(src.pos_spec(), hv_moves(src.pos_spec(), dst.pos_spec()), dir_cells())
}

/// Whether the vertical-then-horizontal route between two directional keys
/// stays on key cells.
pub open spec fn dir_vh_ok(src: DirPad, dst: DirPad) -> bool {
    stays_on(src.pos_spec(), vh_moves(src.pos_spec(), dst.pos_spec()), dir_cells())
}

/// Whether the horizontal-then-vertical route between two numeric keys
/// stays on key cells.
pub open spec fn num_hv_ok(src: NumPad, dst: NumPad) -> bool {
    stays_on(src.pos_spec(), hv_moves(src.pos_spec(), dst.pos_spec()), num_cells())
}

/// Whether the vertical-then-horizontal route between two numeric keys
/// stays on key cells.
pub open spec fn num_vh_ok(src: NumPad, dst: NumPad) -> bool {
    stays_on(src.pos_spec(), vh_moves(src.pos_spec(), dst.pos_spec()), num_cells())
}

/// Walking a concatenation walks its parts in order.
pub proof fn lemma_walk_append(pos: (int, int), a: Seq<Direction>, b: Seq<Direction>)
    ensures
        walk(pos, a + b) == walk(walk(pos, a), b),
    decreases a.len(),
{
    if a.len() == 0 {
        assert(a + b =~= b);
    } else {
        assert((a + b).skip(1) =~= a.skip(1) + b);
        lemma_walk_append(step(pos, a[0]), a.skip(1), b);
    }
}

/// A concatenation stays on valid cells exactly when both parts do, the
/// second starting where the first ends.
pub proof fn lemma_stays_append(
    pos: (int, int),
    a: Seq<Direction>,
    b: Seq<Direction>,
    valid: spec_fn((int, int)) -> bool,
)
    ensures
        stays_on(pos, a + b, valid) <==> (stays_on(pos, a, valid) && stays_on(
            walk(pos, a),
            b,
            valid,
        )),
    decreases a.len(),
{
    if a.len() == 0 {
        assert(a + b =~= b);
    } else {
        assert((a + b).skip(1) =~= a.skip(1) + b);
        lemma_stays_append(step(pos, a[0]), a.skip(1), b, valid);
    }
}

/// A horizontal run ends `dx` columns over, on the same row.
pub proof fn lemma_h_walk(pos: (int, int), dx: int)
    ensures
        walk(pos, h_moves(dx)) == ((pos.0 + dx, pos.1)),
    decreases abs(dx),
{
    if dx > 0 {
        assert(h_moves(dx).skip(1) =~= h_moves(dx - 1));
        lemma_h_walk((pos.0 + 1, pos.1), dx - 1);
    } else if dx < 0 {
        assert(h_moves(dx).skip(1) =~= h_moves(dx + 1));
        lemma_h_walk((pos.0 - 1, pos.1), dx + 1);
    }
}

/// A vertical run ends `dy` rows down, in the same column.
pub proof fn lemma_v_walk(pos: (int, int), dy: int)
    ensures
        walk(pos, v_moves(dy)) == ((pos.0, pos.1 + dy)),
    decreases abs(dy),
{
    if dy > 0 {
        assert(v_moves(dy).skip(1) =~= v_moves(dy - 1));
        lemma_v_walk((pos.0, pos.1 + 1), dy - 1);
    } else if dy < 0 {
        assert(v_moves(dy).skip(1) =~= v_moves(dy + 1));
        lemma_v_walk((pos.0, pos.1 - 1), dy + 1);
    }
}

/// Both candidate routes end on the destination cell.
pub proof fn lemma_axis_walks(src: (int, int), dst: (int, int))
    ensures
        walk(src, hv_moves(src, dst)) == dst,
        walk(src, vh_moves(src, dst)) == dst,
{
    lemma_h_walk(src, dst.0 - src.0);
    lemma_walk_append(src, h_moves(dst.0 - src.0), v_moves(dst.1 - src.1));
    lemma_v_walk((dst.0, src.1), dst.1 - src.1);
    lemma_v_walk(src, dst.1 - src.1);
    lemma_walk_append(src, v_moves(dst.1 - src.1), h_moves(dst.0 - src.0));
    lemma_h_walk((src.0, dst.1), dst.0 - src.0);
}

/// A horizontal run stays on valid cells when every cell it crosses is
/// valid.
pub proof fn lemma_h_stays(pos: (int, int), dx: int, valid: spec_fn((int, int)) -> bool)
    requires
        forall|x: int|
            ((pos.0 < x <= pos.0 + dx) || (pos.0 + dx <= x < pos.0)) ==> #[trigger] valid(
                (x, pos.1),
            ),
    ensures
        stays_on(pos, h_moves(dx), valid),
    decreases abs(dx),
{
    if dx > 0 {
        assert(h_moves(dx).skip(1) =~= h_moves(dx - 1));
        assert(valid((pos.0 + 1, pos.1)));
        lemma_h_stays((pos.0 + 1, pos.1), dx - 1, valid);
    } else if dx < 0 {
        assert(h_moves(dx).skip(1) =~= h_moves(dx + 1));
        assert(valid((pos.0 - 1, pos.1)));
        lemma_h_stays((pos.0 - 1, pos.1), dx + 1, valid);
    }
}

/// A vertical run stays on valid cells when every cell it crosses is valid.
pub proof fn lemma_v_stays(pos: (int, int), dy: int, valid: spec_fn((int, int)) -> bool)
    requires
        forall|y: int|
            ((pos.1 < y <= pos.1 + dy) || (pos.1 + dy <= y < pos.1)) ==> #[trigger] valid(
                (pos.0, y),
            ),
    ensures
        stays_on(pos, v_moves(dy), valid),
    decreases abs(dy),
{
    if dy > 0 {
        assert(v_moves(dy).skip(1) =~= v_moves(dy - 1));
        assert(valid((pos.0, pos.1 + 1)));
        lemma_v_stays((pos.0, pos.1 + 1), dy - 1, valid);
    } else if dy < 0 {
        assert(v_moves(dy).skip(1) =~= v_moves(dy + 1));
        assert(valid((pos.0, pos.1 - 1)));
        lemma_v_stays((pos.0, pos.1 - 1), dy + 1, valid);
    }
}

/// Between any two directional keys at least one of the two candidate
/// routes is legal: the single missing corner never blocks both axis
/// orders, so no key pair is unreachable.
pub proof fn lemma_dir_route_exists(src: DirPad, dst: DirPad)
    ensures
        dir_hv_ok(src, dst) || dir_vh_ok(src, dst),
{
    let s = src.pos_spec();
    let t = dst.pos_spec();
    if DirPad::at_spec((t.0, s.1)) is Some {
        lemma_h_stays(s, t.0 - s.0, dir_cells());
        lemma_h_walk(s, t.0 - s.0);
        lemma_v_stays((t.0, s.1), t.1 - s.1, dir_cells());
        lemma_stays_append(s, h_moves(t.0 - s.0), v_moves(t.1 - s.1), dir_cells());
        assert(dir_hv_ok(src, dst));
    } else {
        lemma_v_stays(s, t.1 - s.1, dir_cells());
        lemma_v_walk(s, t.1 - s.1);
        lemma_h_stays((s.0, t.1), t.0 - s.0, dir_cells());
        lemma_stays_append(s, v_moves(t.1 - s.1), h_moves(t.0 - s.0), dir_cells());
        assert(dir_vh_ok(src, dst));
    }
}

/// A vector of `n` copies of the move `d`.
fn repeat_move(d: Direction, n: usize) -> (v: Vec<Direction>)
    ensures
        v@ == Seq::new(n as nat, |i: int| d),
{
    let mut v: Vec<Direction> = Vec::new();
    let mut i: usize = 0;
    while i < n
        invariant
            i <= n,
            v@ =~= Seq::new(i as nat, |j: int| d),
        decreases n - i,
    {
        v.push(d);
        i = i + 1;
    }
    proof {
        assert(v@ =~= Seq::new(n as nat, |i: int| d));
    }
    v
}

/// The horizontal-then-vertical candidate route from cell `src` to cell
/// `dst`.
fn hv_route(src: (isize, isize), dst: (isize, isize)) -> (v: Vec<Direction>)
    requires
        -8 <= src.0 <= 8,
        -8 <= src.1 <= 8,
        -8 <= dst.0 <= 8,
        -8 <= dst.1 <= 8,
    ensures
        v@ == hv_moves((src.0 as int, src.1 as int), (dst.0 as int, dst.1 as int)),
{
    let mut v = if dst.0 >= src.0 {
        repeat_move(Direction::Right, (dst.0 - src.0) as usize)
    } else {
        repeat_move(Direction::Left, (src.0 - dst.0) as usize)
    };
    let mut tail = if dst.1 >= src.1 {
        repeat_move(Direction::Down, (dst.1 - src.1) as usize)
    } else {
        repeat_move(Direction::Up, (src.1 - dst.1) as usize)
    };
    v.append(&mut tail);
    v
}

/// The vertical-then-horizontal candidate route from cell `src` to cell
/// `dst`.
fn vh_route(src: (isize, isize), dst: (isize, isize)) -> (v: Vec<Direction>)
    requires
        -8 <= src.0 <= 8,
        -8 <= src.1 <= 8,
        -8 <= dst.0 <= 8,
        -8 <= dst.1 <= 8,
    ensures
        v@ == vh_moves((src.0 as int, src.1 as int), (dst.0 as int, dst.1 as int)),
{
    let mut v = if dst.1 >= src.1 {
        repeat_move(Direction::Down, (dst.1 - src.1) as usize)
    } else {
        repeat_move(Direction::Up, (src.1 - dst.1) as usize)
    };
    let mut tail = if dst.0 >= src.0 {
        repeat_move(Direction::Right, (dst.0 - src.0) as usize)
    } else {
        repeat_move(Direction::Left, (src.0 - dst.0) as usize)
    };
    v.append(&mut tail);
    v
}

/// Whether the route starting on the directional-keypad cell `src` stays on
/// key cells.
fn dir_route_stays(src: (isize, isize), moves: &Vec<Direction>) -> (r: bool)
    requires
        DirPad::at_spec((src.0 as int, src.1 as int)) is Some,
    ensures
        r == stays_on((src.0 as int, src.1 as int), moves@, dir_cells()),
{
    let mut pos = src;
    let mut i: usize = 0;
    proof {
        assert(moves@.skip(0) =~= moves@);
    }
    while i < moves.len()
        invariant
            i <= moves@.len(),
            DirPad::at_spec((pos.0 as int, pos.1 as int)) is Some,
            stays_on((src.0 as int, src.1 as int), moves@, dir_cells()) <==> stays_on(
                (pos.0 as int, pos.1 as int),
                moves@.skip(i as int),
                dir_cells(),
            ),
        decreases moves@.len() - i,
    {
        proof {
            assert(moves@.skip(i as int)[0] == moves@[i as int]);
            assert(moves@.skip(i as int).skip(1) =~= moves@.skip(i as int + 1));
        }
        let np = Direction::go(pos, moves[i]);
        if DirPad::at(np).is_none() {
            proof {
                assert(step((pos.0 as int, pos.1 as int), moves@[i as int]) == (
                    np.0 as int,
                    np.1 as int,
                ));
                assert(!stays_on(
                    (pos.0 as int, pos.1 as int),
                    moves@.skip(i as int),
                    dir_cells(),
                ));
            }
            return false;
        }
        pos = np;
        i = i + 1;
    }
    proof {
        assert(moves@.skip(moves@.len() as int) =~= Seq::<Direction>::empty());
    }
    true
}

/// Whether the route starting on the numeric-keypad cell `src` stays on key
/// cells.
fn num_route_stays(src: (isize, isize), moves: &Vec<Direction>) -> (r: bool)
    requires
        NumPad::at_spec((src.0 as int, src.1 as int)) is Some,
    ensures
        r == stays_on((src.0 as int, src.1 as int), moves@, num_cells()),
{
    let mut pos = src;
    let mut i: usize = 0;
    proof {
        assert(moves@.skip(0) =~= moves@);
    }
    while i < moves.len()
        invariant
            i <= moves@.len(),
            NumPad::at_spec((pos.0 as int, pos.1 as int)) is Some,
            stays_on((src.0 as int, src.1 as int), moves@, num_cells()) <==> stays_on(
                (pos.0 as int, pos.1 as int),
                moves@.skip(i as int),
                num_cells(),
            ),
        decreases moves@.len() - i,
    {
        proof {
            assert(moves@.skip(i as int)[0] == moves@[i as int]);
            assert(moves@.skip(i as int).skip(1) =~= moves@.skip(i as int + 1));
        }
        let np = Direction::go(pos, moves[i]);
        if NumPad::at(np).is_none() {
            proof {
                assert(step((pos.0 as int, pos.1 as int), moves@[i as int]) == (
                    np.0 as int,
                    np.1 as int,
                ));
                assert(!stays_on(
                    (pos.0 as int, pos.1 as int),
                    moves@.skip(i as int),
                    num_cells(),
                ));
            }
            return false;
        }
        pos = np;
        i = i + 1;
    }
    proof {
        assert(moves@.skip(moves@.len() as int) =~= Seq::<Direction>::empty());
    }
    true
}

/// Every minimum-length route between two directional keys: the legal ones
/// among the two axis-order candidates, horizontal-first route first. Each
/// route, replayed from `src`, lands exactly on `dst`, touches no gap cell,
/// and has Manhattan-distance length.
pub fn dir_routes(src: DirPad, dst: DirPad) -> (routes: Vec<Vec<Direction>>)
    ensures
        ({
            let s = src.pos_spec();
            let t = dst.pos_spec();
            if dir_hv_ok(src, dst) && dir_vh_ok(src, dst) {
                routes@.len() == 2 && routes@[0]@ == hv_moves(s, t) && routes@[1]@ == vh_moves(
                    s,
                    t,
                )
            } else if dir_hv_ok(src, dst) {
                routes@.len() == 1 && routes@[0]@ == hv_moves(s, t)
            } else {
                dir_vh_ok(src, dst) && routes@.len() == 1 && routes@[0]@ == vh_moves(s, t)
            }
        }),
        forall|i: int|
            0 <= i < routes@.len() ==> {
                let m = (#[trigger] routes@[i])@;
                walk(src.pos_spec(), m) == dst.pos_spec() && stays_on(
                    src.pos_spec(),
                    m,
                    dir_cells(),
                ) && m.len() == manhattan(src.pos_spec(), dst.pos_spec())
            },
{
    proof {
        lemma_dir_route_exists(src, dst);
        lemma_axis_walks(src.pos_spec(), dst.pos_spec());
    }
    let sp = src.pos();
    let tp = dst.pos();
    let hv = hv_route(sp, tp);
    let vh = vh_route(sp, tp);
    let hv_ok = dir_route_stays(sp, &hv);
    let vh_ok = dir_route_stays(sp, &vh);
    let mut routes: Vec<Vec<Direction>> = Vec::new();
    if hv_ok {
        routes.push(hv);
        if vh_ok {
            routes.push(vh);
        }
    } else {
        routes.push(vh);
    }
    routes
}

/// Every minimum-length route between two numeric keys: the legal ones
/// among the two axis-order candidates, horizontal-first route first. Each
/// route, replayed from `src`, lands exactly on `dst`, touches no gap cell,
/// and has Manhattan-distance length.
pub fn num_routes(src: NumPad, dst: NumPad) -> (routes: Vec<Vec<Direction>>)
    ensures
        ({
            let s = src.pos_spec();
            let t = dst.pos_spec();
            if num_hv_ok(src, dst) && num_vh_ok(src, dst) {
                routes@.len() == 2 && routes@[0]@ == hv_moves(s, t) && routes@[1]@ == vh_moves(
                    s,
                    t,
                )
            } else if num_hv_ok(src, dst) {
                routes@.len() == 1 && routes@[0]@ == hv_moves(s, t)
            } else {
                num_vh_ok(src, dst) && routes@.len() == 1 && routes@[0]@ == vh_moves(s, t)
            }
        }),
        forall|i: int|
            0 <= i < routes@.len() ==> {
                let m = (#[trigger] routes@[i])@;
                walk(src.pos_spec(), m) == dst.pos_spec() && stays_on(
                    src.pos_spec(),
                    m,
                    num_cells(),
                ) && m.len() == manhattan(src.pos_spec(), dst.pos_spec())
            },
{
    proof {
        lemma_num_route_exists(src, dst);
        lemma_axis_walks(src.pos_spec(), dst.pos_spec());
    }
    let sp = src.pos();
    let tp = dst.pos();
    let hv = hv_route(sp, tp);
    let vh = vh_route(sp, tp);
    let hv_ok = num_route_stays(sp, &hv);
    let vh_ok = num_route_stays(sp, &vh);
    let mut routes: Vec<Vec<Direction>> = Vec::new();
    if hv_ok {
        routes.push(hv);
        if vh_ok {
            routes.push(vh);
        }
    } else {
        routes.push(vh);
    }
    routes
}

/// Between any two numeric keys at least one of the two candidate routes is
/// legal.
pub proof fn lemma_num_route_exists(src: NumPad, dst: NumPad)
    ensures
        num_hv_ok(src, dst) || num_vh_ok(src, dst),
{
    let s = src.pos_spec();
    let t = dst.pos_spec();
    if NumPad::at_spec((t.0, s.1)) is Some {
        lemma_h_stays(s, t.0 - s.0, num_cells());
        lemma_h_walk(s, t.0 - s.0);
        lemma_v_stays((t.0, s.1), t.1 - s.1, num_cells());
        lemma_stays_append(s, h_moves(t.0 - s.0), v_moves(t.1 - s.1), num_cells());
        assert(num_hv_ok(src, dst));
    } else {
        lemma_v_stays(s, t.1 - s.1, num_cells());
        lemma_v_walk(s, t.1 - s.1);
        lemma_h_stays((s.0, t.1), t.0 - s.0, num_cells());
        lemma_stays_append(s, v_moves(t.1 - s.1), h_moves(t.0 - s.0), num_cells());
        assert(num_vh_ok(src, dst));
    }
}

} // verus!
