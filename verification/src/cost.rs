//! The recursive cost oracle: minimum primitive presses for one directional
//! key transition at a given indirection depth.
//!
//! At depth 0 a transition is a direct human press and costs exactly 1. At
//! depth `d > 0`, the controller one level down must trace a minimum-length
//! route between the two keys and then press `Activate`; each legal candidate
//! route is priced at depth `d - 1` (summing consecutive pairwise costs,
//! starting from `Activate`), and the cheaper one wins. The recursion is
//! well-founded because every recursive call strictly decreases the depth.
//!
//! Every complete press sequence begins and ends with the controlling
//! pointer resting on `Activate`, so costs compose associatively
//! ([`lemma_keys_cost_concat`]). The executable oracle is a bottom-up table
//! over all 25 key pairs and every depth up to the requested one.

use vstd::prelude::*;

use crate::direction::Direction;
use crate::keypad::DirPad;
use crate::paths::{dir_hv_ok, dir_routes, dir_vh_ok, hv_moves, manhattan, vh_moves};

verus! {

/// The deepest indirection chain the cost table supports; the bound keeps
/// every cost and every partial sum comfortably inside `u64`.
pub const MAX_DEPTH: usize = 25;

/// The directional keys a controller must press to trace `moves` and then
/// commit a press: one key per move, followed by `Activate`.
pub open spec fn route_keys(moves: Seq<Direction>) -> Seq<DirPad> {
    moves.map_values(|d: Direction| DirPad::convert_spec(d)).push(DirPad::A)
}

/// Minimum primitive presses to take a directional keypad's pointer from
/// `src` to `dst` and press `dst` once, with `depth` indirection layers
/// above the primitive presser.
pub open spec fn dir_cost(src: DirPad, dst: DirPad, depth: nat) -> nat
    decreases depth, 0nat, 1nat,
{
    if depth == 0 {
        1
    } else {
        let s = src.pos_spec();
        let t = dst.pos_spec();
        let hv = dir_keys_cost(DirPad::A, route_keys(hv_moves(s, t)), (depth - 1) as nat);
        let vh = dir_keys_cost(DirPad::A, route_keys(vh_moves(s, t)), (depth - 1) as nat);
        if dir_hv_ok(src, dst) && dir_vh_ok(src, dst) {
            if hv <= vh {
                hv
            } else {
                vh
            }
        } else if dir_hv_ok(src, dst) {
            hv
        } else {
            vh
        }
    }
}

/// Minimum primitive presses to press `keys` in order at `depth`, the
/// pointer starting on `from`: the sum of the consecutive pairwise costs.
pub open spec fn dir_keys_cost(from: DirPad, keys: Seq<DirPad>, depth: nat) -> nat
    decreases depth, 1nat, keys.len(),
{
    if keys.len() == 0 {
        0
    } else {
        dir_cost(from, keys[0], depth) + dir_keys_cost(keys[0], keys.skip(1), depth)
    }
}

/// 4 to the power `n`.
pub open spec fn pow4(n: nat) -> nat
    decreases n,
{
    if n == 0 {
        1
    } else {
        4 * pow4((n - 1) as nat)
    }
}

pub proof fn lemma_pow4_pos(n: nat)
    ensures
        pow4(n) >= 1,
    decreases n,
{
    if n > 0 {
        lemma_pow4_pos((n - 1) as nat);
    }
}

pub proof fn lemma_pow4_mono(a: nat, b: nat)
    requires
        a <= b,
    ensures
        pow4(a) <= pow4(b),
    decreases b,
{
    if a < b {
        lemma_pow4_mono(a, (b - 1) as nat);
        lemma_pow4_pos((b - 1) as nat);
    }
}

pub proof fn lemma_pow4_max_depth()
    ensures
        pow4(MAX_DEPTH as nat) == 0x4000000000000,
{
    reveal_with_fuel(pow4, 27);
}

/// Both candidate routes between two directional keys press at most 4 keys:
/// the keypad is 3 by 2, so the Manhattan distance is at most 3, plus the
/// trailing `Activate`.
pub proof fn lemma_dir_route_keys_len(src: DirPad, dst: DirPad)
    ensures
        1 <= route_keys(hv_moves(src.pos_spec(), dst.pos_spec())).len() <= 4,
        1 <= route_keys(vh_moves(src.pos_spec(), dst.pos_spec())).len() <= 4,
{
}

/// A key transition costs at least 1 primitive press, and at most
/// `pow4(depth)`: each extra layer multiplies the work by at most the
/// longest route length, 4.
pub proof fn lemma_dir_cost_bounds(src: DirPad, dst: DirPad, depth: nat)
    ensures
        1 <= dir_cost(src, dst, depth) <= pow4(depth),
    decreases depth, 0nat, 1nat,
{
    if depth > 0 {
        let s = src.pos_spec();
        let t = dst.pos_spec();
        let prev = (depth - 1) as nat;
        lemma_dir_route_keys_len(src, dst);
        lemma_dir_keys_cost_bounds(DirPad::A, route_keys(hv_moves(s, t)), prev);
        lemma_dir_keys_cost_bounds(DirPad::A, route_keys(vh_moves(s, t)), prev);
        lemma_pow4_pos(prev);
        let lhv = route_keys(hv_moves(s, t)).len();
        let lvh = route_keys(vh_moves(s, t)).len();
        let p = pow4(prev);
        assert(lhv * p <= 4 * p && lvh * p <= 4 * p) by (nonlinear_arith)
            requires
                lhv <= 4,
                lvh <= 4,
                p >= 0,
        ;
    }
}

/// Pressing a key sequence costs at least one press per key, and at most
/// `pow4(depth)` per key.
pub proof fn lemma_dir_keys_cost_bounds(from: DirPad, keys: Seq<DirPad>, depth: nat)
    ensures
        keys.len() <= dir_keys_cost(from, keys, depth) <= keys.len() * pow4(depth),
    decreases depth, 1nat, keys.len(),
{
    if keys.len() == 0 {
    } else {
        lemma_dir_cost_bounds(from, keys[0], depth);
        lemma_dir_keys_cost_bounds(keys[0], keys.skip(1), depth);
        assert(keys.len() * pow4(depth) == pow4(depth) + (keys.len() - 1) * pow4(depth))
            by (nonlinear_arith);
    }
}

/// Repeating the currently held key costs exactly one primitive press at
/// every depth: the route between a key and itself is empty, so every layer
/// only presses `Activate` once.
pub proof fn lemma_cost_self(k: DirPad, depth: nat)
    ensures
        dir_cost(k, k, depth) == 1,
    decreases depth,
{
    if depth > 0 {
        let s = k.pos_spec();
        let prev = (depth - 1) as nat;
        assert(hv_moves(s, s) =~= Seq::<Direction>::empty());
        assert(vh_moves(s, s) =~= Seq::<Direction>::empty());
        assert(route_keys(Seq::<Direction>::empty()) =~= seq![DirPad::A]);
        lemma_cost_self(DirPad::A, prev);
        assert(seq![DirPad::A].skip(1) =~= Seq::<DirPad>::empty());
        reveal_with_fuel(dir_keys_cost, 2);
        assert(dir_keys_cost(DirPad::A, seq![DirPad::A], prev) == 1);
    }
}

/// One more indirection layer never makes a key transition cheaper.
proof fn lemma_dir_cost_mono_step(src: DirPad, dst: DirPad, depth: nat)
    requires
        depth >= 1,
    ensures
        dir_cost(src, dst, (depth - 1) as nat) <= dir_cost(src, dst, depth),
    decreases depth, 0nat, 1nat,
{
    let s = src.pos_spec();
    let t = dst.pos_spec();
    let prev = (depth - 1) as nat;
    if depth == 1 {
        lemma_dir_cost_bounds(src, dst, depth);
    } else {
        lemma_dir_keys_cost_mono_step(DirPad::A, route_keys(hv_moves(s, t)), prev);
        lemma_dir_keys_cost_mono_step(DirPad::A, route_keys(vh_moves(s, t)), prev);
    }
}

/// One more indirection layer never makes a key sequence cheaper.
proof fn lemma_dir_keys_cost_mono_step(from: DirPad, keys: Seq<DirPad>, depth: nat)
    requires
        depth >= 1,
    ensures
        dir_keys_cost(from, keys, (depth - 1) as nat) <= dir_keys_cost(from, keys, depth),
    decreases depth, 1nat, keys.len(),
{
    if keys.len() > 0 {
        lemma_dir_cost_mono_step(from, keys[0], depth);
        lemma_dir_keys_cost_mono_step(keys[0], keys.skip(1), depth);
    }
}

/// The cost of a key transition is monotonically non-decreasing in the
/// indirection depth: more layers never reduce the required presses.
pub proof fn lemma_dir_cost_monotone(src: DirPad, dst: DirPad, d1: nat, d2: nat)
    requires
        d1 <= d2,
    ensures
        dir_cost(src, dst, d1) <= dir_cost(src, dst, d2),
    decreases d2 - d1,
{
    if d1 < d2 {
        lemma_dir_cost_monotone(src, dst, d1, (d2 - 1) as nat);
        lemma_dir_cost_mono_step(src, dst, d2);
    }
}

/// The cost of a key sequence is monotonically non-decreasing in the
/// indirection depth.
pub proof fn lemma_dir_keys_cost_monotone(from: DirPad, keys: Seq<DirPad>, d1: nat, d2: nat)
    requires
        d1 <= d2,
    ensures
        dir_keys_cost(from, keys, d1) <= dir_keys_cost(from, keys, d2),
    decreases d2 - d1,
{
    if d1 < d2 {
        lemma_dir_keys_cost_monotone(from, keys, d1, (d2 - 1) as nat);
        lemma_dir_keys_cost_mono_step(from, keys, d2);
    }
}

/// Costs compose associatively: pressing `a` then `b` costs the same as
/// pressing `a` and then pressing `b` starting from the last key of `a`.
/// With routes that end on `Activate`, per-key costs therefore sum.
pub proof fn lemma_keys_cost_concat(from: DirPad, a: Seq<DirPad>, b: Seq<DirPad>, depth: nat)
    requires
        a.len() > 0,
    ensures
        dir_keys_cost(from, a + b, depth) == dir_keys_cost(from, a, depth) + dir_keys_cost(
            a.last(),
            b,
            depth,
        ),
    decreases a.len(),
{
    if a.len() == 1 {
        assert((a + b).skip(1) =~= b);
        assert(a.skip(1) =~= Seq::<DirPad>::empty());
        assert((a + b)[0] == a[0]);
    } else {
        assert((a + b).skip(1) =~= a.skip(1) + b);
        assert((a + b)[0] == a[0]);
        lemma_keys_cost_concat(a[0], a.skip(1), b, depth);
        assert(a.skip(1).last() == a.last());
    }
}

/// Index of a directional key inside one 5-by-5 block of the cost table.
pub open spec fn dir_index(k: DirPad) -> int {
    match k {
        DirPad::Up => 0,
        DirPad::Right => 1,
        DirPad::Down => 2,
        DirPad::Left => 3,
        DirPad::A => 4,
    }
}

/// Index of the `(s, t, d)` entry in the flattened cost table.
pub open spec fn entry_index(s: DirPad, t: DirPad, d: int) -> int {
    d * 25 + dir_index(s) * 5 + dir_index(t)
}

/// The flattened table holds the cost of every key pair at every depth up
/// to `d`.
pub open spec fn levels_ok(entries: Seq<u64>, d: int) -> bool {
    &&& entries.len() >= 25 * (d + 1)
    &&& forall|s: DirPad, t: DirPad, dd: int|
        0 <= dd <= d ==> #[trigger] entries[entry_index(s, t, dd)] == dir_cost(s, t, dd as nat)
}

/// The depth-`d` block of the table is filled for the first `upto` of the
/// 25 key pairs, in index order.
pub open spec fn level_filled(entries: Seq<u64>, d: int, upto: int) -> bool {
    forall|s: DirPad, t: DirPad|
        dir_index(s) * 5 + dir_index(t) < upto ==> #[trigger] entries[entry_index(s, t, d)]
            == dir_cost(s, t, d as nat)
}

/// The directional key with table index `i`.
fn key_of_index(i: usize) -> (k: DirPad)
    requires
        i < 5,
    ensures
        dir_index(k) == i,
{
    if i == 0 {
        DirPad::Up
    } else if i == 1 {
        DirPad::Right
    } else if i == 2 {
        DirPad::Down
    } else if i == 3 {
        DirPad::Left
    } else {
        DirPad::A
    }
}

/// The table index of a directional key.
fn index_of_key(k: DirPad) -> (i: usize)
    ensures
        i == dir_index(k),
{
    match k {
        DirPad::Up => 0,
        DirPad::Right => 1,
        DirPad::Down => 2,
        DirPad::Left => 3,
        DirPad::A => 4,
    }
}

/// The directional keys a controller presses to trace `moves` and commit:
/// one key per move, then `Activate`.
pub fn dirs_to_pad_inputs(moves: &Vec<Direction>) -> (keys: Vec<DirPad>)
    ensures
        keys@ == route_keys(moves@),
{
    let mut keys: Vec<DirPad> = Vec::new();
    let mut i: usize = 0;
    while i < moves.len()
        invariant
            i <= moves@.len(),
            keys@ =~= moves@.take(i as int).map_values(|d: Direction| DirPad::convert_spec(d)),
        decreases moves@.len() - i,
    {
        keys.push(DirPad::convert(moves[i]));
        proof {
            assert(keys@ =~= moves@.take(i as int + 1).map_values(
                |d: Direction| DirPad::convert_spec(d),
            ));
        }
        i = i + 1;
    }
    keys.push(DirPad::A);
    proof {
        assert(moves@.take(moves@.len() as int) =~= moves@);
        assert(keys@ =~= route_keys(moves@));
    }
    keys
}

/// Cost of pressing `keys` from `Activate` at depth `d`, read off a table
/// whose levels up to `d` are filled. The length bound keeps the sum inside
/// `u64`: routes never press more than 6 keys.
fn route_cost(entries: &Vec<u64>, d: usize, keys: &Vec<DirPad>) -> (c: u64)
    requires
        levels_ok(entries@, d as int),
        d <= MAX_DEPTH,
        keys@.len() <= 8,
    ensures
        c as nat == dir_keys_cost(DirPad::A, keys@, d as nat),
{
    proof {
        lemma_dir_keys_cost_bounds(DirPad::A, keys@, d as nat);
        lemma_pow4_mono(d as nat, MAX_DEPTH as nat);
        lemma_pow4_max_depth();
        let p = pow4(d as nat);
        let len = keys@.len();
        assert(len * p <= 8 * p) by (nonlinear_arith)
            requires
                len <= 8,
                p >= 0,
        ;
        assert(dir_keys_cost(DirPad::A, keys@, d as nat) <= 0x20000000000000);
    }
    let ghost total = dir_keys_cost(DirPad::A, keys@, d as nat);
    let mut c: u64 = 0;
    let mut from = DirPad::A;
    let mut i: usize = 0;
    proof {
        assert(keys@.skip(0) =~= keys@);
    }
    while i < keys.len()
        invariant
            i <= keys@.len(),
            levels_ok(entries@, d as int),
            d <= MAX_DEPTH,
            total == dir_keys_cost(DirPad::A, keys@, d as nat),
            total <= 0x20000000000000,
            c as nat + dir_keys_cost(from, keys@.skip(i as int), d as nat) == total,
        decreases keys@.len() - i,
    {
        let t = keys[i];
        proof {
            assert(keys@.skip(i as int)[0] == keys@[i as int]);
            assert(keys@.skip(i as int).skip(1) =~= keys@.skip(i as int + 1));
            assert(entries@[entry_index(from, t, d as int)] == dir_cost(from, t, d as nat));
            lemma_dir_cost_bounds(from, t, d as nat);
        }
        let e = entries[d * 25 + index_of_key(from) * 5 + index_of_key(t)];
        c = c + e;
        from = t;
        i = i + 1;
    }
    proof {
        assert(keys@.skip(keys@.len() as int) =~= Seq::<DirPad>::empty());
    }
    c
}

/// One entry of level `d` of the table: both candidate routes for the pair
/// are priced at level `d - 1` and the cheaper one wins.
fn level_entry(entries: &Vec<u64>, d: usize, s: DirPad, t: DirPad) -> (best: u64)
    requires
        1 <= d <= MAX_DEPTH,
        levels_ok(entries@, d as int - 1),
    ensures
        best as nat == dir_cost(s, t, d as nat),
{
    proof {
        assert(manhattan(s.pos_spec(), t.pos_spec()) <= 3);
    }
    let routes = dir_routes(s, t);
    proof {
        assert(routes@[0]@.len() <= 3);
    }
    let keys0 = dirs_to_pad_inputs(&routes[0]);
    let mut best = route_cost(entries, d - 1, &keys0);
    if routes.len() == 2 {
        proof {
            assert(routes@[1]@.len() <= 3);
        }
        let keys1 = dirs_to_pad_inputs(&routes[1]);
        let c1 = route_cost(entries, d - 1, &keys1);
        if c1 < best {
            best = c1;
        }
    }
    best
}

/// A memoized table of transition costs for every pair of directional keys
/// at every depth up to a maximum: the recursive cost oracle, filled bottom
/// up from depth 0.
pub struct CostTable {
    depth: usize,
    entries: Vec<u64>,
}

impl CostTable {
    /// The table covers all 25 key pairs at every depth up to its maximum,
    /// and each entry equals the oracle cost of its transition.
    pub closed spec fn wf(self) -> bool {
        &&& self.depth <= MAX_DEPTH
        &&& self.entries@.len() == 25 * (self.depth + 1)
        &&& levels_ok(self.entries@, self.depth as int)
    }

    /// The deepest indirection chain the table covers.
    pub closed spec fn depth_spec(self) -> nat {
        self.depth as nat
    }

    /// The deepest indirection chain the table covers.
    pub fn depth(&self) -> (r: usize)
        requires
            self.wf(),
        ensures
            r as nat == self.depth_spec(),
            r <= MAX_DEPTH,
    {
        self.depth
    }

    /// Build the table for all depths up to `depth`, bottom up: depth 0 is
    /// all ones, and each further level prices both candidate routes of
    /// every key pair at the level below and keeps the cheaper. Depths
    /// beyond [`MAX_DEPTH`] are rejected.
    pub fn new(depth: usize) -> (r: Option<CostTable>)
        ensures
            r is Some <==> depth <= MAX_DEPTH,
            r is Some ==> r.unwrap().wf() && r.unwrap().depth_spec() == depth as nat,
    {
        if depth > MAX_DEPTH {
            return None;
        }
        let mut entries: Vec<u64> = Vec::new();
        let mut i: usize = 0;
        while i < 25
            invariant
                i <= 25,
                entries@.len() == i,
                forall|j: int| 0 <= j < i ==> entries@[j] == 1u64,
            decreases 25 - i,
        {
            entries.push(1);
            i = i + 1;
        }
        proof {
            assert(levels_ok(entries@, 0));
        }
        let mut d: usize = 1;
        while d <= depth
            invariant
                1 <= d <= depth + 1,
                depth <= MAX_DEPTH,
                entries@.len() == 25 * d,
                levels_ok(entries@, d as int - 1),
            decreases depth + 1 - d,
        {
            let mut p: usize = 0;
            while p < 25
                invariant
                    p <= 25,
                    1 <= d <= depth,
                    depth <= MAX_DEPTH,
                    entries@.len() == 25 * d + p,
                    levels_ok(entries@, d as int - 1),
                    level_filled(entries@, d as int, p as int),
                decreases 25 - p,
            {
                let s = key_of_index(p / 5);
                let t = key_of_index(p % 5);
                let best = level_entry(&entries, d, s, t);
                entries.push(best);
                proof {
                    assert(entry_index(s, t, d as int) == 25 * d + p);
                    assert(level_filled(entries@, d as int, p as int + 1));
                }
                p = p + 1;
            }
            proof {
                assert(levels_ok(entries@, d as int));
            }
            d = d + 1;
        }
        Some(CostTable { depth, entries })
    }

    /// The memoized cost of taking the pointer from `src` to `dst` and
    /// pressing it, with `depth` indirection layers above the presser.
    pub fn cost(&self, src: DirPad, dst: DirPad, depth: usize) -> (r: u64)
        requires
            self.wf(),
            depth as nat <= self.depth_spec(),
        ensures
            r as nat == dir_cost(src, dst, depth as nat),
    {
        let i = depth * 25 + index_of_key(src) * 5 + index_of_key(dst);
        proof {
            assert(i == entry_index(src, dst, depth as int));
            assert(self.entries@[entry_index(src, dst, depth as int)] == dir_cost(
                src,
                dst,
                depth as nat,
            ));
        }
        self.entries[i]
    }

    /// Total cost of pressing `keys` in order at `depth`, the pointer
    /// starting on `Activate`; `None` exactly when the total exceeds
    /// `u64::MAX`.
    pub fn press_cost(&self, keys: &Vec<DirPad>, depth: usize) -> (r: Option<u64>)
        requires
            self.wf(),
            depth as nat <= self.depth_spec(),
        ensures
            r is Some <==> dir_keys_cost(DirPad::A, keys@, depth as nat) <= u64::MAX,
            r is Some ==> r.unwrap() as nat == dir_keys_cost(DirPad::A, keys@, depth as nat),
    {
        let ghost total = dir_keys_cost(DirPad::A, keys@, depth as nat);
        let mut c: u64 = 0;
        let mut from = DirPad::A;
        let mut i: usize = 0;
        proof {
            assert(keys@.skip(0) =~= keys@);
        }
        while i < keys.len()
            invariant
                i <= keys@.len(),
                self.wf(),
                depth as nat <= self.depth_spec(),
                total == dir_keys_cost(DirPad::A, keys@, depth as nat),
                c as nat + dir_keys_cost(from, keys@.skip(i as int), depth as nat) == total,
            decreases keys@.len() - i,
        {
            let t = keys[i];
            proof {
                assert(keys@.skip(i as int)[0] == keys@[i as int]);
                assert(keys@.skip(i as int).skip(1) =~= keys@.skip(i as int + 1));
            }
            let e = self.cost(from, t, depth);
            c = match c.checked_add(e) {
                Some(v) => v,
                None => {
                    return None;
                },
            };
            from = t;
            i = i + 1;
        }
        proof {
            assert(keys@.skip(keys@.len() as int) =~= Seq::<DirPad>::empty());
        }
        Some(c)
    }
}

} // verus!
