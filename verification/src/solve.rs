//! The chain cost aggregator: from codes to weighted complexities.
//!
//! A code is typed on the numeric keypad starting from `Activate`. For each
//! consecutive key pair the enumerator offers at most two minimum-length
//! routes; each route, followed by `Activate`, is priced by the cost oracle
//! at the requested depth, and the cheaper one wins. Per-pair costs sum
//! because every route returns the pointer to `Activate`. A code's
//! complexity is its total press cost times its embedded numeral, and the
//! answer for a batch is the sum of complexities, computed here for the two
//! reference depths 2 and 25.

use vstd::prelude::*;

use crate::code::{code_value, code_views, parse_input, parse_input_spec, Code, ParseError};
use crate::cost::{
    dir_keys_cost, dirs_to_pad_inputs, lemma_dir_keys_cost_bounds, lemma_dir_keys_cost_monotone,
    lemma_pow4_max_depth, lemma_pow4_mono, pow4, route_keys, CostTable, MAX_DEPTH,
};
use crate::keypad::{DirPad, NumPad};
use crate::paths::{hv_moves, manhattan, num_hv_ok, num_routes, num_vh_ok, vh_moves};

verus! {

/// Minimum primitive presses to take the numeric keypad's robot from `src`
/// to `dst` and press `dst` once, with `depth` directional layers above it:
/// the cheaper of the legal candidate routes, each priced at `depth`.
pub open spec fn num_cost(src: NumPad, dst: NumPad, depth: nat) -> nat {
    let s = src.pos_spec();
    let t = dst.pos_spec();
    let hv = dir_keys_cost(DirPad::A, route_keys(hv_moves(s, t)), depth);
    let vh = dir_keys_cost(DirPad::A, route_keys(vh_moves(s, t)), depth);
    if num_hv_ok(src, dst) && num_vh_ok(src, dst) {
        if hv <= vh {
            hv
        } else {
            vh
        }
    } else if num_hv_ok(src, dst) {
        hv
    } else {
        vh
    }
}

/// Minimum primitive presses to type `keys` on the numeric keypad in order,
/// the robot starting on `from`: the sum of consecutive pairwise costs.
pub open spec fn num_keys_cost(from: NumPad, keys: Seq<NumPad>, depth: nat) -> nat
    decreases keys.len(),
{
    if keys.len() == 0 {
        0
    } else {
        num_cost(from, keys[0], depth) + num_keys_cost(keys[0], keys.skip(1), depth)
    }
}

/// Total press cost of a code, typed from `Activate`.
pub open spec fn code_cost(keys: Seq<NumPad>, depth: nat) -> nat {
    num_keys_cost(NumPad::A, keys, depth)
}

/// A code's complexity: its total press cost times its embedded numeral.
pub open spec fn complexity(keys: Seq<NumPad>, depth: nat) -> nat {
    code_cost(keys, depth) * code_value(keys)
}

/// The answer for a batch: the sum of the codes' complexities.
pub open spec fn batch_complexity(codes: Seq<Seq<NumPad>>, depth: nat) -> nat
    decreases codes.len(),
{
    if codes.len() == 0 {
        0
    } else {
        complexity(codes[0], depth) + batch_complexity(codes.skip(1), depth)
    }
}

/// More indirection never cheapens a numeric-keypad transition.
pub proof fn lemma_num_cost_monotone(src: NumPad, dst: NumPad, d1: nat, d2: nat)
    requires
        d1 <= d2,
    ensures
        num_cost(src, dst, d1) <= num_cost(src, dst, d2),
{
    let s = src.pos_spec();
    let t = dst.pos_spec();
    lemma_dir_keys_cost_monotone(DirPad::A, route_keys(hv_moves(s, t)), d1, d2);
    lemma_dir_keys_cost_monotone(DirPad::A, route_keys(vh_moves(s, t)), d1, d2);
}

/// More indirection never cheapens typing a key sequence.
pub proof fn lemma_num_keys_cost_monotone(from: NumPad, keys: Seq<NumPad>, d1: nat, d2: nat)
    requires
        d1 <= d2,
    ensures
        num_keys_cost(from, keys, d1) <= num_keys_cost(from, keys, d2),
    decreases keys.len(),
{
    if keys.len() > 0 {
        lemma_num_cost_monotone(from, keys[0], d1, d2);
        lemma_num_keys_cost_monotone(keys[0], keys.skip(1), d1, d2);
    }
}

/// A code's complexity is monotonically non-decreasing in the chain depth:
/// more indirection never reduces the required presses.
pub proof fn lemma_complexity_monotone(keys: Seq<NumPad>, d1: nat, d2: nat)
    requires
        d1 <= d2,
    ensures
        complexity(keys, d1) <= complexity(keys, d2),
{
    lemma_num_keys_cost_monotone(NumPad::A, keys, d1, d2);
    let c1 = code_cost(keys, d1);
    let c2 = code_cost(keys, d2);
    let v = code_value(keys);
    assert(c1 * v <= c2 * v) by (nonlinear_arith)
        requires
            c1 <= c2,
            v >= 0,
    ;
}

/// A code with no digits before the trailing `Activate` has numeral value 0
/// and contributes nothing to a batch total, whatever its press cost.
pub proof fn lemma_zero_value_code(keys: Seq<NumPad>, depth: nat)
    requires
        keys.len() == 1,
    ensures
        code_value(keys) == 0,
        complexity(keys, depth) == 0,
{
    assert(keys.take(0) =~= Seq::<NumPad>::empty());
}

/// Minimum presses for one numeric-keypad transition, read off the cost
/// table at its full depth.
pub fn num_pair_cost(table: &CostTable, src: NumPad, dst: NumPad) -> (c: u64)
    requires
        table.wf(),
    ensures
        c as nat == num_cost(src, dst, table.depth_spec()),
{
    let depth = table.depth();
    proof {
        assert(manhattan(src.pos_spec(), dst.pos_spec()) <= 5);
        lemma_dir_keys_cost_bounds(
            DirPad::A,
            route_keys(hv_moves(src.pos_spec(), dst.pos_spec())),
            depth as nat,
        );
        lemma_dir_keys_cost_bounds(
            DirPad::A,
            route_keys(vh_moves(src.pos_spec(), dst.pos_spec())),
            depth as nat,
        );
        lemma_pow4_mono(depth as nat, MAX_DEPTH as nat);
        lemma_pow4_max_depth();
        let p = pow4(depth as nat);
        assert(6 * p <= 6 * pow4(MAX_DEPTH as nat));
    }
    let routes = num_routes(src, dst);
    proof {
        assert(routes@[0]@.len() <= 5);
        let l0 = route_keys(routes@[0]@).len();
        let p = pow4(depth as nat);
        assert(l0 * p <= 6 * p) by (nonlinear_arith)
            requires
                l0 <= 6,
                p >= 0,
        ;
    }
    let keys0 = dirs_to_pad_inputs(&routes[0]);
    // A route prices at most 6 * pow4(MAX_DEPTH) < u64::MAX, so the sum
    // never overflows and press_cost cannot return None here.
    let mut best: u64 = match table.press_cost(&keys0, depth) {
        Some(v) => v,
        None => {
            proof {
                assert(false);
            }
            0
        },
    };
    if routes.len() == 2 {
        proof {
            assert(routes@[1]@.len() <= 5);
            let l1 = route_keys(routes@[1]@).len();
            let p = pow4(depth as nat);
            assert(l1 * p <= 6 * p) by (nonlinear_arith)
                requires
                    l1 <= 6,
                    p >= 0,
            ;
        }
        let keys1 = dirs_to_pad_inputs(&routes[1]);
        let c1 = match table.press_cost(&keys1, depth) {
            Some(v) => v,
            None => {
                proof {
                    assert(false);
                }
                0
            },
        };
        if c1 < best {
            best = c1;
        }
    }
    best
}

/// Total press cost of a code at the table's depth; `None` exactly when it
/// exceeds `u64::MAX`.
pub fn code_press_cost(table: &CostTable, code: &Code) -> (r: Option<u64>)
    requires
        table.wf(),
    ensures
        r is Some <==> code_cost(code@, table.depth_spec()) <= u64::MAX,
        r is Some ==> r.unwrap() as nat == code_cost(code@, table.depth_spec()),
{
    let keys = code.keys();
    let ghost total = code_cost(code@, table.depth_spec());
    let mut c: u64 = 0;
    let mut from = NumPad::A;
    let mut i: usize = 0;
    proof {
        assert(keys@.skip(0) =~= keys@);
    }
    while i < keys.len()
        invariant
            i <= keys@.len(),
            table.wf(),
            keys@ == code@,
            total == code_cost(code@, table.depth_spec()),
            c as nat + num_keys_cost(from, keys@.skip(i as int), table.depth_spec()) == total,
        decreases keys@.len() - i,
    {
        let t = keys[i];
        proof {
            assert(keys@.skip(i as int)[0] == keys@[i as int]);
            assert(keys@.skip(i as int).skip(1) =~= keys@.skip(i as int + 1));
        }
        let e = num_pair_cost(table, from, t);
        c = match c.checked_add(e) {
            Some(v) => v,
            None => {
                return None;
            },
        };
        from = t;
        i = i + 1;
    }
    proof {
        assert(keys@.skip(keys@.len() as int) =~= Seq::<NumPad>::empty());
    }
    Some(c)
}

/// A code's complexity at the table's depth; `None` exactly when it exceeds
/// `u64::MAX`. A code of value 0 contributes 0, whatever its press cost.
pub fn code_complexity(table: &CostTable, code: &Code) -> (r: Option<u64>)
    requires
        table.wf(),
        code.wf(),
    ensures
        r is Some <==> complexity(code@, table.depth_spec()) <= u64::MAX,
        r is Some ==> r.unwrap() as nat == complexity(code@, table.depth_spec()),
{
    let value = code.value();
    let ghost cost = code_cost(code@, table.depth_spec());
    if value == 0 {
        return Some(0);
    }
    match code_press_cost(table, code) {
        Some(c) => {
            match c.checked_mul(value) {
                Some(v) => Some(v),
                None => None,
            }
        },
        None => {
            proof {
                let v = value as nat;
                assert(cost * v >= cost * 1) by (nonlinear_arith)
                    requires
                        v >= 1,
                        cost >= 0,
                ;
            }
            None
        },
    }
}

/// The sum of the codes' complexities at the table's depth; `None` exactly
/// when the total exceeds `u64::MAX`.
pub fn total_complexity(table: &CostTable, codes: &Vec<Code>) -> (r: Option<u64>)
    requires
        table.wf(),
        forall|i: int| 0 <= i < codes@.len() ==> (#[trigger] codes@[i]).wf(),
    ensures
        r is Some <==> batch_complexity(code_views(codes@), table.depth_spec()) <= u64::MAX,
        r is Some ==> r.unwrap() as nat == batch_complexity(code_views(codes@), table.depth_spec()),
{
    let ghost views = code_views(codes@);
    let ghost total = batch_complexity(views, table.depth_spec());
    let mut c: u64 = 0;
    let mut i: usize = 0;
    proof {
        assert(views.skip(0) =~= views);
    }
    while i < codes.len()
        invariant
            i <= codes@.len(),
            table.wf(),
            forall|j: int| 0 <= j < codes@.len() ==> (#[trigger] codes@[j]).wf(),
            views == code_views(codes@),
            total == batch_complexity(views, table.depth_spec()),
            c as nat + batch_complexity(views.skip(i as int), table.depth_spec()) == total,
        decreases codes@.len() - i,
    {
        proof {
            assert(views.skip(i as int)[0] == views[i as int]);
            assert(views[i as int] == codes@[i as int]@);
            assert(views.skip(i as int).skip(1) =~= views.skip(i as int + 1));
        }
        let e = match code_complexity(table, &codes[i]) {
            Some(v) => v,
            None => {
                return None;
            },
        };
        c = match c.checked_add(e) {
            Some(v) => v,
            None => {
                return None;
            },
        };
        i = i + 1;
    }
    proof {
        assert(views.skip(views.len() as int) =~= Seq::<Seq<NumPad>>::empty());
    }
    Some(c)
}

/// Why no answer could be computed for an input batch.
#[derive(Debug, Clone, Copy, PartialEq, Eq, Structural)]
pub enum SolveError {
    /// A line of the batch is not a valid code.
    Parse(ParseError),
    /// A sum of complexities does not fit in `u64`.
    Overflow,
}

/// Solve a whole input batch: parse one code per line and return the sum of
/// complexities at depth 2 and at depth 25.
pub fn solve(input: &[u8]) -> (r: Result<(u64, u64), SolveError>)
    ensures
        match parse_input_spec(input@) {
            Err(e) => r == Err::<(u64, u64), SolveError>(SolveError::Parse(e)),
            Ok(keyss) => {
                if batch_complexity(keyss, 2) <= u64::MAX && batch_complexity(keyss, 25)
                    <= u64::MAX {
                    r is Ok && r.unwrap().0 as nat == batch_complexity(keyss, 2)
                        && r.unwrap().1 as nat == batch_complexity(keyss, 25)
                } else {
                    r == Err::<(u64, u64), SolveError>(SolveError::Overflow)
                }
            },
        },
{
    let codes = match parse_input(input) {
        Ok(c) => c,
        Err(e) => {
            return Err(SolveError::Parse(e));
        },
    };
    proof {
        match parse_input_spec(input@) {
            Ok(keyss) => {
                assert(code_views(codes@) =~= keyss);
            },
            Err(e) => {
                assert(false);
            },
        }
    }
    // The reference depths 2 and 25 never exceed MAX_DEPTH, so both tables
    // can be built.
    let table2 = match CostTable::new(2) {
        Some(t) => t,
        None => {
            proof {
                assert(false);
            }
            return Err(SolveError::Overflow);
        },
    };
    let table25 = match CostTable::new(25) {
        Some(t) => t,
        None => {
            proof {
                assert(false);
            }
            return Err(SolveError::Overflow);
        },
    };
    let part1 = match total_complexity(&table2, &codes) {
        Some(v) => v,
        None => {
            return Err(SolveError::Overflow);
        },
    };
    let part2 = match total_complexity(&table25, &codes) {
        Some(v) => v,
        None => {
            return Err(SolveError::Overflow);
        },
    };
    Ok((part1, part2))
}

} // verus!
