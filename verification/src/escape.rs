//! Escape time of an orbit: how many steps it stays in bounds, within a budget.
//!
//! The arithmetic of the plane is the caller's. A point `c` and a state `z` are
//! values of the caller's types, the bounds test and the step are the caller's
//! functions, and what is stated here holds of every outcome that those
//! functions admit.

use vstd::prelude::*;

verus! {

/// `orbit` begins at `start`, and each of its states is followed by an outcome
/// of `advance` on the point `c` and that state.
pub open spec fn is_orbit<C, S, A: Fn(C, S) -> S>(orbit: Seq<S>, c: C, start: S, advance: A) -> bool {
    &&& orbit.len() >= 1
    &&& orbit[0] == start
    &&& forall|k: int|
        0 <= k < orbit.len() - 1 ==> advance.ensures((c, #[trigger] orbit[k]), orbit[k + 1])
}

/// `orbit` witnesses that `count` is an escape time: it has `count` steps, its
/// first `count` states were found in bounds, and unless the budget is spent the
/// state it ends in was found out of bounds.
pub open spec fn escape_witness<C, S, B: Fn(S) -> bool, A: Fn(C, S) -> S>(
    orbit: Seq<S>,
    count: u16,
    c: C,
    start: S,
    max_iter: u16,
    in_bounds: B,
    advance: A,
) -> bool {
    &&& orbit.len() == count + 1
    &&& is_orbit(orbit, c, start, advance)
    &&& forall|k: int| 0 <= k < count ==> in_bounds.ensures((#[trigger] orbit[k],), true)
    &&& count < max_iter ==> in_bounds.ensures((orbit[count as int],), false)
}

/// `count` is an escape time of the point `c` under the budget `max_iter`: the
/// number of steps after which the orbit from `start` was first found out of
/// bounds, or `max_iter` if it was in bounds until then.
pub open spec fn escapes_at<C, S, B: Fn(S) -> bool, A: Fn(C, S) -> S>(
    count: u16,
    c: C,
    start: S,
    max_iter: u16,
    in_bounds: B,
    advance: A,
) -> bool {
    &&& count <= max_iter
    &&& exists|orbit: Seq<S>| #[trigger]
        escape_witness(orbit, count, c, start, max_iter, in_bounds, advance)
}

/// Counts the steps that the orbit of `c` from `start` stays in bounds, up to
/// `max_iter`.
///
/// The state is tested before each step. The count is that of the first state
/// found out of bounds, or `max_iter` when the budget ends the loop.
pub fn mandel_escape<C: Copy, S: Copy, B: Fn(S) -> bool, A: Fn(C, S) -> S>(
    c: C,
    start: S,
    max_iter: u16,
    in_bounds: &B,
    advance: &A,
) -> (count: u16)
    requires
        forall|z: S| in_bounds.requires((z,)),
        forall|z: S| advance.requires((c, z)),
    ensures
        escapes_at(count, c, start, max_iter, *in_bounds, *advance),
{
    let mut z = start;
    let mut i: u16 = 0;
    let ghost mut orbit: Seq<S> = seq![start];
    while in_bounds(z) && i < max_iter
        invariant
            forall|z: S| in_bounds.requires((z,)),
            forall|z: S| advance.requires((c, z)),
            i <= max_iter,
            orbit.len() == i + 1,
            is_orbit(orbit, c, start, *advance),
            orbit[i as int] == z,
            forall|k: int| 0 <= k < i ==> in_bounds.ensures((#[trigger] orbit[k],), true),
        ensures
            i < max_iter ==> in_bounds.ensures((z,), false),
        decreases max_iter - i,
    {
        let next = advance(c, z);
        proof {
            orbit = orbit.push(next);
        }
        z = next;
        i += 1;
    }
    assert(escape_witness(orbit, i, c, start, max_iter, *in_bounds, *advance));
    i
}

/// The bounds test and the step on the orbits of `c` are functions: no state
/// is found both in and out of bounds, and no state has two successors.
pub open spec fn orbit_functional<C, S, B: Fn(S) -> bool, A: Fn(C, S) -> S>(
    c: C,
    in_bounds: B,
    advance: A,
) -> bool {
    &&& forall|z: S, b1: bool, b2: bool|
        #![trigger in_bounds.ensures((z,), b1), in_bounds.ensures((z,), b2)]
        in_bounds.ensures((z,), b1) && in_bounds.ensures((z,), b2) ==> b1 == b2
    &&& forall|z: S, z1: S, z2: S|
        #![trigger advance.ensures((c, z), z1), advance.ensures((c, z), z2)]
        advance.ensures((c, z), z1) && advance.ensures((c, z), z2) ==> z1 == z2
}

/// Two orbits of one point from one start agree as far as both reach, where the
/// step is a function.
proof fn lemma_orbits_agree<C, S, B: Fn(S) -> bool, A: Fn(C, S) -> S>(
    first: Seq<S>,
    second: Seq<S>,
    c: C,
    start: S,
    in_bounds: B,
    advance: A,
    k: int,
)
    requires
        orbit_functional(c, in_bounds, advance),
        is_orbit(first, c, start, advance),
        is_orbit(second, c, start, advance),
        0 <= k < first.len(),
        k < second.len(),
    ensures
        first[k] == second[k],
    decreases k,
{
    if k > 0 {
        lemma_orbits_agree(first, second, c, start, in_bounds, advance, k - 1);
        assert(advance.ensures((c, first[k - 1]), first[k]));
        assert(advance.ensures((c, second[k - 1]), second[k]));
    }
}

/// A point has one escape time: where the bounds test and the step are
/// functions, any two escape times of the same point under the same budget are
/// equal.
pub proof fn lemma_escape_time_unique<C, S, B: Fn(S) -> bool, A: Fn(C, S) -> S>(
    count1: u16,
    count2: u16,
    c: C,
    start: S,
    max_iter: u16,
    in_bounds: B,
    advance: A,
)
    requires
        orbit_functional(c, in_bounds, advance),
        escapes_at(count1, c, start, max_iter, in_bounds, advance),
        escapes_at(count2, c, start, max_iter, in_bounds, advance),
    ensures
        count1 == count2,
{
    let first = choose|orbit: Seq<S>| #[trigger]
        escape_witness(orbit, count1, c, start, max_iter, in_bounds, advance);
    let second = choose|orbit: Seq<S>| #[trigger]
        escape_witness(orbit, count2, c, start, max_iter, in_bounds, advance);
    if count1 < count2 {
        lemma_orbits_agree(first, second, c, start, in_bounds, advance, count1 as int);
        assert(in_bounds.ensures((first[count1 as int],), false));
        assert(in_bounds.ensures((second[count1 as int],), true));
    } else if count2 < count1 {
        lemma_orbits_agree(first, second, c, start, in_bounds, advance, count2 as int);
        assert(in_bounds.ensures((second[count2 as int],), false));
        assert(in_bounds.ensures((first[count2 as int],), true));
    }
}

/// An orbit that starts on a fixed point of the step stays on it.
proof fn lemma_orbit_stays<C, S, A: Fn(C, S) -> S>(orbit: Seq<S>, c: C, start: S, advance: A, k: int)
    requires
        is_orbit(orbit, c, start, advance),
        forall|z: S| advance.ensures((c, start), z) ==> z == start,
        0 <= k < orbit.len(),
    ensures
        orbit[k] == start,
    decreases k,
{
    if k > 0 {
        lemma_orbit_stays(orbit, c, start, advance, k - 1);
        assert(advance.ensures((c, orbit[k - 1]), orbit[k]));
    }
}

/// A point whose orbit never leaves its start never escapes: where the start
/// is in bounds and the step carries it to itself, the escape time is the whole
/// budget, whatever the budget.
pub proof fn lemma_fixed_point_never_escapes<C, S, B: Fn(S) -> bool, A: Fn(C, S) -> S>(
    count: u16,
    c: C,
    start: S,
    max_iter: u16,
    in_bounds: B,
    advance: A,
)
    requires
        escapes_at(count, c, start, max_iter, in_bounds, advance),
        forall|found: bool| in_bounds.ensures((start,), found) ==> found,
        forall|z: S| advance.ensures((c, start), z) ==> z == start,
    ensures
        count == max_iter,
{
    let orbit = choose|orbit: Seq<S>| #[trigger]
        escape_witness(orbit, count, c, start, max_iter, in_bounds, advance);
    if count < max_iter {
        lemma_orbit_stays(orbit, c, start, advance, count as int);
        assert(in_bounds.ensures((start,), false));
    }
}

} // verus!
