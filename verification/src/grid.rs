//! Uniform-grid broad phase.
//!
//! Each tick the bodies are bucketed into fixed-size cubic cells by the
//! floor of their position, and candidate collision pairs are drawn from
//! each body's own cell and the 26 surrounding cells. The resulting list
//! is exactly the set of index pairs whose cells are adjacent, each
//! unordered pair listed once with the lower index first; the grid is
//! rebuilt from scratch every tick and discarded.

use std::collections::HashMap;

use vstd::prelude::*;

use crate::Body;
use crate::fixed::floor_div;
use crate::vec3::Vec3;

verus! {

broadcast use vstd::std_specs::hash::group_hash_axioms;

/// Edge length of a grid cell, tuned to the expected collider size.
pub const CELL_SIZE_FX: i64 = 1000;

/// Offset making packed cell coordinates non-negative.
pub const CELL_OFFSET: i64 = 1_048_576;

/// Width of one packed coordinate field.
pub const CELL_FIELD: i64 = 2_097_152;

/// Cell coordinate of a position along one axis: the floor of the
/// position over the cell size.
pub open spec fn cell_coord(p: int) -> int {
    p / (CELL_SIZE_FX as int)
}

/// A cell coordinate reachable from a representable position, with one
/// cell of slack for neighbor lookups.
pub open spec fn cell_in_range(c: int) -> bool {
    -1_000_001 <= c <= 1_000_001
}

/// The three cell coordinates of a position.
pub open spec fn cell_of(p: Vec3) -> (int, int, int) {
    (cell_coord(p.x as int), cell_coord(p.y as int), cell_coord(p.z as int))
}

/// One packed key per cell: the three offset coordinates in consecutive
/// bit fields of a `u64`.
pub open spec fn pack_cell(cx: int, cy: int, cz: int) -> int {
    (cx + CELL_OFFSET) + (cy + CELL_OFFSET) * CELL_FIELD + (cz + CELL_OFFSET) * CELL_FIELD
        * CELL_FIELD
}

/// The packed key of the cell a body occupies.
pub open spec fn body_key(b: Body) -> int {
    let (cx, cy, cz) = cell_of(b.translation);
    pack_cell(cx, cy, cz)
}

/// Two positions fall in the same or directly neighboring cells (faces,
/// edges and corners all count).
pub open spec fn cells_adjacent(p: Vec3, q: Vec3) -> bool {
    let (px, py, pz) = cell_of(p);
    let (qx, qy, qz) = cell_of(q);
    &&& -1 <= px - qx <= 1
    &&& -1 <= py - qy <= 1
    &&& -1 <= pz - qz <= 1
}

/// Packing is injective on in-range cells, so distinct cells never share
/// a bucket.
pub proof fn lemma_pack_injective(
    ax: int,
    ay: int,
    az: int,
    bx: int,
    by_: int,
    bz: int,
)
    requires
        cell_in_range(ax),
        cell_in_range(ay),
        cell_in_range(az),
        cell_in_range(bx),
        cell_in_range(by_),
        cell_in_range(bz),
        pack_cell(ax, ay, az) == pack_cell(bx, by_, bz),
    ensures
        ax == bx,
        ay == by_,
        az == bz,
{
    let d = CELL_FIELD as int;
    let key = pack_cell(ax, ay, az);
    vstd::arithmetic::div_mod::lemma_fundamental_div_mod_converse(
        key,
        d,
        (ay + CELL_OFFSET) + (az + CELL_OFFSET) * d,
        ax + CELL_OFFSET,
    );
    vstd::arithmetic::div_mod::lemma_fundamental_div_mod_converse(
        key,
        d,
        (by_ + CELL_OFFSET) + (bz + CELL_OFFSET) * d,
        bx + CELL_OFFSET,
    );
    let q = key / d;
    vstd::arithmetic::div_mod::lemma_fundamental_div_mod_converse(
        q,
        d,
        az + CELL_OFFSET,
        ay + CELL_OFFSET,
    );
    vstd::arithmetic::div_mod::lemma_fundamental_div_mod_converse(
        q,
        d,
        bz + CELL_OFFSET,
        by_ + CELL_OFFSET,
    );
}

/// X offset of neighbor `t` in `0..27`, one coordinate per base-3 digit.
pub open spec fn delta_x(t: int) -> int {
    t / 9 - 1
}

/// Y offset of neighbor `t`.
pub open spec fn delta_y(t: int) -> int {
    (t / 3) % 3 - 1
}

/// Z offset of neighbor `t`.
pub open spec fn delta_z(t: int) -> int {
    t % 3 - 1
}

/// The packed key of the `t`-th neighbor (the cell itself included) of a
/// cell.
pub open spec fn neighbor_key(cx: int, cy: int, cz: int, t: int) -> int {
    pack_cell(cx + delta_x(t), cy + delta_y(t), cz + delta_z(t))
}

/// The three base-3 digits of `t < 27` are in range and reconstruct `t`.
proof fn lemma_digits(t: int)
    requires
        0 <= t < 27,
    ensures
        0 <= t / 9 <= 2,
        0 <= (t / 3) % 3 <= 2,
        0 <= t % 3 <= 2,
        t == 9 * (t / 9) + 3 * ((t / 3) % 3) + (t % 3),
{
    vstd::arithmetic::div_mod::lemma_fundamental_div_mod(t, 3);
    vstd::arithmetic::div_mod::lemma_mod_bound(t, 3);
    vstd::arithmetic::div_mod::lemma_fundamental_div_mod(t / 3, 3);
    vstd::arithmetic::div_mod::lemma_mod_bound(t / 3, 3);
    vstd::arithmetic::div_mod::lemma_div_is_ordered(t, 26, 9);
    vstd::arithmetic::div_mod::lemma_div_pos_is_pos(t, 9);
    vstd::arithmetic::div_mod::lemma_div_is_ordered(t, 26, 3);
    vstd::arithmetic::div_mod::lemma_div_pos_is_pos(t, 3);
    vstd::arithmetic::div_mod::lemma_fundamental_div_mod_converse(26, 9, 2, 8);
    vstd::arithmetic::div_mod::lemma_fundamental_div_mod_converse(26, 3, 8, 2);
    vstd::arithmetic::div_mod::lemma_div_denominator(t, 3, 3);
}

/// Conversely, digits in range give back themselves from `9a + 3b + c`.
proof fn lemma_digits_of(a: int, b: int, c: int)
    requires
        0 <= a <= 2,
        0 <= b <= 2,
        0 <= c <= 2,
    ensures
        delta_x(9 * a + 3 * b + c) == a - 1,
        delta_y(9 * a + 3 * b + c) == b - 1,
        delta_z(9 * a + 3 * b + c) == c - 1,
{
    let t = 9 * a + 3 * b + c;
    vstd::arithmetic::div_mod::lemma_fundamental_div_mod_converse(t, 9, a, 3 * b + c);
    vstd::arithmetic::div_mod::lemma_fundamental_div_mod_converse(t, 3, 3 * a + b, c);
    vstd::arithmetic::div_mod::lemma_fundamental_div_mod_converse(3 * a + b, 3, a, b);
}

/// Distinct neighbor indices of one in-range cell give distinct packed
/// keys, so no body is gathered twice in one neighborhood scan.
proof fn lemma_neighbor_keys_distinct(cx: int, cy: int, cz: int, t1: int, t2: int)
    requires
        -1_000_000 <= cx <= 1_000_000,
        -1_000_000 <= cy <= 1_000_000,
        -1_000_000 <= cz <= 1_000_000,
        0 <= t1 < 27,
        0 <= t2 < 27,
        t1 != t2,
    ensures
        neighbor_key(cx, cy, cz, t1) != neighbor_key(cx, cy, cz, t2),
{
    lemma_digits(t1);
    lemma_digits(t2);
    if neighbor_key(cx, cy, cz, t1) == neighbor_key(cx, cy, cz, t2) {
        lemma_pack_injective(
            cx + delta_x(t1),
            cy + delta_y(t1),
            cz + delta_z(t1),
            cx + delta_x(t2),
            cy + delta_y(t2),
            cz + delta_z(t2),
        );
    }
}

/// Every adjacent cell is some neighbor `t` of the cell, so the 27-cell
/// scan reaches every adjacent body.
proof fn lemma_adjacent_is_neighbor(
    cx: int,
    cy: int,
    cz: int,
    qx: int,
    qy: int,
    qz: int,
)
    requires
        -1 <= qx - cx <= 1,
        -1 <= qy - cy <= 1,
        -1 <= qz - cz <= 1,
    ensures
        exists|t: int|
            0 <= t < 27 && qx == cx + delta_x(t) && qy == cy + delta_y(t) && qz == cz + delta_z(
                t,
            ),
{
    let a = qx - cx + 1;
    let b = qy - cy + 1;
    let c = qz - cz + 1;
    lemma_digits_of(a, b, c);
    let t = 9 * a + 3 * b + c;
    assert(0 <= t < 27 && qx == cx + delta_x(t) && qy == cy + delta_y(t) && qz == cz + delta_z(
        t,
    ));
}

/// The cell of a representable coordinate is in range.
pub proof fn lemma_cell_coord_range(p: int)
    requires
        crate::fixed::in_range(p),
    ensures
        -1_000_000 <= cell_coord(p) <= 1_000_000,
{
    vstd::arithmetic::div_mod::lemma_div_is_ordered(p, 1_000_000_000, 1000);
    vstd::arithmetic::div_mod::lemma_div_is_ordered(-1_000_000_000, p, 1000);
    vstd::arithmetic::div_mod::lemma_fundamental_div_mod_converse(
        1_000_000_000,
        1000,
        1_000_000,
        0,
    );
    vstd::arithmetic::div_mod::lemma_fundamental_div_mod_converse(
        -1_000_000_000,
        1000,
        -1_000_000,
        0,
    );
}

/// Positions less than one cell apart on an axis land in the same or
/// adjacent cells on that axis, even when one sits exactly on a cell
/// boundary.
proof fn lemma_close_coords_adjacent(p: int, q: int)
    requires
        -(CELL_SIZE_FX as int) < p - q < CELL_SIZE_FX as int,
    ensures
        -1 <= cell_coord(p) - cell_coord(q) <= 1,
{
    let c = CELL_SIZE_FX as int;
    if p <= q {
        vstd::arithmetic::div_mod::lemma_div_is_ordered(p, q, c);
        vstd::arithmetic::div_mod::lemma_div_is_ordered(q, p + c, c);
        vstd::arithmetic::div_mod::lemma_div_plus_one(p, c);
    } else {
        vstd::arithmetic::div_mod::lemma_div_is_ordered(q, p, c);
        vstd::arithmetic::div_mod::lemma_div_is_ordered(p, q + c, c);
        vstd::arithmetic::div_mod::lemma_div_plus_one(q, c);
    }
}

/// Grid completeness: two bodies whose centers are less than one cell
/// size apart along every axis always fall in the same or adjacent
/// cells, so the broad phase is guaranteed to emit their pair — no false
/// negatives, wherever the centers fall relative to the cell boundaries.
pub proof fn lemma_close_bodies_adjacent(p: Vec3, q: Vec3)
    requires
        -(CELL_SIZE_FX as int) < p.x - q.x < CELL_SIZE_FX as int,
        -(CELL_SIZE_FX as int) < p.y - q.y < CELL_SIZE_FX as int,
        -(CELL_SIZE_FX as int) < p.z - q.z < CELL_SIZE_FX as int,
    ensures
        cells_adjacent(p, q),
{
    lemma_close_coords_adjacent(p.x as int, q.x as int);
    lemma_close_coords_adjacent(p.y as int, q.y as int);
    lemma_close_coords_adjacent(p.z as int, q.z as int);
}

/// The packed key of a well-formed body's cell fits a `u64`.
pub proof fn lemma_body_key_range(b: Body)
    requires
        b.translation.wf(),
    ensures
        0 <= body_key(b) <= 9_300_000_000_000_000_000,
{
    lemma_cell_coord_range(b.translation.x as int);
    lemma_cell_coord_range(b.translation.y as int);
    lemma_cell_coord_range(b.translation.z as int);
}

/// Cell coordinate of a position along one axis.
pub fn cell_coord_exec(p: i64) -> (r: i64)
    requires
        crate::fixed::in_range(p as int),
    ensures
        r == cell_coord(p as int),
        -1_000_000 <= r <= 1_000_000,
{
    proof {
        lemma_cell_coord_range(p as int);
    }
    floor_div(p, CELL_SIZE_FX)
}

/// The packed key of an in-range cell.
pub fn pack_cell_exec(cx: i64, cy: i64, cz: i64) -> (r: u64)
    requires
        cell_in_range(cx as int),
        cell_in_range(cy as int),
        cell_in_range(cz as int),
    ensures
        r as int == pack_cell(cx as int, cy as int, cz as int),
{
    let fx: u64 = (cx + CELL_OFFSET) as u64;
    let fy: u64 = (cy + CELL_OFFSET) as u64;
    let fz: u64 = (cz + CELL_OFFSET) as u64;
    assert(fx <= 2_097_152 && fy <= 2_097_152 && fz <= 2_097_152);
    assert(fy * 2_097_152 <= 4_398_046_511_104) by (nonlinear_arith)
        requires
            fy <= 2_097_152u64,
    ;
    assert(fz * 2_097_152 <= 4_398_046_511_104 && fz * 2_097_152 * 2_097_152
        <= 9_223_372_036_854_775_808) by (nonlinear_arith)
        requires
            fz <= 2_097_152u64,
    ;
    fx + fy * (CELL_FIELD as u64) + fz * (CELL_FIELD as u64) * (CELL_FIELD as u64)
}

/// An unordered pair of distinct body identities (slot indices in the
/// host's body store), the lower one first.
#[derive(Clone, Copy, Debug, PartialEq, Eq, Structural)]
pub struct CollisionPair {
    pub first: usize,
    pub second: usize,
}

/// Bodies `i` and `j` form a broad-phase candidate pair: distinct, taken
/// with the lower identity first, and bucketed into the same or adjacent
/// grid cells.
pub open spec fn is_candidate(s: Seq<Body>, i: int, j: int) -> bool {
    &&& 0 <= i < j < s.len()
    &&& cells_adjacent(s[i].translation, s[j].translation)
}

/// Pushing onto a sequence keeps every element it already contains, and
/// makes it contain the pushed one.
proof fn lemma_contains_after_push<T>(s: Seq<T>, x: T, y: T)
    ensures
        s.contains(y) ==> s.push(x).contains(y),
        s.push(x).contains(x),
{
    if s.contains(y) {
        let idx = choose|idx: int| 0 <= idx < s.len() && s[idx] == y;
        assert(s.push(x)[idx] == y);
    }
    assert(s.push(x)[s.len() as int] == x);
}

/// Every bucket entry is a body index below `m` whose cell packs to the
/// bucket's key.
spec fn grid_sound(g: Map<u64, Vec<usize>>, s: Seq<Body>, m: int) -> bool {
    forall|k: u64, idx: int|
        g.contains_key(k) && 0 <= idx < g[k]@.len() ==> 0 <= (#[trigger] g[k]@[idx]) < m
            && body_key(s[g[k]@[idx] as int]) == k as int
}

/// Bucket entries are strictly increasing, hence distinct.
spec fn grid_sorted(g: Map<u64, Vec<usize>>) -> bool {
    forall|k: u64, i1: int, i2: int|
        g.contains_key(k) && 0 <= i1 < i2 < g[k]@.len() ==> (#[trigger] g[k]@[i1]) < (
        #[trigger] g[k]@[i2])
}

/// Every body below `m` is filed in the bucket of its own cell.
spec fn grid_complete(g: Map<u64, Vec<usize>>, s: Seq<Body>, m: int) -> bool {
    forall|j: int|
        0 <= j < m ==> {
            let k = (#[trigger] body_key(s[j])) as u64;
            g.contains_key(k) && g[k]@.contains(j as usize)
        }
}

/// The uniform-grid broad phase: buckets every body by its cell and emits
/// exactly the pairs of distinct bodies in the same or adjacent cells,
/// lower index first, each unordered pair once even when it is visible
/// from several shared neighbor cells.
pub fn broad_phase(bodies: &Vec<Body>) -> (pairs: Vec<CollisionPair>)
    requires
        forall|i: int| 0 <= i < bodies@.len() ==> (#[trigger] bodies@[i]).wf(),
    ensures
        forall|p: int|
            0 <= p < pairs@.len() ==> is_candidate(
                bodies@,
                (#[trigger] pairs@[p]).first as int,
                pairs@[p].second as int,
            ),
        forall|i: int, j: int|
            is_candidate(bodies@, i, j) ==> pairs@.contains(
                CollisionPair { first: i as usize, second: j as usize },
            ),
        forall|p: int, q: int| 0 <= p < q < pairs@.len() ==> pairs@[p] != pairs@[q],
        forall|p: int, q: int|
            0 <= p < q < pairs@.len() ==> (#[trigger] pairs@[p]).first <= (
            #[trigger] pairs@[q]).first,
{
    let n: usize = bodies.len();
    let mut grid: HashMap<u64, Vec<usize>> = HashMap::new();
    let mut m: usize = 0;
    while m < n
        invariant
            n == bodies@.len(),
            m <= n,
            forall|i: int| 0 <= i < n ==> (#[trigger] bodies@[i]).wf(),
            grid_sound(grid@, bodies@, m as int),
            grid_sorted(grid@),
            grid_complete(grid@, bodies@, m as int),
        decreases n - m,
    {
        let t: Vec3 = bodies[m].translation;
        let cx: i64 = cell_coord_exec(t.x);
        let cy: i64 = cell_coord_exec(t.y);
        let cz: i64 = cell_coord_exec(t.z);
        let key: u64 = pack_cell_exec(cx, cy, cz);
        proof {
            lemma_body_key_range(bodies@[m as int]);
            assert(key as int == body_key(bodies@[m as int]));
        }
        let ghost g0 = grid@;
        let mut bucket: Vec<usize> = match grid.remove(&key) {
            Some(b) => b,
            None => Vec::new(),
        };
        proof {
            assert(grid@ == g0.remove(key));
            if g0.contains_key(key) {
                assert(bucket@ == g0[key]@);
            } else {
                assert(bucket@ =~= Seq::<usize>::empty());
            }
        }
        let ghost b0 = bucket@;
        bucket.push(m);
        proof {
            assert(bucket@ == b0.push(m as usize));
        }
        grid.insert(key, bucket);
        proof {
            assert(grid@[key]@ == b0.push(m as usize));
            assert forall|k: u64| grid@.contains_key(k) && k != key implies g0.contains_key(k)
                && grid@[k] == g0[k] by {}
            assert forall|j: int| 0 <= j < m + 1 implies {
                let k = (#[trigger] body_key(bodies@[j])) as u64;
                grid@.contains_key(k) && grid@[k]@.contains(j as usize)
            } by {
                let k = body_key(bodies@[j]) as u64;
                if j < m {
                    if k == key {
                        lemma_contains_after_push(b0, m as usize, j as usize);
                    }
                } else {
                    lemma_contains_after_push(b0, m as usize, m as usize);
                }
            }
        }
        m = m + 1;
    }
    let mut pairs: Vec<CollisionPair> = Vec::new();
    let mut i: usize = 0;
    while i < n
        invariant
            n == bodies@.len(),
            i <= n,
            forall|ix: int| 0 <= ix < n ==> (#[trigger] bodies@[ix]).wf(),
            grid_sound(grid@, bodies@, n as int),
            grid_sorted(grid@),
            grid_complete(grid@, bodies@, n as int),
            forall|p: int|
                0 <= p < pairs@.len() ==> is_candidate(
                    bodies@,
                    (#[trigger] pairs@[p]).first as int,
                    pairs@[p].second as int,
                ),
            forall|p: int| 0 <= p < pairs@.len() ==> (#[trigger] pairs@[p]).first < i,
            forall|i0: int, j: int|
                0 <= i0 < i && is_candidate(bodies@, i0, j) ==> pairs@.contains(
                    CollisionPair { first: i0 as usize, second: j as usize },
                ),
            forall|p: int, q: int| 0 <= p < q < pairs@.len() ==> pairs@[p] != pairs@[q],
            forall|p: int, q: int|
                0 <= p < q < pairs@.len() ==> (#[trigger] pairs@[p]).first <= (
                #[trigger] pairs@[q]).first,
        decreases n - i,
    {
        let t: Vec3 = bodies[i].translation;
        let cx: i64 = cell_coord_exec(t.x);
        let cy: i64 = cell_coord_exec(t.y);
        let cz: i64 = cell_coord_exec(t.z);
        let ghost s = bodies@;
        let mut nt: usize = 0;
        while nt < 27
            invariant
                n == bodies@.len(),
                s == bodies@,
                i < n,
                nt <= 27,
                forall|ix: int| 0 <= ix < n ==> (#[trigger] bodies@[ix]).wf(),
                grid_sound(grid@, bodies@, n as int),
                grid_sorted(grid@),
                grid_complete(grid@, bodies@, n as int),
                cx as int == cell_of(s[i as int].translation).0,
                cy as int == cell_of(s[i as int].translation).1,
                cz as int == cell_of(s[i as int].translation).2,
                -1_000_000 <= cx <= 1_000_000,
                -1_000_000 <= cy <= 1_000_000,
                -1_000_000 <= cz <= 1_000_000,
                forall|p: int|
                    0 <= p < pairs@.len() ==> is_candidate(
                        bodies@,
                        (#[trigger] pairs@[p]).first as int,
                        pairs@[p].second as int,
                    ),
                forall|p: int| 0 <= p < pairs@.len() ==> (#[trigger] pairs@[p]).first <= i,
                forall|i0: int, j: int|
                    0 <= i0 < i && is_candidate(bodies@, i0, j) ==> pairs@.contains(
                        CollisionPair { first: i0 as usize, second: j as usize },
                    ),
                forall|p: int, q: int| 0 <= p < q < pairs@.len() ==> pairs@[p] != pairs@[q],
                forall|p: int, q: int|
                    0 <= p < q < pairs@.len() ==> (#[trigger] pairs@[p]).first <= (
                    #[trigger] pairs@[q]).first,
                // Which of body i's neighbors have been gathered so far.
                forall|p: int|
                    0 <= p < pairs@.len() && (#[trigger] pairs@[p]).first == i ==> exists|t0: int|
                        0 <= t0 < nt && body_key(s[pairs@[p].second as int]) == neighbor_key(
                            cx as int,
                            cy as int,
                            cz as int,
                            t0,
                        ),
                forall|j: int|
                    #![trigger body_key(s[j])]
                    i < j < n && cells_adjacent(s[i as int].translation, s[j].translation) && (
                    exists|t0: int|
                        0 <= t0 < nt && body_key(s[j]) == neighbor_key(
                            cx as int,
                            cy as int,
                            cz as int,
                            t0,
                        )) ==> pairs@.contains(
                        CollisionPair { first: i, second: j as usize },
                    ),
            decreases 27 - nt,
        {
            let dx: i64 = (nt / 9) as i64 - 1;
            let dy: i64 = ((nt / 3) % 3) as i64 - 1;
            let dz: i64 = (nt % 3) as i64 - 1;
            proof {
                lemma_digits(nt as int);
            }
            let nk: u64 = pack_cell_exec(cx + dx, cy + dy, cz + dz);
            proof {
                assert(nk as int == neighbor_key(cx as int, cy as int, cz as int, nt as int));
            }
            match grid.get(&nk) {
                None => {
                    proof {
                        assert forall|j: int|
                            #![trigger body_key(s[j])]
                            i < j < n && cells_adjacent(s[i as int].translation, s[j].translation)
                                && (exists|t0: int|
                                0 <= t0 < nt + 1 && body_key(s[j]) == neighbor_key(
                                    cx as int,
                                    cy as int,
                                    cz as int,
                                    t0,
                                )) implies pairs@.contains(
                            CollisionPair { first: i, second: j as usize },
                        ) by {
                            let t0 = choose|t0: int|
                                0 <= t0 < nt + 1 && body_key(s[j]) == neighbor_key(
                                    cx as int,
                                    cy as int,
                                    cz as int,
                                    t0,
                                );
                            if t0 == nt as int {
                                assert(grid@.contains_key(body_key(s[j]) as u64));
                                lemma_body_key_range(s[j]);
                                assert(false);
                            }
                        }
                    }
                },
                Some(bucket) => {
                    let blen: usize = bucket.len();
                    let mut bi: usize = 0;
                    while bi < blen
                        invariant
                            n == bodies@.len(),
                            s == bodies@,
                            i < n,
                            nt < 27,
                            bi <= blen,
                            forall|ix: int| 0 <= ix < n ==> (#[trigger] bodies@[ix]).wf(),
                            grid_sound(grid@, bodies@, n as int),
                            grid_sorted(grid@),
                            grid_complete(grid@, bodies@, n as int),
                            grid@.contains_key(nk),
                            bucket == grid@[nk],
                            blen == bucket@.len(),
                            nk as int == neighbor_key(cx as int, cy as int, cz as int, nt as int),
                            cx as int == cell_of(s[i as int].translation).0,
                            cy as int == cell_of(s[i as int].translation).1,
                            cz as int == cell_of(s[i as int].translation).2,
                            -1_000_000 <= cx <= 1_000_000,
                            -1_000_000 <= cy <= 1_000_000,
                            -1_000_000 <= cz <= 1_000_000,
                            forall|p: int|
                                0 <= p < pairs@.len() ==> is_candidate(
                                    bodies@,
                                    (#[trigger] pairs@[p]).first as int,
                                    pairs@[p].second as int,
                                ),
                            forall|p: int|
                                0 <= p < pairs@.len() ==> (#[trigger] pairs@[p]).first <= i,
                            forall|i0: int, j: int|
                                0 <= i0 < i && is_candidate(bodies@, i0, j) ==> pairs@.contains(
                                    CollisionPair { first: i0 as usize, second: j as usize },
                                ),
                            forall|p: int, q: int|
                                0 <= p < q < pairs@.len() ==> pairs@[p] != pairs@[q],
                            forall|p: int, q: int|
                                0 <= p < q < pairs@.len() ==> (#[trigger] pairs@[p]).first <= (
                                #[trigger] pairs@[q]).first,
                            forall|p: int|
                                0 <= p < pairs@.len() && (#[trigger] pairs@[p]).first == i ==> (
                                exists|t0: int|
                                    0 <= t0 < nt && body_key(s[pairs@[p].second as int])
                                        == neighbor_key(cx as int, cy as int, cz as int, t0)) || (
                                body_key(s[pairs@[p].second as int]) == nk as int
                                    && bucket@.subrange(0, bi as int).contains(
                                    pairs@[p].second,
                                )),
                            forall|j: int|
                                #![trigger body_key(s[j])]
                                i < j < n && cells_adjacent(
                                    s[i as int].translation,
                                    s[j].translation,
                                ) && (exists|t0: int|
                                    0 <= t0 < nt && body_key(s[j]) == neighbor_key(
                                        cx as int,
                                        cy as int,
                                        cz as int,
                                        t0,
                                    )) ==> pairs@.contains(
                                    CollisionPair { first: i, second: j as usize },
                                ),
                            forall|bj: int|
                                0 <= bj < bi ==> ((#[trigger] bucket@[bj]) as int > i ==> pairs@
                                    .contains(
                                    CollisionPair { first: i, second: bucket@[bj] },
                                )),
                        decreases blen - bi,
                    {
                        let j: usize = bucket[bi];
                        proof {
                            assert(grid@[nk]@[bi as int] == j);
                            assert(0 <= j < n && body_key(s[j as int]) == nk as int);
                        }
                        let ghost pairs0 = pairs@;
                        if i < j {
                            proof {
                                // The gathered body's cell is the scanned neighbor
                                // cell, so the pair is a genuine candidate.
                                lemma_cell_coord_range(s[j as int].translation.x as int);
                                lemma_cell_coord_range(s[j as int].translation.y as int);
                                lemma_cell_coord_range(s[j as int].translation.z as int);
                                lemma_pack_injective(
                                    cell_of(s[j as int].translation).0,
                                    cell_of(s[j as int].translation).1,
                                    cell_of(s[j as int].translation).2,
                                    cx as int + delta_x(nt as int),
                                    cy as int + delta_y(nt as int),
                                    cz as int + delta_z(nt as int),
                                );
                                assert(cells_adjacent(
                                    s[i as int].translation,
                                    s[j as int].translation,
                                ));
                                // Not seen before: earlier neighbor keys differ,
                                // earlier entries of this bucket are smaller.
                                assert forall|p: int|
                                    0 <= p < pairs@.len() implies pairs@[p] != (CollisionPair {
                                    first: i,
                                    second: j,
                                }) by {
                                    if pairs@[p].first == i {
                                        if body_key(s[pairs@[p].second as int]) == nk as int
                                            && bucket@.subrange(0, bi as int).contains(
                                            pairs@[p].second,
                                        ) {
                                            let bj = choose|bj: int|
                                                0 <= bj < bi && bucket@[bj] == pairs@[p].second;
                                            assert(bucket@[bj] < bucket@[bi as int]);
                                        } else {
                                            let t0 = choose|t0: int|
                                                0 <= t0 < nt && body_key(s[pairs@[p].second as int])
                                                    == neighbor_key(
                                                    cx as int,
                                                    cy as int,
                                                    cz as int,
                                                    t0,
                                                );
                                            lemma_neighbor_keys_distinct(
                                                cx as int,
                                                cy as int,
                                                cz as int,
                                                t0,
                                                nt as int,
                                            );
                                        }
                                    }
                                }
                            }
                            pairs.push(CollisionPair { first: i, second: j });
                            proof {
                                assert(pairs@ == pairs0.push(CollisionPair { first: i, second: j }));
                                assert(pairs@.last() == (CollisionPair { first: i, second: j }));
                            }
                        }
                        proof {
                            let newp = CollisionPair { first: i, second: j };
                            // Pushing (or not) keeps every pair already
                            // emitted, so the accumulated facts carry over.
                            assert forall|i0: int, j2: int|
                                0 <= i0 < i && is_candidate(bodies@, i0, j2) implies pairs@
                                .contains(
                                CollisionPair { first: i0 as usize, second: j2 as usize },
                            ) by {
                                lemma_contains_after_push(
                                    pairs0,
                                    newp,
                                    CollisionPair { first: i0 as usize, second: j2 as usize },
                                );
                            }
                            assert forall|j2: int|
                                #![trigger body_key(s[j2])]
                                i < j2 < n && cells_adjacent(
                                    s[i as int].translation,
                                    s[j2].translation,
                                ) && (exists|t0: int|
                                    0 <= t0 < nt && body_key(s[j2]) == neighbor_key(
                                        cx as int,
                                        cy as int,
                                        cz as int,
                                        t0,
                                    )) implies pairs@.contains(
                                CollisionPair { first: i, second: j2 as usize },
                            ) by {
                                lemma_contains_after_push(
                                    pairs0,
                                    newp,
                                    CollisionPair { first: i, second: j2 as usize },
                                );
                            }
                            assert forall|bj: int|
                                0 <= bj < bi + 1 && (#[trigger] bucket@[bj]) as int
                                    > i implies pairs@.contains(
                                CollisionPair { first: i, second: bucket@[bj] },
                            ) by {
                                if bj < bi {
                                    lemma_contains_after_push(
                                        pairs0,
                                        newp,
                                        CollisionPair { first: i, second: bucket@[bj] },
                                    );
                                } else {
                                    lemma_contains_after_push(pairs0, newp, newp);
                                }
                            }
                            assert forall|p: int|
                                0 <= p < pairs@.len() && (#[trigger] pairs@[p]).first
                                    == i implies ((exists|t0: int|
                                0 <= t0 < nt && body_key(s[pairs@[p].second as int])
                                    == neighbor_key(cx as int, cy as int, cz as int, t0)) || (
                            body_key(s[pairs@[p].second as int]) == nk as int && bucket@.subrange(
                                0,
                                bi as int + 1,
                            ).contains(pairs@[p].second))) by {
                                if p < pairs0.len() {
                                    if !(exists|t0: int|
                                        0 <= t0 < nt && body_key(s[pairs0[p].second as int])
                                            == neighbor_key(cx as int, cy as int, cz as int, t0)) {
                                        let idx = choose|idx: int|
                                            0 <= idx < bi && bucket@.subrange(0, bi as int)[idx]
                                                == pairs0[p].second;
                                        assert(bucket@.subrange(0, bi as int + 1)[idx] == pairs0[p].second);
                                    }
                                } else {
                                    assert(pairs@[p] == newp);
                                    assert(bucket@.subrange(0, bi as int + 1)[bi as int] == j);
                                }
                            }
                        }
                        bi = bi + 1;
                    }
                    proof {
                        // After the whole bucket, every adjacent body keyed by
                        // this neighbor cell has been paired.
                        assert forall|j: int|
                            #![trigger body_key(s[j])]
                            i < j < n && cells_adjacent(s[i as int].translation, s[j].translation)
                                && (exists|t0: int|
                                0 <= t0 < nt + 1 && body_key(s[j]) == neighbor_key(
                                    cx as int,
                                    cy as int,
                                    cz as int,
                                    t0,
                                )) implies pairs@.contains(
                            CollisionPair { first: i, second: j as usize },
                        ) by {
                            let t0 = choose|t0: int|
                                0 <= t0 < nt + 1 && body_key(s[j]) == neighbor_key(
                                    cx as int,
                                    cy as int,
                                    cz as int,
                                    t0,
                                );
                            if t0 == nt as int {
                                let bj = choose|bj: int|
                                    0 <= bj < bucket@.len() && bucket@[bj] == j as usize;
                                assert(bucket@[bj] as int > i);
                            }
                        }
                        // Seen-neighbor bookkeeping extends from nt to nt + 1.
                        assert forall|p: int|
                            0 <= p < pairs@.len() && (#[trigger] pairs@[p]).first == i implies (
                        exists|t0: int|
                            0 <= t0 < nt + 1 && body_key(s[pairs@[p].second as int])
                                == neighbor_key(cx as int, cy as int, cz as int, t0)) by {
                            if body_key(s[pairs@[p].second as int]) == nk as int {
                                assert(body_key(s[pairs@[p].second as int]) == neighbor_key(
                                    cx as int,
                                    cy as int,
                                    cz as int,
                                    nt as int,
                                ));
                            }
                        }
                    }
                },
            }
            nt = nt + 1;
        }
        proof {
            // Every candidate with first index i lies in some neighbor cell,
            // so after the 27-cell scan it has been emitted.
            assert forall|j: int| is_candidate(bodies@, i as int, j) implies pairs@.contains(
                CollisionPair { first: i, second: j as usize },
            ) by {
                lemma_adjacent_is_neighbor(
                    cx as int,
                    cy as int,
                    cz as int,
                    cell_of(s[j].translation).0,
                    cell_of(s[j].translation).1,
                    cell_of(s[j].translation).2,
                );
                let t0 = choose|t0: int|
                    0 <= t0 < 27 && cell_of(s[j].translation).0 == cx as int + delta_x(t0)
                        && cell_of(s[j].translation).1 == cy as int + delta_y(t0) && cell_of(
                        s[j].translation,
                    ).2 == cz as int + delta_z(t0);
                assert(body_key(s[j]) == neighbor_key(cx as int, cy as int, cz as int, t0));
            }
        }
        i = i + 1;
    }
    pairs
}

} // verus!
