use vstd::prelude::*;

use crate::cell::Cell;
use crate::grid::{column_of, lemma_index_then_pos, lemma_pos_then_index, row_of, GridView};
use crate::particle_grid::{lemma_members_get, ParticleGrid};

verus! {

/// The offsets of the eight cells around a cell, the cell itself excluded.
pub const NEIGHBOUR_KERNEL: [[i32; 2]; 8] = [
    [-1, -1],
    [-1, 0],
    [-1, 1],
    [0, -1],
    [0, 1],
    [1, -1],
    [1, 0],
    [1, 1],
];

/// The pair of two particle indices, larger index first.
pub open spec fn pair_key(a: usize, b: usize) -> [usize; 2] {
    if a < b {
        [b, a]
    } else {
        [a, b]
    }
}

/// The position of slot `k` in a grid of `size`.
pub open spec fn slot_position(size: [u32; 2], k: int) -> [u32; 2] {
    [column_of(size[0], k) as u32, row_of(size[0], k) as u32]
}

/// The cell `pos` shifted by kernel entry `d`, unless that leaves the first quadrant.
pub open spec fn kernel_neighbour(pos: [u32; 2], d: int) -> Option<[u32; 2]> {
    let x = pos[0] + NEIGHBOUR_KERNEL[d][0];
    let y = pos[1] + NEIGHBOUR_KERNEL[d][1];
    if 0 <= x && 0 <= y {
        Some([x as u32, y as u32])
    } else {
        None
    }
}

/// The particles in the cell at kernel entry `d` around `pos`; none when there is
/// no such cell.
pub open spec fn neighbour_members(g: GridView<Seq<usize>>, pos: [u32; 2], d: int) -> Seq<usize> {
    match kernel_neighbour(pos, d) {
        Some(q) => match g.get(q) {
            Some(c) => c,
            None => Seq::empty(),
        },
        None => Seq::empty(),
    }
}

/// The keys of particle `a` with each of `others` other than `a` itself, in order.
pub open spec fn pairs_with(a: usize, others: Seq<usize>) -> Seq<[usize; 2]>
    decreases others.len(),
{
    if others.len() == 0 {
        Seq::empty()
    } else {
        pairs_with(a, others.drop_last()) + if others.last() != a {
            seq![pair_key(a, others.last())]
        } else {
            Seq::empty()
        }
    }
}

/// The keys of particle `a` in the cell at `pos` with the particles of the first
/// `n` neighbour cells, kernel entry by kernel entry.
pub open spec fn particle_pairs(g: GridView<Seq<usize>>, pos: [u32; 2], a: usize, n: int) -> Seq<
    [usize; 2],
>
    decreases n,
{
    if n <= 0 {
        Seq::empty()
    } else {
        particle_pairs(g, pos, a, n - 1) + pairs_with(a, neighbour_members(g, pos, n - 1))
    }
}

/// The keys of each particle of `members`, in order, with its neighbours.
pub open spec fn cell_pairs(g: GridView<Seq<usize>>, pos: [u32; 2], members: Seq<usize>) -> Seq<
    [usize; 2],
>
    decreases members.len(),
{
    if members.len() == 0 {
        Seq::empty()
    } else {
        cell_pairs(g, pos, members.drop_last()) + particle_pairs(g, pos, members.last(), 8)
    }
}

/// The keys of the particles of the first `n` slots with their neighbours, slot by slot.
pub open spec fn grid_pairs(g: GridView<Seq<usize>>, n: int) -> Seq<[usize; 2]>
    decreases n,
{
    if n <= 0 {
        Seq::empty()
    } else {
        grid_pairs(g, n - 1) + match g.cells[n - 1] {
            Some(c) => cell_pairs(g, slot_position(g.size, n - 1), c),
            None => Seq::empty(),
        }
    }
}

/// Every key of a particle with a particle of a neighbouring cell, in the order
/// slot, particle, kernel entry, neighbour.
pub open spec fn candidate_pairs(g: GridView<Seq<usize>>) -> Seq<[usize; 2]> {
    grid_pairs(g, g.cells.len() as int)
}

/// Two distinct particles `a`, in the cell of slot `k`, and `b`, in the cell at
/// kernel entry `d` around it, whose key is `key`.
pub open spec fn is_pair_at(
    g: GridView<Seq<usize>>,
    key: [usize; 2],
    k: int,
    a: usize,
    d: int,
    b: usize,
) -> bool {
    &&& 0 <= k < g.cells.len()
    &&& g.cells[k] matches Some(c) && c.contains(a)
    &&& 0 <= d < 8
    &&& neighbour_members(g, slot_position(g.size, k), d).contains(b)
    &&& a != b
    &&& key == pair_key(a, b)
}

/// Keys of particle `a` with members of `others`: exactly those of the distinct ones.
proof fn lemma_pairs_with_contains(a: usize, others: Seq<usize>, key: [usize; 2])
    ensures
        pairs_with(a, others).contains(key) <==> exists|b: usize|
            others.contains(b) && b != a && key == #[trigger] pair_key(a, b),
    decreases others.len(),
{
    if others.len() > 0 {
        let rest = others.drop_last();
        let last = others.last();
        let tail = if last != a {
            seq![pair_key(a, last)]
        } else {
            Seq::<[usize; 2]>::empty()
        };
        lemma_pairs_with_contains(a, rest, key);
        lemma_concat_contains(pairs_with(a, rest), tail, key);
        if pairs_with(a, others).contains(key) {
            if pairs_with(a, rest).contains(key) {
                let b = choose|b: usize| rest.contains(b) && b != a && key == #[trigger] pair_key(a, b);
                let i = choose|i: int| 0 <= i < rest.len() && rest[i] == b;
                assert(others[i] == b);
            } else {
                assert(tail.contains(key));
                assert(others[others.len() - 1] == last);
                assert(pair_key(a, last) == key);
            }
        }
        if exists|b: usize| others.contains(b) && b != a && key == #[trigger] pair_key(a, b) {
            let b = choose|b: usize| others.contains(b) && b != a && key == #[trigger] pair_key(a, b);
            let i = choose|i: int| 0 <= i < others.len() && others[i] == b;
            if i < others.len() - 1 {
                assert(rest[i] == b);
            } else {
                assert(tail[0] == key);
            }
        }
    }
}

/// An element occurs in a concatenation exactly when it occurs in one of the parts.
pub proof fn lemma_concat_contains<A>(s: Seq<A>, t: Seq<A>, x: A)
    ensures
        (s + t).contains(x) <==> s.contains(x) || t.contains(x),
{
    if s.contains(x) {
        let i = choose|i: int| 0 <= i < s.len() && s[i] == x;
        assert((s + t)[i] == x);
    }
    if t.contains(x) {
        let i = choose|i: int| 0 <= i < t.len() && t[i] == x;
        assert((s + t)[s.len() + i] == x);
    }
    if (s + t).contains(x) {
        let i = choose|i: int| 0 <= i < (s + t).len() && (s + t)[i] == x;
        if i < s.len() {
            assert(s[i] == x);
        } else {
            assert(t[i - s.len()] == x);
        }
    }
}

/// Keys of particle `a` over the first `n` kernel entries: exactly those with the
/// distinct particles of those neighbour cells.
proof fn lemma_particle_pairs_contains(
    g: GridView<Seq<usize>>,
    pos: [u32; 2],
    a: usize,
    n: int,
    key: [usize; 2],
)
    requires
        0 <= n <= 8,
    ensures
        particle_pairs(g, pos, a, n).contains(key) <==> exists|d: int, b: usize|
            0 <= d < n && neighbour_members(g, pos, d).contains(b) && b != a && key
                == #[trigger] pair_key_at(a, d, b),
    decreases n,
{
    if n > 0 {
        lemma_particle_pairs_contains(g, pos, a, n - 1, key);
        lemma_pairs_with_contains(a, neighbour_members(g, pos, n - 1), key);
        lemma_concat_contains(
            particle_pairs(g, pos, a, n - 1),
            pairs_with(a, neighbour_members(g, pos, n - 1)),
            key,
        );
        if particle_pairs(g, pos, a, n).contains(key) {
            if !particle_pairs(g, pos, a, n - 1).contains(key) {
                let b = choose|b: usize|
                    neighbour_members(g, pos, n - 1).contains(b) && b != a && key
                        == #[trigger] pair_key(a, b);
                assert(pair_key_at(a, n - 1, b) == key);
            }
        }
        if exists|d: int, b: usize|
            0 <= d < n && neighbour_members(g, pos, d).contains(b) && b != a && key
                == #[trigger] pair_key_at(a, d, b) {
            let (d, b) = choose|d: int, b: usize|
                0 <= d < n && neighbour_members(g, pos, d).contains(b) && b != a && key
                    == #[trigger] pair_key_at(a, d, b);
            if d == n - 1 {
                assert(pair_key(a, b) == key);
            } else {
                assert(pair_key_at(a, d, b) == key);
            }
        }
    }
}

/// `pair_key`, indexed also by the kernel entry it was found at.
pub open spec fn pair_key_at(a: usize, d: int, b: usize) -> [usize; 2] {
    pair_key(a, b)
}

/// Keys of the particles of `members`: exactly those of a member with a distinct
/// particle of one of its neighbour cells.
proof fn lemma_cell_pairs_contains(
    g: GridView<Seq<usize>>,
    pos: [u32; 2],
    members: Seq<usize>,
    key: [usize; 2],
)
    ensures
        cell_pairs(g, pos, members).contains(key) <==> exists|a: usize, d: int, b: usize|
            members.contains(a) && 0 <= d < 8 && neighbour_members(g, pos, d).contains(b) && b
                != a && key == #[trigger] pair_key_at(a, d, b),
    decreases members.len(),
{
    if members.len() > 0 {
        let rest = members.drop_last();
        let last = members.last();
        lemma_cell_pairs_contains(g, pos, rest, key);
        lemma_particle_pairs_contains(g, pos, last, 8, key);
        lemma_concat_contains(cell_pairs(g, pos, rest), particle_pairs(g, pos, last, 8), key);
        if cell_pairs(g, pos, members).contains(key) {
            if cell_pairs(g, pos, rest).contains(key) {
                let (a, d, b) = choose|a: usize, d: int, b: usize|
                    rest.contains(a) && 0 <= d < 8 && neighbour_members(g, pos, d).contains(b)
                        && b != a && key == #[trigger] pair_key_at(a, d, b);
                let i = choose|i: int| 0 <= i < rest.len() && rest[i] == a;
                assert(members[i] == a);
            } else {
                let (d, b) = choose|d: int, b: usize|
                    0 <= d < 8 && neighbour_members(g, pos, d).contains(b) && b != last && key
                        == #[trigger] pair_key_at(last, d, b);
                assert(members[members.len() - 1] == last);
                assert(pair_key_at(last, d, b) == key);
            }
        }
        if exists|a: usize, d: int, b: usize|
            members.contains(a) && 0 <= d < 8 && neighbour_members(g, pos, d).contains(b) && b
                != a && key == #[trigger] pair_key_at(a, d, b) {
            let (a, d, b) = choose|a: usize, d: int, b: usize|
                members.contains(a) && 0 <= d < 8 && neighbour_members(g, pos, d).contains(b) && b
                    != a && key == #[trigger] pair_key_at(a, d, b);
            let i = choose|i: int| 0 <= i < members.len() && members[i] == a;
            if i < members.len() - 1 {
                assert(rest[i] == a);
                assert(pair_key_at(a, d, b) == key);
            } else {
                assert(pair_key_at(a, d, b) == key);
            }
        }
    }
}

/// Keys collected over the first `n` slots: exactly those of `is_pair_at` there.
proof fn lemma_grid_pairs_contains(g: GridView<Seq<usize>>, n: int, key: [usize; 2])
    requires
        0 <= n <= g.cells.len(),
    ensures
        grid_pairs(g, n).contains(key) <==> exists|k: int, a: usize, d: int, b: usize|
            k < n && #[trigger] is_pair_at(g, key, k, a, d, b),
    decreases n,
{
    if n > 0 {
        lemma_grid_pairs_contains(g, n - 1, key);
        let here = match g.cells[n - 1] {
            Some(c) => cell_pairs(g, slot_position(g.size, n - 1), c),
            None => Seq::<[usize; 2]>::empty(),
        };
        lemma_concat_contains(grid_pairs(g, n - 1), here, key);
        let pos = slot_position(g.size, n - 1);
        if grid_pairs(g, n).contains(key) && !grid_pairs(g, n - 1).contains(key) {
            let c = g.cells[n - 1]->0;
            lemma_cell_pairs_contains(g, pos, c, key);
            let (a, d, b) = choose|a: usize, d: int, b: usize|
                c.contains(a) && 0 <= d < 8 && neighbour_members(g, pos, d).contains(b) && b != a
                    && key == #[trigger] pair_key_at(a, d, b);
            assert(is_pair_at(g, key, n - 1, a, d, b));
        }
        if exists|k: int, a: usize, d: int, b: usize|
            k < n && #[trigger] is_pair_at(g, key, k, a, d, b) {
            let (k, a, d, b) = choose|k: int, a: usize, d: int, b: usize|
                k < n && #[trigger] is_pair_at(g, key, k, a, d, b);
            if k == n - 1 {
                let c = g.cells[n - 1]->0;
                lemma_cell_pairs_contains(g, pos, c, key);
                assert(pair_key_at(a, d, b) == key);
            }
        }
    }
}

/// The collision candidates are exactly the keys of two distinct particles of which
/// one lies in a stored cell and the other in one of the eight cells around it.
pub proof fn lemma_candidates_exact(g: GridView<Seq<usize>>, key: [usize; 2])
    ensures
        candidate_pairs(g).contains(key) <==> exists|k: int, a: usize, d: int, b: usize|
            #[trigger] is_pair_at(g, key, k, a, d, b),
{
    lemma_grid_pairs_contains(g, g.cells.len() as int, key);
}

/// Every candidate names two distinct particles, the larger index first.
pub proof fn lemma_candidates_ordered(g: GridView<Seq<usize>>, key: [usize; 2])
    requires
        candidate_pairs(g).contains(key),
    ensures
        key[0] > key[1],
{
    lemma_candidates_exact(g, key);
}

/// The key of two particles names both, the larger index first.
pub proof fn lemma_pair_key_names_both(a: usize, b: usize)
    ensures
        pair_key(a, b) == pair_key(b, a),
        pair_key(a, b)[0] >= pair_key(a, b)[1],
        (pair_key(a, b)[0] == a && pair_key(a, b)[1] == b) || (pair_key(a, b)[0] == b
            && pair_key(a, b)[1] == a),
{
}

/// The kernel lists each of the eight offsets around a cell: every offset with both
/// components in -1..=1, other than [0, 0], is a kernel entry, and none is [0, 0].
pub proof fn lemma_kernel_covers_neighbours(dx: int, dy: int)
    requires
        -1 <= dx <= 1,
        -1 <= dy <= 1,
        dx != 0 || dy != 0,
    ensures
        exists|d: int|
            0 <= d < 8 && NEIGHBOUR_KERNEL[d][0] == dx && #[trigger] NEIGHBOUR_KERNEL[d][1] == dy,
        forall|d: int| 0 <= d < 8 ==> !(NEIGHBOUR_KERNEL[d][0] == 0 && #[trigger] NEIGHBOUR_KERNEL[d][1] == 0),
{
    let d: int = if dx == -1 {
        dy + 1
    } else if dx == 0 {
        if dy == -1 {
            3
        } else {
            4
        }
    } else {
        dy + 6
    };
    assert(NEIGHBOUR_KERNEL[d][0] == dx && NEIGHBOUR_KERNEL[d][1] == dy);
    assert forall|d: int| 0 <= d < 8 implies !(NEIGHBOUR_KERNEL[d][0] == 0
        && #[trigger] NEIGHBOUR_KERNEL[d][1] == 0) by {
        if d == 0 {
        } else if d == 1 {
        } else if d == 2 {
        } else if d == 3 {
        } else if d == 4 {
        } else if d == 5 {
        } else if d == 6 {
        } else {
        }
    }
}

/// A kernel neighbour is the cell shifted by the kernel offset, whenever that stays
/// at non-negative coordinates.
pub proof fn lemma_kernel_neighbour_is_offset(pos: [u32; 2], d: int)
    requires
        0 <= d < 8,
        pos[0] < i32::MAX,
        pos[1] < i32::MAX,
    ensures
        (0 <= pos[0] + NEIGHBOUR_KERNEL[d][0] && 0 <= pos[1] + NEIGHBOUR_KERNEL[d][1]) ==> (
        kernel_neighbour(pos, d) matches Some(q) && q[0] == pos[0] + NEIGHBOUR_KERNEL[d][0]
            && q[1] == pos[1] + NEIGHBOUR_KERNEL[d][1]),
        !(0 <= pos[0] + NEIGHBOUR_KERNEL[d][0] && 0 <= pos[1] + NEIGHBOUR_KERNEL[d][1])
            ==> kernel_neighbour(pos, d) is None,
{
    assert(-1 <= NEIGHBOUR_KERNEL[d][0] <= 1 && -1 <= NEIGHBOUR_KERNEL[d][1] <= 1) by {
        if d == 0 {
        } else if d == 1 {
        } else if d == 2 {
        } else if d == 3 {
        } else if d == 4 {
        } else if d == 5 {
        } else if d == 6 {
        } else {
        }
    }
}

/// Every two distinct particles in touching cells (cells whose columns and rows each
/// differ by at most one, the same cell excluded) are a collision candidate, under
/// their key.
pub proof fn lemma_touching_cells_are_candidates(
    g: GridView<Seq<usize>>,
    p: [u32; 2],
    q: [u32; 2],
    a: usize,
    b: usize,
)
    requires
        g.wf(),
        g.size[0] <= i32::MAX,
        g.size[1] <= i32::MAX,
        g.get(p) matches Some(c) && c.contains(a),
        g.get(q) matches Some(c) && c.contains(b),
        -1 <= q[0] - p[0] <= 1,
        -1 <= q[1] - p[1] <= 1,
        p != q,
        a != b,
    ensures
        candidate_pairs(g).contains(pair_key(a, b)),
{
    g.lemma_wf_slot(p);
    g.lemma_wf_slot(q);
    let k = g.slot(p)->0;
    lemma_index_then_pos(g.size, p);
    assert(slot_position(g.size, k) == p);
    let dx = q[0] - p[0];
    let dy = q[1] - p[1];
    if dx == 0 && dy == 0 {
        assert(q == p);
    }
    lemma_kernel_covers_neighbours(dx, dy);
    let d = choose|d: int|
        0 <= d < 8 && NEIGHBOUR_KERNEL[d][0] == dx && #[trigger] NEIGHBOUR_KERNEL[d][1] == dy;
    lemma_kernel_neighbour_is_offset(p, d);
    assert(kernel_neighbour(p, d) == Some(q));
    assert(neighbour_members(g, p, d) == g.get(q)->0);
    assert(is_pair_at(g, pair_key(a, b), k, a, d, b));
    lemma_candidates_exact(g, pair_key(a, b));
}

/// Every collision candidate is the key of two distinct particles in touching cells:
/// cells whose columns and rows each differ by at most one, not the same cell.
pub proof fn lemma_candidates_are_touching(g: GridView<Seq<usize>>, key: [usize; 2])
    requires
        g.wf(),
        g.size[0] <= i32::MAX,
        g.size[1] <= i32::MAX,
        candidate_pairs(g).contains(key),
    ensures
        exists|p: [u32; 2], q: [u32; 2], a: usize, b: usize|
            #![trigger g.get(p), g.get(q), pair_key(a, b)]
            {
                &&& (g.get(p) matches Some(c) && c.contains(a))
                &&& (g.get(q) matches Some(c2) && c2.contains(b))
                &&& -1 <= q[0] - p[0] <= 1
                &&& -1 <= q[1] - p[1] <= 1
                &&& p != q
                &&& a != b
                &&& key == pair_key(a, b)
            },
{
    lemma_candidates_exact(g, key);
    let (k, a, d, b) = choose|k: int, a: usize, d: int, b: usize|
        #[trigger] is_pair_at(g, key, k, a, d, b);
    let p = slot_position(g.size, k);
    lemma_pos_then_index(g.size, k);
    g.lemma_wf_slot(p);
    lemma_kernel_neighbour_is_offset(p, d);
    let q = kernel_neighbour(p, d)->0;
    lemma_kernel_covers_neighbours(1, 1);
    assert(-1 <= NEIGHBOUR_KERNEL[d][0] <= 1 && -1 <= NEIGHBOUR_KERNEL[d][1] <= 1) by {
        if d == 0 {
        } else if d == 1 {
        } else if d == 2 {
        } else if d == 3 {
        } else if d == 4 {
        } else if d == 5 {
        } else if d == 6 {
        } else {
        }
    }
    assert(!(NEIGHBOUR_KERNEL[d][0] == 0 && NEIGHBOUR_KERNEL[d][1] == 0));
    assert(g.get(q) matches Some(c2) && c2.contains(b));
    assert(g.get(p) == g.cells[k]);
    assert(p != q) by {
        if p == q {
            assert(q[0] - p[0] == 0 && q[1] - p[1] == 0);
        }
    }
}

impl ParticleGrid {
    /// Appends the keys of particle `a` with the particles of `others`.
    fn push_pairs_with(a: usize, others: &Cell, out: &mut Vec<[usize; 2]>)
        ensures
            final(out)@ == old(out)@ + pairs_with(a, others@),
    {
        let n = others.0.len();
        let mut i: usize = 0;
        while i < n
            invariant
                i <= n,
                n == others@.len(),
                out@ == old(out)@ + pairs_with(a, others@.take(i as int)),
            decreases n - i,
        {
            let b = others.0[i];
            assert(others@.take(i as int + 1).drop_last() =~= others@.take(i as int));
            assert(others@.take(i as int + 1).last() == b);
            if a != b {
                let key = if a < b {
                    [b, a]
                } else {
                    [a, b]
                };
                out.push(key);
            }
            assert(out@ =~= old(out)@ + pairs_with(a, others@.take(i as int + 1)));
            i = i + 1;
        }
        assert(others@.take(n as int) =~= others@);
    }

    /// Appends the keys of particle `a`, in the cell at `pos`, with the particles of
    /// the eight cells around it.
    fn push_particle_pairs(&self, pos: [u32; 2], a: usize, out: &mut Vec<[usize; 2]>)
        requires
            self@.wf(),
            pos[0] < i32::MAX,
            pos[1] < i32::MAX,
        ensures
            final(out)@ == old(out)@ + particle_pairs(self@, pos, a, 8),
    {
        let mut d: usize = 0;
        while d < 8
            invariant
                d <= 8,
                self@.wf(),
                pos[0] < i32::MAX,
                pos[1] < i32::MAX,
                out@ == old(out)@ + particle_pairs(self@, pos, a, d as int),
            decreases 8 - d,
        {
            let delta = NEIGHBOUR_KERNEL[d];
            let x: i64 = pos[0] as i64 + delta[0] as i64;
            let y: i64 = pos[1] as i64 + delta[1] as i64;
            let ghost before = out@;
            if 0 <= x && 0 <= y {
                let q: [u32; 2] = [x as u32, y as u32];
                assert(kernel_neighbour(pos, d as int) == Some(q));
                proof {
                    lemma_members_get(self.0@, q);
                    self@.lemma_wf_slot(q);
                    self.0@.lemma_wf_slot(q);
                }
                if let Some(cell) = self.0.get(q) {
                    Self::push_pairs_with(a, cell, out);
                } else {
                    assert(neighbour_members(self@, pos, d as int) =~= Seq::<usize>::empty());
                    assert(pairs_with(a, Seq::<usize>::empty()) =~= Seq::<[usize; 2]>::empty());
                }
            } else {
                assert(neighbour_members(self@, pos, d as int) =~= Seq::<usize>::empty());
                assert(pairs_with(a, Seq::<usize>::empty()) =~= Seq::<[usize; 2]>::empty());
            }
            assert(out@ =~= old(out)@ + particle_pairs(self@, pos, a, d as int + 1));
            d = d + 1;
        }
    }

    /// Appends the keys of the particles of `members`, in the cell at `pos`, with
    /// their neighbours.
    fn push_cell_pairs(&self, pos: [u32; 2], members: &Cell, out: &mut Vec<[usize; 2]>)
        requires
            self@.wf(),
            pos[0] < i32::MAX,
            pos[1] < i32::MAX,
        ensures
            final(out)@ == old(out)@ + cell_pairs(self@, pos, members@),
    {
        let n = members.0.len();
        let mut i: usize = 0;
        while i < n
            invariant
                i <= n,
                n == members@.len(),
                self@.wf(),
                pos[0] < i32::MAX,
                pos[1] < i32::MAX,
                out@ == old(out)@ + cell_pairs(self@, pos, members@.take(i as int)),
            decreases n - i,
        {
            let a = members.0[i];
            assert(members@.take(i as int + 1).drop_last() =~= members@.take(i as int));
            assert(members@.take(i as int + 1).last() == a);
            self.push_particle_pairs(pos, a, out);
            assert(out@ =~= old(out)@ + cell_pairs(self@, pos, members@.take(i as int + 1)));
            i = i + 1;
        }
        assert(members@.take(n as int) =~= members@);
    }

    /// The key `[larger, smaller]` of every two distinct particles of which one lies
    /// in a stored cell and the other in one of the eight cells around it, in the
    /// order slot, particle, kernel entry, neighbour; a pair may occur more than once.
    pub fn collision_candidates(&self) -> (r: Vec<[usize; 2]>)
        requires
            self@.wf(),
            self@.size[0] <= i32::MAX,
            self@.size[1] <= i32::MAX,
        ensures
            r@ == candidate_pairs(self@),
    {
        let mut out: Vec<[usize; 2]> = Vec::new();
        let n = self.0.0.len();
        let mut k: usize = 0;
        while k < n
            invariant
                k <= n,
                n == self@.cells.len(),
                self@.wf(),
                self@.size[0] <= i32::MAX,
                self@.size[1] <= i32::MAX,
                out@ == grid_pairs(self@, k as int),
            decreases n - k,
        {
            assert(self@.cells[k as int] == crate::particle_grid::cell_members(self.0.0@[k as int]));
            match &self.0.0[k] {
                Some(particles) => {
                    proof {
                        crate::grid::lemma_pos_then_index(self@.size, k as int);
                    }
                    let pos = self.0.pos(k);
                    assert(pos == slot_position(self@.size, k as int));
                    self.push_cell_pairs(pos, particles, &mut out);
                },
                None => {},
            }
            assert(out@ =~= grid_pairs(self@, k as int + 1));
            k = k + 1;
        }
        out
    }
}

} // verus!
