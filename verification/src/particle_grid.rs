use vstd::prelude::*;

use crate::cell::{lemma_remove_last_counts, lemma_last_occurrence, remove_last, Cell};
use crate::grid::{index_fits, Grid, GridView};

verus! {

/// The particle indices held by an optional cell.
pub open spec fn cell_members(cell: Option<Cell>) -> Option<Seq<usize>> {
    match cell {
        Some(c) => Some(c@),
        None => None,
    }
}

/// A grid of cells seen as a grid of particle-index sequences.
pub open spec fn members_view(g: GridView<Cell>) -> GridView<Seq<usize>> {
    GridView { cells: g.cells.map_values(|c: Option<Cell>| cell_members(c)), size: g.size }
}

/// How often particle `j` occurs in an optional cell.
pub open spec fn occurrences(cell: Option<Seq<usize>>, j: usize) -> nat {
    match cell {
        Some(c) => c.to_multiset().count(j),
        None => 0,
    }
}

/// Whether the border cell test holds: `pos` is in the first or last column or row.
pub open spec fn on_border(size: [u32; 2], pos: [u32; 2]) -> bool {
    ||| pos[0] == size[0] - 1
    ||| pos[0] == 0
    ||| pos[1] == size[1] - 1
    ||| pos[1] == 0
}

/// The four velocity samples around cell `pos`: own x face, own y face, next x face,
/// next y face.
pub open spec fn divergence_faces_spec(pos: [u32; 2]) -> [[u32; 2]; 4] {
    [
        [pos[0], pos[1]],
        [pos[0], pos[1]],
        [(pos[0] + 1) as u32, pos[1]],
        [pos[0], (pos[1] + 1) as u32],
    ]
}

impl GridView<Seq<usize>> {
    /// Takes particle `idx` out of the cell at `pos`; a cell left empty is removed.
    pub open spec fn leave(self, pos: [u32; 2], idx: usize) -> GridView<Seq<usize>> {
        match self.get(pos) {
            Some(c) => if remove_last(c, idx).len() == 0 {
                self.remove(pos)
            } else {
                self.insert(pos, remove_last(c, idx))
            },
            None => self,
        }
    }

    /// Whether taking particle `idx` out of the cell at `pos` leaves that cell empty.
    pub open spec fn leave_empties(self, pos: [u32; 2], idx: usize) -> bool {
        self.get(pos) matches Some(c) && remove_last(c, idx).len() == 0
    }

    /// Puts particle `idx` into the cell at `pos`, creating the cell when it is empty;
    /// nothing happens outside the grid.
    pub open spec fn enter(self, pos: [u32; 2], idx: usize) -> GridView<Seq<usize>> {
        match self.get(pos) {
            Some(c) => self.insert(pos, c.push(idx)),
            None => self.insert(pos, seq![idx]),
        }
    }

    /// Every stored cell holds at least one particle.
    pub open spec fn no_empty_cells(self) -> bool {
        forall|k: int| 0 <= k < self.cells.len() ==> (#[trigger] self.cells[k] matches Some(c)
            ==> c.len() > 0)
    }

    /// Particle `j` of `positions` has the cell in slot `k` as its home.
    pub open spec fn home_of(self, positions: Seq<[u32; 2]>, j: usize, k: int) -> bool {
        (j as int) < positions.len() && self.slot(positions[j as int]) == Some(k)
    }

    /// The grid indexes the particles at `positions`: every cell that is stored holds
    /// something, and each particle occurs exactly once, in the cell of its position,
    /// when that position lies inside the grid, and nowhere otherwise.
    pub open spec fn tracks(self, positions: Seq<[u32; 2]>) -> bool {
        &&& self.no_empty_cells()
        &&& forall|k: int, j: usize|
            0 <= k < self.cells.len() ==> #[trigger] occurrences(self.cells[k], j) == if self.home_of(
                positions,
                j,
                k,
            ) {
                1nat
            } else {
                0nat
            }
    }

    /// As `tracks`, except that particle `i` occurs nowhere.
    pub open spec fn tracks_except(self, positions: Seq<[u32; 2]>, i: usize) -> bool {
        &&& self.no_empty_cells()
        &&& forall|k: int, j: usize|
            0 <= k < self.cells.len() ==> #[trigger] occurrences(self.cells[k], j) == if j != i
                && self.home_of(positions, j, k) {
                1nat
            } else {
                0nat
            }
    }
}

/// The view of a cell grid commutes with writing a cell.
proof fn lemma_members_set(g: GridView<Cell>, pos: [u32; 2], c: Option<Cell>)
    ensures
        members_view(g.set(pos, c)) == members_view(g).set(pos, cell_members(c)),
        members_view(g).get(pos) == cell_members(g.get(pos)),
        members_view(g).slot(pos) == g.slot(pos),
{
    match g.slot(pos) {
        Some(i) => {
            assert(members_view(g.set(pos, c)).cells =~= members_view(g).set(
                pos,
                cell_members(c),
            ).cells);
        },
        None => {},
    }
}

/// Reading the view of a cell grid reads the cell's members.
pub proof fn lemma_members_get(g: GridView<Cell>, pos: [u32; 2])
    ensures
        members_view(g).get(pos) == cell_members(g.get(pos)),
        members_view(g).slot(pos) == g.slot(pos),
        members_view(g).size == g.size,
        members_view(g).cells.len() == g.cells.len(),
{
}

/// An empty grid indexes an empty set of particles.
pub proof fn lemma_empty_tracks(size: [u32; 2])
    ensures
        GridView::<Seq<usize>>::empty(size).tracks(Seq::empty()),
{
}

/// Taking a particle out of the cell of its position leaves an index of all the
/// other particles.
proof fn lemma_leave_tracks(g: GridView<Seq<usize>>, positions: Seq<[u32; 2]>, i: usize)
    requires
        g.tracks(positions),
        (i as int) < positions.len(),
    ensures
        g.leave(positions[i as int], i).tracks_except(positions, i),
{
    broadcast use vstd::multiset::group_multiset_axioms;

    let p = positions[i as int];
    let g1 = g.leave(p, i);
    match g.slot(p) {
        Some(k0) => {
            assert(occurrences(g.cells[k0], i) == 1);
            let c = g.cells[k0]->0;
            lemma_remove_last_counts(c, i);
            lemma_last_occurrence(c, i);
            assert(c.to_multiset().count(i) > 0);
            broadcast use vstd::seq_lib::group_to_multiset_ensures;

            assert(c.contains(i));
            let c2 = remove_last(c, i);
            if c2.len() == 0 {
                assert(c2 =~= Seq::<usize>::empty());
                assert forall|j: usize| c.to_multiset().remove(i).count(j) == 0 by {
                    assert(c2.to_multiset().len() == 0);
                }
            }
            assert forall|k: int, j: usize| 0 <= k < g1.cells.len() implies #[trigger] occurrences(
                g1.cells[k],
                j,
            ) == if j != i && g1.home_of(positions, j, k) {
                1nat
            } else {
                0nat
            } by {
                assert(occurrences(g.cells[k], j) == if g.home_of(positions, j, k) {
                    1nat
                } else {
                    0nat
                });
                assert(g1.slot(positions[j as int]) == g.slot(positions[j as int]));
                if k == k0 {
                    if c2.len() == 0 {
                        assert(c.to_multiset().remove(i).count(j) == 0);
                        assert(g1.cells[k] is None);
                    } else {
                        assert(g1.cells[k] == Some(c2));
                        assert(c2.to_multiset().count(j) == c.to_multiset().remove(i).count(j));
                    }
                } else {
                    assert(g1.cells[k] == g.cells[k]);
                    if j == i {
                        assert(occurrences(g.cells[k], j) == 0);
                    }
                }
            }
        },
        None => {
            assert(g1 == g);
            assert forall|k: int, j: usize| 0 <= k < g1.cells.len() implies #[trigger] occurrences(
                g1.cells[k],
                j,
            ) == if j != i && g1.home_of(positions, j, k) {
                1nat
            } else {
                0nat
            } by {
                assert(occurrences(g.cells[k], j) == if g.home_of(positions, j, k) {
                    1nat
                } else {
                    0nat
                });
            }
        },
    }
}

/// Putting a particle that occurs nowhere into the cell of a new position gives an
/// index of the particles with that particle moved there.
proof fn lemma_enter_tracks(
    g: GridView<Seq<usize>>,
    positions: Seq<[u32; 2]>,
    i: usize,
    p: [u32; 2],
)
    requires
        g.tracks_except(positions, i),
        (i as int) < positions.len(),
    ensures
        g.enter(p, i).tracks(positions.update(i as int, p)),
{
    broadcast use vstd::multiset::group_multiset_axioms;
    broadcast use vstd::seq_lib::group_to_multiset_ensures;

    let g2 = g.enter(p, i);
    let ps = positions.update(i as int, p);
    match g.slot(p) {
        Some(kp) => {
            let single = seq![i];
            assert(single =~= Seq::<usize>::empty().push(i));
            assert(Seq::<usize>::empty().to_multiset() =~= vstd::multiset::Multiset::empty());
            assert forall|k: int, j: usize| 0 <= k < g2.cells.len() implies #[trigger] occurrences(
                g2.cells[k],
                j,
            ) == if g2.home_of(ps, j, k) {
                1nat
            } else {
                0nat
            } by {
                assert(occurrences(g.cells[k], j) == if j != i && g.home_of(positions, j, k) {
                    1nat
                } else {
                    0nat
                });
                if k != kp {
                    assert(g2.cells[k] == g.cells[k]);
                }
            }
            assert forall|k: int| 0 <= k < g2.cells.len() implies (#[trigger] g2.cells[k] matches Some(
                c,
            ) ==> c.len() > 0) by {
                if k != kp {
                    assert(g2.cells[k] == g.cells[k]);
                }
            }
        },
        None => {
            assert(g2 == g);
            assert forall|k: int, j: usize| 0 <= k < g2.cells.len() implies #[trigger] occurrences(
                g2.cells[k],
                j,
            ) == if g2.home_of(ps, j, k) {
                1nat
            } else {
                0nat
            } by {
                assert(occurrences(g.cells[k], j) == if j != i && g.home_of(positions, j, k) {
                    1nat
                } else {
                    0nat
                });
            }
        },
    }
}

/// Moving a particle keeps the index exact: if the grid indexes the particles at
/// `positions`, then after moving particle `i` from the cell of its position to the
/// cell of `p` it indexes the same particles with particle `i` at `p`.
pub proof fn lemma_move_tracks(
    g: GridView<Seq<usize>>,
    positions: Seq<[u32; 2]>,
    i: usize,
    p: [u32; 2],
)
    requires
        g.tracks(positions),
        (i as int) < positions.len(),
    ensures
        g.leave(positions[i as int], i).enter(p, i).tracks(positions.update(i as int, p)),
{
    lemma_leave_tracks(g, positions, i);
    lemma_enter_tracks(g.leave(positions[i as int], i), positions, i, p);
}

/// Adding a new particle keeps the index exact: if the grid indexes the particles at
/// `positions`, then after entering the next index into the cell of `p` it indexes
/// the particles at `positions` followed by `p`.
pub proof fn lemma_add_tracks(g: GridView<Seq<usize>>, positions: Seq<[u32; 2]>, p: [u32; 2])
    requires
        g.tracks(positions),
        positions.len() < usize::MAX,
    ensures
        g.enter(p, positions.len() as usize).tracks(positions.push(p)),
{
    let n = positions.len() as usize;
    let ps = positions.push(p);
    assert forall|k: int, j: usize| 0 <= k < g.cells.len() implies #[trigger] occurrences(
        g.cells[k],
        j,
    ) == if j != n && g.home_of(ps, j, k) {
        1nat
    } else {
        0nat
    } by {
        assert(occurrences(g.cells[k], j) == if g.home_of(positions, j, k) {
            1nat
        } else {
            0nat
        });
        if j != n && (j as int) < ps.len() {
            assert(ps[j as int] == positions[j as int]);
        }
    }
    lemma_enter_tracks(g, ps, n, p);
    assert(ps.update(n as int, p) =~= ps);
}

/// In an exact index, moving a particle reports that its old cell was removed
/// exactly when that particle was alone in it.
pub proof fn lemma_leave_empties_alone(g: GridView<Seq<usize>>, positions: Seq<[u32; 2]>, i: usize)
    requires
        g.tracks(positions),
        (i as int) < positions.len(),
    ensures
        g.leave_empties(positions[i as int], i) <==> g.get(positions[i as int]) == Some(seq![i]),
{
    broadcast use vstd::multiset::group_multiset_axioms;
    broadcast use vstd::seq_lib::group_to_multiset_ensures;

    let p = positions[i as int];
    if let Some(k0) = g.slot(p) {
        assert(occurrences(g.cells[k0], i) == 1);
        let c = g.cells[k0]->0;
        lemma_remove_last_counts(c, i);
        assert(c.contains(i));
        if c.len() == 1 {
            assert(c[0] == i);
            assert(c =~= seq![i]);
        }
    }
}

/// Entering a particle appends it to the cell of its position (a new cell holds it
/// alone), inside the grid; no other cell changes.
pub proof fn lemma_enter_appends(g: GridView<Seq<usize>>, p: [u32; 2], q: [u32; 2], i: usize)
    ensures
        g.slot(p) is Some ==> (g.enter(p, i).get(p) matches Some(c) && c.len() >= 1 && c.last()
            == i && c.drop_last() == (if g.get(p) is Some {
            g.get(p)->0
        } else {
            Seq::<usize>::empty()
        })),
        q != p || g.slot(p) is None ==> g.enter(p, i).get(q) == g.get(q),
{
    match g.get(p) {
        Some(c) => {
            g.lemma_get_set(p, q, Some(c.push(i)));
            g.lemma_get_set(p, p, Some(c.push(i)));
            assert(c.push(i).drop_last() =~= c);
        },
        None => {
            g.lemma_get_set(p, q, Some(seq![i]));
            g.lemma_get_set(p, p, Some(seq![i]));
            assert(seq![i].drop_last() =~= Seq::<usize>::empty());
        },
    }
}

/// Taking a particle out of a cell leaves that cell without its last occurrence of
/// the particle, and removes the cell when nothing is left; no other cell changes.
pub proof fn lemma_leave_takes_out(g: GridView<Seq<usize>>, p: [u32; 2], q: [u32; 2], i: usize)
    ensures
        g.get(p) matches Some(c) ==> g.leave(p, i).get(p) == if remove_last(c, i).len() == 0 {
            None
        } else {
            Some(remove_last(c, i))
        },
        g.get(p) is None ==> g.leave(p, i) == g,
        q != p ==> g.leave(p, i).get(q) == g.get(q),
{
    match g.get(p) {
        Some(c) => {
            let c2 = remove_last(c, i);
            let cell = if c2.len() == 0 {
                None
            } else {
                Some(c2)
            };
            g.lemma_get_set(p, q, cell);
            g.lemma_get_set(p, p, cell);
        },
        None => {},
    }
}

/// A position is a wall exactly when it lies in the first or the last column, or in
/// the first or the last row; any other position, inside the grid or beyond it, is not.
pub proof fn lemma_wall_exactly_border_lines(size: [u32; 2], pos: [u32; 2])
    requires
        size[0] >= 1,
        size[1] >= 1,
    ensures
        on_border(size, pos) <==> (pos[0] == 0 || pos[0] + 1 == size[0] || pos[1] == 0 || pos[1]
            + 1 == size[1]),
        0 < pos[0] && pos[0] + 1 != size[0] && 0 < pos[1] && pos[1] + 1 != size[1]
            ==> !on_border(size, pos),
{
}

/// The faces of a cell are the cell itself twice (its x and its y sample), then the
/// cell one column to the right, then the cell one row down: the cell plus the
/// offsets [0, 0], [0, 0], [1, 0], [0, 1].
pub proof fn lemma_divergence_faces_offsets(pos: [u32; 2])
    requires
        pos[0] < i32::MAX,
        pos[1] < i32::MAX,
    ensures
        forall|m: int|
            0 <= m < 4 ==> {
                let f = #[trigger] divergence_faces_spec(pos)[m];
                &&& f[0] == pos[0] + (if m == 2 {
                    1int
                } else {
                    0int
                })
                &&& f[1] == pos[1] + (if m == 3 {
                    1int
                } else {
                    0int
                })
            },
        divergence_faces_spec(pos)[2] != divergence_faces_spec(pos)[0],
        divergence_faces_spec(pos)[3] != divergence_faces_spec(pos)[0],
        divergence_faces_spec(pos)[2] != divergence_faces_spec(pos)[3],
{
    assert forall|m: int| 0 <= m < 4 implies {
        let f = #[trigger] divergence_faces_spec(pos)[m];
        &&& f[0] == pos[0] + (if m == 2 {
            1int
        } else {
            0int
        })
        &&& f[1] == pos[1] + (if m == 3 {
            1int
        } else {
            0int
        })
    } by {
        if m == 0 {
        } else if m == 1 {
        } else if m == 2 {
        } else {
        }
    }
    assert(divergence_faces_spec(pos)[2][0] != divergence_faces_spec(pos)[0][0]);
    assert(divergence_faces_spec(pos)[3][1] != divergence_faces_spec(pos)[0][1]);
    assert(divergence_faces_spec(pos)[2][0] != divergence_faces_spec(pos)[3][0]);
}

/// The grid that indexes which particles lie in which cell.
#[derive(Debug)]
pub struct ParticleGrid(pub Grid<Cell>);

impl View for ParticleGrid {
    type V = GridView<Seq<usize>>;

    open spec fn view(&self) -> GridView<Seq<usize>> {
        members_view(self.0@)
    }
}

impl Default for ParticleGrid {
    fn default() -> (r: Self)
        ensures
            r@.cells.len() == 0,
    {
        ParticleGrid(Grid::default())
    }
}

impl ParticleGrid {
    /// An empty particle grid of the given size.
    pub fn new(size: [u32; 2]) -> (r: Self)
        requires
            size[0] * size[1] <= u32::MAX,
        ensures
            r@ == GridView::<Seq<usize>>::empty(size),
            r@.wf(),
    {
        let r = ParticleGrid(Grid::new(size));
        assert(r@.cells =~= GridView::<Seq<usize>>::empty(size).cells);
        r
    }

    /// Enters particle `particle_idx` into the cell at `grid_pos`, creating the cell
    /// when it is empty; nothing happens outside the grid.
    pub fn add_particle(&mut self, grid_pos: [u32; 2], particle_idx: usize)
        requires
            index_fits(old(self)@.size, grid_pos),
        ensures
            final(self)@ == old(self)@.enter(grid_pos, particle_idx),
    {
        let ghost g0 = self.0@;
        proof {
            lemma_members_set(g0, grid_pos, None);
        }
        if let Some(cell) = self.0.get_mut_filled(grid_pos) {
            cell.insert(particle_idx);
            proof {
                lemma_members_set(g0, grid_pos, Some(*cell));
            }
        } else {
            let mut items: Vec<usize> = Vec::new();
            items.push(particle_idx);
            let fresh = Cell(items);
            proof {
                lemma_members_set(g0, grid_pos, Some(fresh));
                assert(fresh@ =~= seq![particle_idx]);
            }
            self.0.insert(grid_pos, fresh);
        }
    }

    /// Moves particle `particle_idx` from the cell at `old_pos` to the cell at
    /// `new_pos`, removing the old cell when it is left empty. Returns whether the
    /// old cell was removed.
    pub fn move_particle_grid_pos(
        &mut self,
        old_pos: [u32; 2],
        new_pos: [u32; 2],
        particle_idx: usize,
    ) -> (r: bool)
        requires
            index_fits(old(self)@.size, old_pos),
            index_fits(old(self)@.size, new_pos),
        ensures
            final(self)@ == old(self)@.leave(old_pos, particle_idx).enter(new_pos, particle_idx),
            r == old(self)@.leave_empties(old_pos, particle_idx),
    {
        let ghost g0 = self.0@;
        proof {
            lemma_members_set(g0, old_pos, None);
        }
        let mut remove_old = false;
        if let Some(old_cell) = self.0.get_mut_filled(old_pos) {
            old_cell.remove(particle_idx);
            remove_old = old_cell.is_empty();
            proof {
                lemma_members_set(g0, old_pos, Some(*old_cell));
            }
        }
        let ghost g1 = self.0@;
        if remove_old {
            self.0.remove(old_pos);
            proof {
                lemma_members_set(g1, old_pos, None);
                assert(members_view(g1).remove(old_pos).cells =~= members_view(g0).remove(
                    old_pos,
                ).cells);
            }
        }
        self.add_particle(new_pos, particle_idx);
        remove_old
    }

    /// The velocity samples around cell `pos` that its divergence is made of, as the
    /// pressure solve visits them: the x sample and the y sample on the cell's own
    /// faces, then the x sample of the next column and the y sample of the next row.
    pub fn divergence_faces(pos: [u32; 2]) -> (r: [[u32; 2]; 4])
        requires
            pos[0] < i32::MAX,
            pos[1] < i32::MAX,
        ensures
            r == divergence_faces_spec(pos),
            r[0][0] == pos[0] && r[0][1] == pos[1],
            r[1][0] == pos[0] && r[1][1] == pos[1],
            r[2][0] == pos[0] + 1 && r[2][1] == pos[1],
            r[3][0] == pos[0] && r[3][1] == pos[1] + 1,
    {
        [[pos[0], pos[1]], [pos[0], pos[1]], [pos[0] + 1, pos[1]], [pos[0], pos[1] + 1]]
    }

    /// Whether `pos` lies in the first or last column or row of a grid of `size`.
    pub fn is_wall(size: [u32; 2], pos: [u32; 2]) -> (r: bool)
        requires
            size[0] >= 1,
            size[1] >= 1,
        ensures
            r == on_border(size, pos),
            r == (pos[0] == size[0] - 1 || pos[0] == 0 || pos[1] == size[1] - 1 || pos[1] == 0),
    {
        let is_x = pos[0] == (size[0] - 1) || pos[0] == 0;
        let is_y = pos[1] == (size[1] - 1) || pos[1] == 0;
        is_x || is_y
    }
}

} // verus!
