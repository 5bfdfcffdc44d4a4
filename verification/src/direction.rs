use vstd::prelude::*;

use crate::grid::{index_fits, GridView};
use crate::particle_grid::ParticleGrid;

verus! {

/// An axis of the plane; `INDEX` selects the component of a position or velocity.
pub trait PosDirection {
    const INDEX: usize;
}

/// The horizontal axis.
#[derive(Clone, Copy, Debug)]
pub struct X;

impl PosDirection for X {
    const INDEX: usize = 0;
}

impl Default for X {
    fn default() -> (r: Self) {
        X
    }
}

/// The vertical axis.
#[derive(Clone, Copy, Debug)]
pub struct Y;

impl PosDirection for Y {
    const INDEX: usize = 1;
}

impl Default for Y {
    fn default() -> (r: Self) {
        Y
    }
}

/// The cells on both sides of a velocity sample on a staggered grid.
pub trait DefinedPositionsRetrivable {
    /// The two particle cells that share the face of sample `vel_pos`: the cell of
    /// the same position and its neighbour before it along the axis; `None` for a
    /// sample on the first face, which has no neighbour before it.
    spec fn defined_positions_spec(vel_pos: [u32; 2]) -> Option<[[u32; 2]; 2]>;

    fn defined_positions(vel_pos: &[u32; 2]) -> (r: Option<[[u32; 2]; 2]>)
        ensures
            r == Self::defined_positions_spec(*vel_pos),
    ;
}

impl DefinedPositionsRetrivable for X {
    open spec fn defined_positions_spec(vel_pos: [u32; 2]) -> Option<[[u32; 2]; 2]> {
        if vel_pos[0] == 0 {
            None
        } else {
            Some([vel_pos, [(vel_pos[0] - 1) as u32, vel_pos[1]]])
        }
    }

    fn defined_positions(vel_pos: &[u32; 2]) -> (r: Option<[[u32; 2]; 2]>) {
        if vel_pos[0] == 0 {
            return None;
        }
        Some([*vel_pos, [vel_pos[0] - 1, vel_pos[1]]])
    }
}

impl DefinedPositionsRetrivable for Y {
    open spec fn defined_positions_spec(vel_pos: [u32; 2]) -> Option<[[u32; 2]; 2]> {
        if vel_pos[1] == 0 {
            None
        } else {
            Some([vel_pos, [vel_pos[0], (vel_pos[1] - 1) as u32]])
        }
    }

    fn defined_positions(vel_pos: &[u32; 2]) -> (r: Option<[[u32; 2]; 2]>) {
        if vel_pos[1] == 0 {
            return None;
        }
        Some([*vel_pos, [vel_pos[0], vel_pos[1] - 1]])
    }
}

/// A stored cell at `pos` that holds no particle.
pub open spec fn is_air(g: GridView<Seq<usize>>, pos: [u32; 2]) -> bool {
    g.get(pos) matches Some(c) && c.len() == 0
}

/// Whether the velocity sample at `vel_pos` takes part in the transfer: unless one
/// of the cells it borders (or, on the first face, its own cell) is a stored
/// empty cell.
pub open spec fn position_defined<P: DefinedPositionsRetrivable>(
    g: GridView<Seq<usize>>,
    vel_pos: [u32; 2],
) -> bool {
    match P::defined_positions_spec(vel_pos) {
        None => !is_air(g, vel_pos),
        Some(ps) => !is_air(g, ps[0]) || !is_air(g, ps[1]),
    }
}

/// The slot numbers that deciding `position_defined` computes fit in `u32`.
pub open spec fn defined_check_fits<P: DefinedPositionsRetrivable>(
    size: [u32; 2],
    vel_pos: [u32; 2],
) -> bool {
    match P::defined_positions_spec(vel_pos) {
        None => index_fits(size, vel_pos),
        Some(ps) => index_fits(size, ps[0]) && index_fits(size, ps[1]),
    }
}

/// Whether the cell at `pos` is a stored cell without particles.
fn cell_is_air(particle_grid: &ParticleGrid, pos: [u32; 2]) -> (r: bool)
    requires
        index_fits(particle_grid@.size, pos),
    ensures
        r == is_air(particle_grid@, pos),
{
    proof {
        crate::particle_grid::lemma_members_get(particle_grid.0@, pos);
    }
    match particle_grid.0.get(pos) {
        Some(cell) => cell.is_empty(),
        None => false,
    }
}

/// Whether the velocity sample at `vel_pos` is defined by the particles around it.
pub fn is_position_defined<P: DefinedPositionsRetrivable>(
    vel_pos: &[u32; 2],
    particle_grid: &ParticleGrid,
) -> (r: bool)
    requires
        defined_check_fits::<P>(particle_grid@.size, *vel_pos),
    ensures
        r == position_defined::<P>(particle_grid@, *vel_pos),
{
    let Some(positions_to_check_for) = P::defined_positions(vel_pos) else {
        return !cell_is_air(particle_grid, *vel_pos);
    };
    let mut out = false;
    let mut k: usize = 0;
    while k < 2
        invariant
            k <= 2,
            P::defined_positions_spec(*vel_pos) == Some(positions_to_check_for),
            defined_check_fits::<P>(particle_grid@.size, *vel_pos),
            out == exists|m: int| 0 <= m < k && !is_air(particle_grid@, #[trigger] positions_to_check_for[m]),
        decreases 2 - k,
    {
        let is_air = cell_is_air(particle_grid, positions_to_check_for[k]);
        out = out || !is_air;
        k = k + 1;
    }
    assert(out == (!is_air(particle_grid@, positions_to_check_for[0]) || !is_air(
        particle_grid@,
        positions_to_check_for[1],
    )));
    out
}

/// A grid whose stored cells all hold a particle defines every velocity sample:
/// no cell there is air.
pub proof fn lemma_all_positions_defined<P: DefinedPositionsRetrivable>(
    g: GridView<Seq<usize>>,
    vel_pos: [u32; 2],
)
    requires
        g.no_empty_cells(),
    ensures
        position_defined::<P>(g, vel_pos),
{
    match P::defined_positions_spec(vel_pos) {
        None => {
            if is_air(g, vel_pos) {
                assert(g.cells[g.slot(vel_pos)->0] matches Some(c) ==> c.len() > 0);
            }
        },
        Some(ps) => {
            if is_air(g, ps[0]) {
                assert(g.cells[g.slot(ps[0])->0] matches Some(c) ==> c.len() > 0);
            }
        },
    }
}

/// The four grid positions around a point whose cell is `grid_pos`: the cell itself,
/// the next one along x, the next one along y, and the diagonal one.
pub open spec fn corners_spec(grid_pos: [u32; 2]) -> [[u32; 2]; 4] {
    [
        [grid_pos[0], grid_pos[1]],
        [(grid_pos[0] + 1) as u32, grid_pos[1]],
        [grid_pos[0], (grid_pos[1] + 1) as u32],
        [(grid_pos[0] + 1) as u32, (grid_pos[1] + 1) as u32],
    ]
}

/// The four grid positions whose samples a point in cell `grid_pos` is interpolated from.
pub fn cell_corners(grid_pos: [u32; 2]) -> (r: [[u32; 2]; 4])
    requires
        grid_pos[0] < u32::MAX,
        grid_pos[1] < u32::MAX,
    ensures
        r == corners_spec(grid_pos),
        r[0][0] == grid_pos[0] && r[0][1] == grid_pos[1],
        r[1][0] == grid_pos[0] + 1 && r[1][1] == grid_pos[1],
        r[2][0] == grid_pos[0] && r[2][1] == grid_pos[1] + 1,
        r[3][0] == grid_pos[0] + 1 && r[3][1] == grid_pos[1] + 1,
{
    [
        [grid_pos[0], grid_pos[1]],
        [grid_pos[0] + 1, grid_pos[1]],
        [grid_pos[0], grid_pos[1] + 1],
        [grid_pos[0] + 1, grid_pos[1] + 1],
    ]
}

/// The corners of a cell are the cell plus the offsets [0, 0], [1, 0], [0, 1], [1, 1],
/// in that order; in particular they are four distinct positions.
pub proof fn lemma_corners_offsets(grid_pos: [u32; 2])
    requires
        grid_pos[0] < u32::MAX,
        grid_pos[1] < u32::MAX,
    ensures
        forall|m: int|
            0 <= m < 4 ==> {
                let c = #[trigger] corners_spec(grid_pos)[m];
                &&& c[0] == grid_pos[0] + m % 2
                &&& c[1] == grid_pos[1] + m / 2
            },
        forall|m: int, n: int|
            0 <= m < 4 && 0 <= n < 4 && m != n ==> #[trigger] corners_spec(grid_pos)[m]
                != #[trigger] corners_spec(grid_pos)[n],
{
    let c = corners_spec(grid_pos);
    assert forall|m: int| 0 <= m < 4 implies {
        let cm = #[trigger] corners_spec(grid_pos)[m];
        &&& cm[0] == grid_pos[0] + m % 2
        &&& cm[1] == grid_pos[1] + m / 2
    } by {
        if m == 0 {
        } else if m == 1 {
        } else if m == 2 {
        } else {
        }
    }
    assert forall|m: int, n: int|
        0 <= m < 4 && 0 <= n < 4 && m != n implies #[trigger] corners_spec(grid_pos)[m]
            != #[trigger] corners_spec(grid_pos)[n] by {
        let cm = corners_spec(grid_pos)[m];
        let cn = corners_spec(grid_pos)[n];
        assert(cm[0] == grid_pos[0] + m % 2 && cm[1] == grid_pos[1] + m / 2);
        assert(cn[0] == grid_pos[0] + n % 2 && cn[1] == grid_pos[1] + n / 2);
        assert(m % 2 != n % 2 || m / 2 != n / 2);
    }
}

/// An x sample looks back one column: it has no neighbour before it exactly on the
/// first column, and otherwise borders its own cell and the cell to its left.
pub proof fn lemma_x_defined_positions(vel_pos: [u32; 2])
    ensures
        X::defined_positions_spec(vel_pos) is None <==> vel_pos[0] == 0,
        X::defined_positions_spec(vel_pos) matches Some(ps) ==> {
            &&& ps[0][0] == vel_pos[0] && ps[0][1] == vel_pos[1]
            &&& ps[1][0] + 1 == vel_pos[0] && ps[1][1] == vel_pos[1]
        },
{
}

/// A y sample looks back one row: it has no neighbour before it exactly on the
/// first row, and otherwise borders its own cell and the cell above it.
pub proof fn lemma_y_defined_positions(vel_pos: [u32; 2])
    ensures
        Y::defined_positions_spec(vel_pos) is None <==> vel_pos[1] == 0,
        Y::defined_positions_spec(vel_pos) matches Some(ps) ==> {
            &&& ps[0][0] == vel_pos[0] && ps[0][1] == vel_pos[1]
            &&& ps[1][0] == vel_pos[0] && ps[1][1] + 1 == vel_pos[1]
        },
{
}

/// An x sample past the first column is undefined exactly when both its own cell
/// and the cell to its left are stored and hold no particle; on the first column
/// exactly when its own cell is stored and holds none.
pub proof fn lemma_x_sample_defined(g: GridView<Seq<usize>>, vel_pos: [u32; 2])
    ensures
        vel_pos[0] > 0 ==> (!position_defined::<X>(g, vel_pos) <==> (g.get(vel_pos) == Some(
            Seq::<usize>::empty(),
        ) && g.get([(vel_pos[0] - 1) as u32, vel_pos[1]]) == Some(Seq::<usize>::empty()))),
        vel_pos[0] == 0 ==> (!position_defined::<X>(g, vel_pos) <==> g.get(vel_pos) == Some(
            Seq::<usize>::empty(),
        )),
{
    let left: [u32; 2] = [(vel_pos[0] - 1) as u32, vel_pos[1]];
    if let Some(c) = g.get(vel_pos) {
        if c.len() == 0 {
            assert(c =~= Seq::<usize>::empty());
        }
    }
    if vel_pos[0] > 0 {
        assert(X::defined_positions_spec(vel_pos) == Some([vel_pos, left]));
        if let Some(c) = g.get(left) {
            if c.len() == 0 {
                assert(c =~= Seq::<usize>::empty());
            }
        }
    }
}

/// A y sample past the first row is undefined exactly when both its own cell and
/// the cell above it are stored and hold no particle; on the first row exactly when
/// its own cell is stored and holds none.
pub proof fn lemma_y_sample_defined(g: GridView<Seq<usize>>, vel_pos: [u32; 2])
    ensures
        vel_pos[1] > 0 ==> (!position_defined::<Y>(g, vel_pos) <==> (g.get(vel_pos) == Some(
            Seq::<usize>::empty(),
        ) && g.get([vel_pos[0], (vel_pos[1] - 1) as u32]) == Some(Seq::<usize>::empty()))),
        vel_pos[1] == 0 ==> (!position_defined::<Y>(g, vel_pos) <==> g.get(vel_pos) == Some(
            Seq::<usize>::empty(),
        )),
{
    let up: [u32; 2] = [vel_pos[0], (vel_pos[1] - 1) as u32];
    if let Some(c) = g.get(vel_pos) {
        if c.len() == 0 {
            assert(c =~= Seq::<usize>::empty());
        }
    }
    if vel_pos[1] > 0 {
        assert(Y::defined_positions_spec(vel_pos) == Some([vel_pos, up]));
        if let Some(c) = g.get(up) {
            if c.len() == 0 {
                assert(c =~= Seq::<usize>::empty());
            }
        }
    }
}

/// `pos` alone when its sample is defined, nothing otherwise.
pub open spec fn keep_defined<P: DefinedPositionsRetrivable>(
    g: GridView<Seq<usize>>,
    pos: [u32; 2],
) -> Seq<[u32; 2]> {
    if position_defined::<P>(g, pos) {
        seq![pos]
    } else {
        Seq::empty()
    }
}

/// The corners of `grid_pos` whose samples are defined, in corner order.
pub open spec fn defined_corners_spec<P: DefinedPositionsRetrivable>(
    g: GridView<Seq<usize>>,
    grid_pos: [u32; 2],
) -> Seq<[u32; 2]> {
    let c = corners_spec(grid_pos);
    keep_defined::<P>(g, c[0]) + keep_defined::<P>(g, c[1]) + keep_defined::<P>(g, c[2])
        + keep_defined::<P>(g, c[3])
}

/// The corners of cell `grid_pos` that receive a particle's velocity along the
/// axis `P`: those whose samples are defined, in corner order.
pub fn defined_corners<P: DefinedPositionsRetrivable>(
    grid_pos: [u32; 2],
    particle_grid: &ParticleGrid,
) -> (r: Vec<[u32; 2]>)
    requires
        grid_pos[0] < u32::MAX,
        grid_pos[1] < u32::MAX,
        forall|m: int|
            0 <= m < 4 ==> defined_check_fits::<P>(
                particle_grid@.size,
                #[trigger] corners_spec(grid_pos)[m],
            ),
    ensures
        r@ == defined_corners_spec::<P>(particle_grid@, grid_pos),
{
    let corners = cell_corners(grid_pos);
    let mut out: Vec<[u32; 2]> = Vec::new();
    let mut k: usize = 0;
    while k < 4
        invariant
            k <= 4,
            corners == corners_spec(grid_pos),
            forall|m: int|
                0 <= m < 4 ==> defined_check_fits::<P>(
                    particle_grid@.size,
                    #[trigger] corners_spec(grid_pos)[m],
                ),
            out@ == if k == 0 {
                Seq::empty()
            } else if k == 1 {
                keep_defined::<P>(particle_grid@, corners[0])
            } else if k == 2 {
                keep_defined::<P>(particle_grid@, corners[0]) + keep_defined::<P>(
                    particle_grid@,
                    corners[1],
                )
            } else if k == 3 {
                keep_defined::<P>(particle_grid@, corners[0]) + keep_defined::<P>(
                    particle_grid@,
                    corners[1],
                ) + keep_defined::<P>(particle_grid@, corners[2])
            } else {
                defined_corners_spec::<P>(particle_grid@, grid_pos)
            },
        decreases 4 - k,
    {
        let corner = corners[k];
        assert(defined_check_fits::<P>(particle_grid@.size, corners_spec(grid_pos)[k as int]));
        if is_position_defined::<P>(&corner, particle_grid) {
            out.push(corner);
        }
        k = k + 1;
    }
    out
}

/// The corners that receive a velocity are exactly the defined ones among the four
/// corners of the cell: a position is listed exactly when it is one of the corners and
/// its sample is defined.
pub proof fn lemma_defined_corners_members<P: DefinedPositionsRetrivable>(
    g: GridView<Seq<usize>>,
    grid_pos: [u32; 2],
    q: [u32; 2],
)
    ensures
        defined_corners_spec::<P>(g, grid_pos).contains(q) <==> (position_defined::<P>(g, q)
            && (q == corners_spec(grid_pos)[0] || q == corners_spec(grid_pos)[1] || q
            == corners_spec(grid_pos)[2] || q == corners_spec(grid_pos)[3])),
        defined_corners_spec::<P>(g, grid_pos).len() <= 4,
{
    let c = corners_spec(grid_pos);
    let k0 = keep_defined::<P>(g, c[0]);
    let k1 = keep_defined::<P>(g, c[1]);
    let k2 = keep_defined::<P>(g, c[2]);
    let k3 = keep_defined::<P>(g, c[3]);
    crate::collisions::lemma_concat_contains(k0, k1, q);
    crate::collisions::lemma_concat_contains(k0 + k1, k2, q);
    crate::collisions::lemma_concat_contains(k0 + k1 + k2, k3, q);
    if position_defined::<P>(g, c[0]) {
        assert(k0[0] == c[0]);
    }
    if position_defined::<P>(g, c[1]) {
        assert(k1[0] == c[1]);
    }
    if position_defined::<P>(g, c[2]) {
        assert(k2[0] == c[2]);
    }
    if position_defined::<P>(g, c[3]) {
        assert(k3[0] == c[3]);
    }
}

/// The place of `q` among the corners of `grid_pos` (3 for anything that is not
/// one of the first three).
pub open spec fn corner_rank(grid_pos: [u32; 2], q: [u32; 2]) -> int {
    let c = corners_spec(grid_pos);
    if q == c[0] {
        0
    } else if q == c[1] {
        1
    } else if q == c[2] {
        2
    } else {
        3
    }
}

/// The corners that receive a velocity keep the corner order: a corner listed
/// before another comes before it among the four corners.
pub proof fn lemma_defined_corners_in_order<P: DefinedPositionsRetrivable>(
    g: GridView<Seq<usize>>,
    grid_pos: [u32; 2],
)
    requires
        grid_pos[0] < u32::MAX,
        grid_pos[1] < u32::MAX,
    ensures
        forall|i: int, j: int|
            0 <= i < j < defined_corners_spec::<P>(g, grid_pos).len() ==> corner_rank(
                grid_pos,
                #[trigger] defined_corners_spec::<P>(g, grid_pos)[i],
            ) < corner_rank(grid_pos, #[trigger] defined_corners_spec::<P>(g, grid_pos)[j]),
{
    let c = corners_spec(grid_pos);
    lemma_corners_offsets(grid_pos);
    assert(c[0] != c[1] && c[0] != c[2] && c[0] != c[3] && c[1] != c[2] && c[1] != c[3] && c[2]
        != c[3]) by {
        assert(c[0][0] != c[1][0]);
        assert(c[0][1] != c[2][1]);
        assert(c[0][0] != c[3][0]);
        assert(c[1][1] != c[2][1]);
        assert(c[1][1] != c[3][1]);
        assert(c[2][0] != c[3][0]);
    }
    let r = defined_corners_spec::<P>(g, grid_pos);
    let d0 = position_defined::<P>(g, c[0]);
    let d1 = position_defined::<P>(g, c[1]);
    let d2 = position_defined::<P>(g, c[2]);
    let d3 = position_defined::<P>(g, c[3]);
    let ranks: Seq<int> = (if d0 {
        seq![0int]
    } else {
        Seq::empty()
    }) + (if d1 {
        seq![1int]
    } else {
        Seq::empty()
    }) + (if d2 {
        seq![2int]
    } else {
        Seq::empty()
    }) + (if d3 {
        seq![3int]
    } else {
        Seq::empty()
    });
    assert(r.len() == ranks.len());
    assert forall|i: int| 0 <= i < r.len() implies corner_rank(grid_pos, r[i]) == ranks[i]
        && 0 <= ranks[i] < 4 && r[i] == c[ranks[i]] by {
        let n0: int = if d0 {
            1
        } else {
            0
        };
        let n1: int = n0 + if d1 {
            1int
        } else {
            0int
        };
        let n2: int = n1 + if d2 {
            1int
        } else {
            0int
        };
        if i < n0 {
            assert(r[i] == c[0] && ranks[i] == 0);
        } else if i < n1 {
            assert(r[i] == c[1] && ranks[i] == 1);
        } else if i < n2 {
            assert(r[i] == c[2] && ranks[i] == 2);
        } else {
            assert(r[i] == c[3] && ranks[i] == 3);
        }
    }
    assert forall|i: int, j: int| 0 <= i < j < ranks.len() implies ranks[i] < ranks[j] by {
        let n0: int = if d0 {
            1
        } else {
            0
        };
        let n1: int = n0 + if d1 {
            1int
        } else {
            0int
        };
        let n2: int = n1 + if d2 {
            1int
        } else {
            0int
        };
        assert(i < n0 ==> ranks[i] == 0);
        assert(n0 <= i < n1 ==> ranks[i] == 1);
        assert(n1 <= i < n2 ==> ranks[i] == 2);
        assert(n2 <= i ==> ranks[i] == 3);
        assert(j < n0 ==> ranks[j] == 0);
        assert(n0 <= j < n1 ==> ranks[j] == 1);
        assert(n1 <= j < n2 ==> ranks[j] == 2);
        assert(n2 <= j ==> ranks[j] == 3);
    }
    assert forall|i: int, j: int|
        0 <= i < j < r.len() implies corner_rank(grid_pos, #[trigger] r[i]) < corner_rank(
        grid_pos,
        #[trigger] r[j],
    ) by {
        assert(corner_rank(grid_pos, r[i]) == ranks[i]);
        assert(corner_rank(grid_pos, r[j]) == ranks[j]);
    }
}

/// Where no stored cell is empty, every corner is defined: a particle's velocity
/// goes to all four corners.
pub proof fn lemma_all_corners_defined<P: DefinedPositionsRetrivable>(
    g: GridView<Seq<usize>>,
    grid_pos: [u32; 2],
)
    requires
        g.no_empty_cells(),
    ensures
        defined_corners_spec::<P>(g, grid_pos) == seq![
            corners_spec(grid_pos)[0],
            corners_spec(grid_pos)[1],
            corners_spec(grid_pos)[2],
            corners_spec(grid_pos)[3],
        ],
{
    let c = corners_spec(grid_pos);
    lemma_all_positions_defined::<P>(g, c[0]);
    lemma_all_positions_defined::<P>(g, c[1]);
    lemma_all_positions_defined::<P>(g, c[2]);
    lemma_all_positions_defined::<P>(g, c[3]);
    assert(defined_corners_spec::<P>(g, grid_pos) =~= seq![c[0], c[1], c[2], c[3]]);
}

} // verus!
