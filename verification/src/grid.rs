use vstd::prelude::*;

verus! {

/// The slot of `pos` in the row-major layout of a grid of `size`
/// (`size[0]` columns, `size[1]` rows), or `None` when `pos` lies outside.
pub open spec fn cell_index(size: [u32; 2], pos: [u32; 2]) -> Option<int> {
    if pos[0] < size[0] && pos[1] < size[1] {
        Some(pos[1] * size[0] + pos[0])
    } else {
        None
    }
}

/// The column of slot `index` in a grid that is `width` columns wide.
pub open spec fn column_of(width: u32, index: int) -> int {
    index % (width as int)
}

/// The row of slot `index` in a grid that is `width` columns wide.
pub open spec fn row_of(width: u32, index: int) -> int {
    index / (width as int)
}

/// Whether the slot number of `pos` can be computed in `u32` for a grid of `size`:
/// always true for a position outside the grid, whose slot is never computed.
pub open spec fn index_fits(size: [u32; 2], pos: [u32; 2]) -> bool {
    pos[0] < size[0] && pos[1] < size[1] ==> pos[1] * size[0] + pos[0] <= u32::MAX
}

/// Mathematical model of a grid: its cells in row-major order and its size.
pub struct GridView<T> {
    pub cells: Seq<Option<T>>,
    pub size: [u32; 2],
}

impl<T> GridView<T> {
    /// The slot that holds `pos`, if `pos` is inside the grid and the slot exists.
    pub open spec fn slot(self, pos: [u32; 2]) -> Option<int> {
        match cell_index(self.size, pos) {
            Some(i) => if i < self.cells.len() {
                Some(i)
            } else {
                None
            },
            None => None,
        }
    }

    /// What the grid holds at `pos`: `None` outside the grid or in an empty cell.
    pub open spec fn get(self, pos: [u32; 2]) -> Option<T> {
        match self.slot(pos) {
            Some(i) => self.cells[i],
            None => None,
        }
    }

    /// The grid with the cell at `pos` replaced by `cell`; unchanged when `pos` has no slot.
    pub open spec fn set(self, pos: [u32; 2], cell: Option<T>) -> GridView<T> {
        match self.slot(pos) {
            Some(i) => GridView { cells: self.cells.update(i, cell), size: self.size },
            None => self,
        }
    }

    /// Stores `value` at `pos`.
    pub open spec fn insert(self, pos: [u32; 2], value: T) -> GridView<T> {
        self.set(pos, Some(value))
    }

    /// Empties the cell at `pos`.
    pub open spec fn remove(self, pos: [u32; 2]) -> GridView<T> {
        self.set(pos, None)
    }

    /// Keeps the value at `pos`, or stores `insertion` there when the cell is empty.
    pub open spec fn fill(self, pos: [u32; 2], insertion: T) -> GridView<T> {
        match self.get(pos) {
            Some(v) => self,
            None => self.insert(pos, insertion),
        }
    }

    /// Every cell emptied, size kept.
    pub open spec fn cleared(self) -> GridView<T> {
        GridView { cells: Seq::new(self.cells.len(), |i: int| None), size: self.size }
    }

    /// An empty grid of the given size.
    pub open spec fn empty(size: [u32; 2]) -> GridView<T> {
        GridView { cells: Seq::new((size[0] * size[1]) as nat, |i: int| None), size }
    }

    /// One slot for each position of the grid, and a slot count that fits in `u32`.
    pub open spec fn wf(self) -> bool {
        &&& self.cells.len() == self.size[0] * self.size[1]
        &&& self.size[0] * self.size[1] <= u32::MAX
    }
}

/// Reading back a slot number gives the position it came from: the column is the
/// slot modulo the width, the row the slot divided by the width.
pub proof fn lemma_index_then_pos(size: [u32; 2], pos: [u32; 2])
    requires
        cell_index(size, pos) is Some,
    ensures
        column_of(size[0], cell_index(size, pos)->0) == pos[0],
        row_of(size[0], cell_index(size, pos)->0) == pos[1],
{
    let i = pos[1] * size[0] + pos[0];
    vstd::arithmetic::div_mod::lemma_fundamental_div_mod_converse(
        i,
        size[0] as int,
        pos[1] as int,
        pos[0] as int,
    );
}

/// Every slot of a grid is the slot of the position that `pos` computes for it.
pub proof fn lemma_pos_then_index(size: [u32; 2], index: int)
    requires
        0 <= index < size[0] * size[1],
    ensures
        size[0] > 0,
        0 <= column_of(size[0], index) < size[0],
        0 <= row_of(size[0], index) < size[1],
        cell_index(size, [column_of(size[0], index) as u32, row_of(size[0], index) as u32])
            == Some(index),
{
    let w = size[0] as int;
    let h = size[1] as int;
    if w == 0 {
        assert(w * h == 0);
    }
    vstd::arithmetic::div_mod::lemma_fundamental_div_mod(index, w);
    vstd::arithmetic::div_mod::lemma_mod_pos_bound(index, w);
    let c = index % w;
    let r = index / w;
    assert(r < h) by {
        if r >= h {
            assert(r * w >= h * w) by (nonlinear_arith)
                requires r >= h, w > 0;
            assert(w * r == r * w) by (nonlinear_arith);
            assert(w * h == h * w) by (nonlinear_arith);
        }
    }
    assert(r >= 0) by {
        vstd::arithmetic::div_mod::lemma_div_pos_is_pos(index, w);
    }
    assert(w * r == r * w) by (nonlinear_arith);
}

/// Distinct positions inside a grid occupy distinct slots.
pub proof fn lemma_cell_index_injective(size: [u32; 2], p: [u32; 2], q: [u32; 2])
    requires
        cell_index(size, p) is Some,
        cell_index(size, q) is Some,
        cell_index(size, p) == cell_index(size, q),
    ensures
        p == q,
{
    lemma_index_then_pos(size, p);
    lemma_index_then_pos(size, q);
}

impl<T> GridView<T> {
    /// In a well-formed grid every position inside has a slot, and its slot
    /// number fits in `u32`.
    pub proof fn lemma_wf_slot(self, pos: [u32; 2])
        requires
            self.wf(),
        ensures
            index_fits(self.size, pos),
            self.slot(pos) == cell_index(self.size, pos),
    {
        if pos[0] < self.size[0] && pos[1] < self.size[1] {
            let w = self.size[0] as int;
            let h = self.size[1] as int;
            let x = pos[0] as int;
            let y = pos[1] as int;
            assert(y * w + x < h * w) by (nonlinear_arith)
                requires 0 <= x < w, 0 <= y < h;
            assert(h * w == w * h) by (nonlinear_arith);
        }
    }

    /// What a write at `p` does to a read at `q`: a read at the written position
    /// gives the written cell, a read anywhere else is unchanged.
    pub proof fn lemma_get_set(self, p: [u32; 2], q: [u32; 2], cell: Option<T>)
        ensures
            self.set(p, cell).get(q) == if self.slot(p) is Some && q == p {
                cell
            } else {
                self.get(q)
            },
    {
        if self.slot(p) is Some && self.slot(q) is Some && self.slot(p) == self.slot(q) {
            lemma_cell_index_injective(self.size, p, q);
        }
    }

    /// Filling keeps a stored value and otherwise stores the insertion, inside the
    /// grid; nothing else changes.
    pub proof fn lemma_get_fill(self, p: [u32; 2], q: [u32; 2], insertion: T)
        ensures
            self.fill(p, insertion).get(q) == if self.slot(p) is Some && q == p {
                if self.get(p) is Some {
                    self.get(p)
                } else {
                    Some(insertion)
                }
            } else {
                self.get(q)
            },
    {
        self.lemma_get_set(p, q, Some(insertion));
    }

    /// A read after an insert at the same position gives the inserted value.
    pub proof fn lemma_get_insert(self, pos: [u32; 2], value: T)
        requires
            self.slot(pos) is Some,
        ensures
            self.insert(pos, value).get(pos) == Some(value),
    {
        self.lemma_get_set(pos, pos, Some(value));
    }

    /// A read after a remove at the same position finds nothing.
    pub proof fn lemma_get_remove(self, pos: [u32; 2])
        ensures
            self.remove(pos).get(pos) is None,
    {
        self.lemma_get_set(pos, pos, None);
    }

    /// A cleared grid holds nothing anywhere and keeps its size.
    pub proof fn lemma_cleared_get(self, pos: [u32; 2])
        ensures
            self.cleared().get(pos) is None,
            self.cleared().size == self.size,
            self.cleared().cells.len() == self.cells.len(),
    {
    }

    /// A new grid is well formed and holds nothing anywhere.
    pub proof fn lemma_empty_get(size: [u32; 2], pos: [u32; 2])
        requires
            size[0] * size[1] <= u32::MAX,
        ensures
            GridView::<T>::empty(size).wf(),
            GridView::<T>::empty(size).get(pos) is None,
    {
    }
}

/// A rectangular grid of optional values, stored row by row.
#[derive(Debug)]
pub struct Grid<T>(pub Vec<Option<T>>, pub [u32; 2]);

impl<T> View for Grid<T> {
    type V = GridView<T>;

    open spec fn view(&self) -> GridView<T> {
        GridView { cells: self.0@, size: self.1 }
    }
}

impl<T> Default for Grid<T> {
    fn default() -> (r: Self)
        ensures
            r@.cells.len() == 0,
            r@.size[0] == 0,
            r@.size[1] == 0,
    {
        Grid(Vec::new(), [0, 0])
    }
}

impl<T> Grid<T> {
    /// An empty grid with `size[0]` columns and `size[1]` rows.
    pub fn new(size: [u32; 2]) -> (r: Self)
        requires
            size[0] * size[1] <= u32::MAX,
        ensures
            r@ == GridView::<T>::empty(size),
            r@.wf(),
    {
        let n: u32 = size[0] * size[1];
        let mut items: Vec<Option<T>> = Vec::new();
        let mut k: u32 = 0;
        while k < n
            invariant
                k <= n,
                items@ == Seq::new(k as nat, |i: int| None::<T>),
            decreases n - k,
        {
            items.push(None);
            k = k + 1;
        }
        let r = Grid(items, size);
        assert(r@.cells =~= GridView::<T>::empty(size).cells);
        r
    }

    /// The position `[column, row]` of slot `index`; the index is taken modulo 2^32 first.
    pub fn pos(&self, index: usize) -> (r: [u32; 2])
        requires
            self.1[0] > 0,
        ensures
            r[0] == column_of(self.1[0], (index as u32) as int),
            r[1] == row_of(self.1[0], (index as u32) as int),
            r[0] == (index as u32) % self.1[0],
            r[1] == (index as u32) / self.1[0],
    {
        let i: u32 = index as u32;
        [i % self.1[0], i / self.1[0]]
    }

    /// The slot of `pos`, or `None` when `pos` lies outside the grid.
    pub fn index(&self, pos: [u32; 2]) -> (r: Option<usize>)
        requires
            index_fits(self.1, pos),
        ensures
            r is Some <==> cell_index(self.1, pos) is Some,
            r matches Some(i) ==> cell_index(self.1, pos) == Some(i as int),
            r is Some <==> pos[0] < self.1[0] && pos[1] < self.1[1],
            r matches Some(i) ==> i == pos[1] * self.1[0] + pos[0],
    {
        if pos[0] >= self.1[0] {
            return None;
        }
        if pos[1] >= self.1[1] {
            return None;
        }
        Some((pos[1] * self.1[0] + pos[0]) as usize)
    }

    /// The value stored at `pos`, if any.
    pub fn get(&self, pos: [u32; 2]) -> (r: Option<&T>)
        requires
            index_fits(self.1, pos),
        ensures
            match r {
                Some(v) => self@.get(pos) == Some(*v),
                None => self@.get(pos) is None,
            },
    {
        let i = self.index(pos)?;
        if i < self.0.len() {
            match &self.0[i] {
                Some(v) => Some(v),
                None => None,
            }
        } else {
            None
        }
    }

    /// A mutable reference to the cell at `pos`, if `pos` has a slot.
    pub fn get_mut(&mut self, pos: [u32; 2]) -> (r: Option<&mut Option<T>>)
        requires
            index_fits(old(self).1, pos),
        ensures
            r is Some <==> old(self)@.slot(pos) is Some,
            r is None ==> final(self)@ == old(self)@,
            r matches Some(c) ==> {
                &&& *c == old(self)@.get(pos)
                &&& final(self)@ == old(self)@.set(pos, *final(c))
            },
    {
        let i = self.index(pos)?;
        if i < self.0.len() {
            Some(&mut self.0[i])
        } else {
            None
        }
    }

    /// A mutable reference to the value at `pos`, if that cell holds one.
    pub fn get_mut_filled(&mut self, pos: [u32; 2]) -> (r: Option<&mut T>)
        requires
            index_fits(old(self).1, pos),
        ensures
            r is Some <==> old(self)@.get(pos) is Some,
            r is None ==> final(self)@ == old(self)@,
            r matches Some(v) ==> {
                &&& old(self)@.get(pos) == Some(*v)
                &&& final(self)@ == old(self)@.insert(pos, *final(v))
            },
    {
        match self.get_mut(pos) {
            Some(cell) => match cell {
                Some(v) => Some(v),
                None => {
                    assert(old(self)@.cells.update(old(self)@.slot(pos)->0, None) =~= old(self)@.cells);
                    None
                },
            },
            None => None,
        }
    }

    /// Empties the cell at `pos`; nothing happens outside the grid.
    pub fn remove(&mut self, pos: [u32; 2])
        requires
            index_fits(old(self).1, pos),
        ensures
            final(self)@ == old(self)@.remove(pos),
    {
        if let Some(cell) = self.get_mut(pos) {
            *cell = None;
        }
    }

    /// Stores `value` at `pos`; nothing happens outside the grid.
    pub fn insert(&mut self, pos: [u32; 2], value: T)
        requires
            index_fits(old(self).1, pos),
        ensures
            final(self)@ == old(self)@.insert(pos, value),
    {
        if let Some(cell) = self.get_mut(pos) {
            *cell = Some(value);
        }
    }

    /// Fills an empty cell at `pos` with `insertion`, then hands out the value
    /// stored there; `None` when `pos` has no slot.
    pub fn modify_or_insert(&mut self, pos: [u32; 2], insertion: T) -> (r: Option<&mut T>)
        requires
            index_fits(old(self).1, pos),
        ensures
            r is Some <==> old(self)@.slot(pos) is Some,
            r is None ==> final(self)@ == old(self)@,
            r matches Some(v) ==> {
                &&& old(self)@.fill(pos, insertion).get(pos) == Some(*v)
                &&& final(self)@ == old(self)@.insert(pos, *final(v))
            },
    {
        let cell = self.get_mut(pos)?;
        if cell.is_none() {
            *cell = Some(insertion);
        }
        match cell {
            Some(v) => Some(v),
            None => None,
        }
    }

    /// Empties every cell.
    pub fn clear(&mut self)
        ensures
            final(self)@ == old(self)@.cleared(),
    {
        let n = self.0.len();
        let mut k: usize = 0;
        while k < n
            invariant
                k <= n,
                n == self.0@.len(),
                n == old(self).0@.len(),
                self.1 == old(self).1,
                forall|i: int| 0 <= i < k ==> self.0@[i] is None,
            decreases n - k,
        {
            self.0[k] = None;
            k = k + 1;
        }
        assert(self@.cells =~= old(self)@.cleared().cells);
    }
}

} // verus!
