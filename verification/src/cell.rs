use vstd::prelude::*;

verus! {

/// The position of the last occurrence of `key` in `s`, if any.
pub open spec fn last_occurrence(s: Seq<usize>, key: usize) -> Option<int>
    decreases s.len(),
{
    if s.len() == 0 {
        None
    } else if s.last() == key {
        Some(s.len() - 1)
    } else {
        last_occurrence(s.drop_last(), key)
    }
}

/// `s` without the last occurrence of `key`; `s` itself when `key` does not occur.
pub open spec fn remove_last(s: Seq<usize>, key: usize) -> Seq<usize> {
    match last_occurrence(s, key) {
        Some(j) => s.remove(j),
        None => s,
    }
}

/// `last_occurrence` finds `key` exactly when `key` occurs, at a position that holds
/// `key`, after which `key` does not occur again.
pub proof fn lemma_last_occurrence(s: Seq<usize>, key: usize)
    ensures
        last_occurrence(s, key) is Some <==> s.contains(key),
        last_occurrence(s, key) matches Some(j) ==> {
            &&& 0 <= j < s.len()
            &&& s[j] == key
            &&& forall|k: int| j < k < s.len() ==> s[k] != key
        },
    decreases s.len(),
{
    if s.len() > 0 {
        lemma_last_occurrence(s.drop_last(), key);
        if s.last() != key {
            if s.contains(key) {
                let k = choose|k: int| 0 <= k < s.len() && s[k] == key;
                assert(s.drop_last()[k] == key);
            }
            if s.drop_last().contains(key) {
                let k = choose|k: int| 0 <= k < s.drop_last().len() && s.drop_last()[k] == key;
                assert(s[k] == key);
            }
            assert forall|k: int| 0 <= k < s.len() - 1 implies #[trigger] s[k] == s.drop_last()[k] by {}
        }
    }
}

/// Removing the last occurrence of `key` takes exactly one `key` away, when there is
/// one, and leaves every other element's count alone.
pub proof fn lemma_remove_last_counts(s: Seq<usize>, key: usize)
    ensures
        remove_last(s, key).to_multiset() == if s.contains(key) {
            s.to_multiset().remove(key)
        } else {
            s.to_multiset()
        },
        remove_last(s, key).len() == if s.contains(key) {
            s.len() - 1
        } else {
            s.len() as int
        },
{
    broadcast use vstd::seq_lib::group_to_multiset_ensures;

    lemma_last_occurrence(s, key);
}

/// Removing `key` right after pushing it gives the cell back as it was.
pub proof fn lemma_remove_last_undoes_push(s: Seq<usize>, key: usize)
    ensures
        remove_last(s.push(key), key) == s,
{
    assert(s.push(key).drop_last() =~= s);
    assert(s.push(key).remove(s.len() as int) =~= s);
}

/// The indices of the particles that lie in one grid cell.
#[derive(Debug)]
pub struct Cell(pub Vec<usize>);

impl View for Cell {
    type V = Seq<usize>;

    open spec fn view(&self) -> Seq<usize> {
        self.0@
    }
}

impl Default for Cell {
    fn default() -> (r: Self)
        ensures
            r@.len() == 0,
    {
        Cell(Vec::new())
    }
}

impl Cell {
    /// Removes the last occurrence of `key`; does nothing when `key` is absent.
    pub fn remove(&mut self, key: usize)
        ensures
            final(self)@ == remove_last(old(self)@, key),
    {
        let mut found_idx: Option<usize> = None;
        let n = self.0.len();
        let mut idx: usize = 0;
        while idx < n
            invariant
                idx <= n,
                n == self.0@.len(),
                self@ == old(self)@,
                match found_idx {
                    Some(j) => last_occurrence(self@.take(idx as int), key) == Some(j as int),
                    None => last_occurrence(self@.take(idx as int), key) is None,
                },
            decreases n - idx,
        {
            assert(self@.take(idx as int + 1).drop_last() =~= self@.take(idx as int));
            if self.0[idx] == key {
                found_idx = Some(idx);
            }
            idx = idx + 1;
        }
        assert(self@.take(n as int) =~= self@);
        proof {
            lemma_last_occurrence(self@, key);
        }
        let Some(j) = found_idx else {
            return;
        };
        self.0.remove(j);
    }

    /// Whether the cell holds no particle.
    pub fn is_empty(&self) -> (r: bool)
        ensures
            r == (self@.len() == 0),
    {
        self.0.len() == 0
    }

    /// Adds `item` at the end of the cell.
    pub fn insert(&mut self, item: usize)
        ensures
            final(self)@ == old(self)@.push(item),
    {
        self.0.push(item);
    }
}

} // verus!
