//! Tracking of per-row positions in nested repetition levels.
//!
//! A `LevelIndexList` names the current position on the path from the row
//! root down to a leaf: one index per repetition level.  Every leaf appender
//! owns a `LevelIndexState`, the remembered position of the previous record.
//! The repetition level of a new record is the outermost level at which the
//! current position differs from the remembered one; the remembered state
//! starts out as a sentinel so that the first record of a column always gets
//! repetition level zero.

use vstd::prelude::*;

verus! {

/// Smallest index at which `a` and `b` differ, looking from `from` upward;
/// `a.len()` when the sequences agree on every position from `from` on.
pub open spec fn first_diff_from(a: Seq<usize>, b: Seq<usize>, from: int) -> int
    decreases a.len() - from,
{
    if from < 0 || from >= a.len() {
        a.len() as int
    } else if a[from] != b[from] {
        from
    } else {
        first_diff_from(a, b, from + 1)
    }
}

/// Smallest index at which `a` and `b` differ, or `a.len()` if none.
pub open spec fn first_diff(a: Seq<usize>, b: Seq<usize>) -> int {
    first_diff_from(a, b, 0)
}

/// The repetition level emitted for a record at position `path` when the
/// remembered position is `mark`: the outermost differing level, or the
/// leaf level when nothing differs.
pub open spec fn diff_level(mark: Seq<usize>, path: Seq<usize>) -> int {
    if first_diff(path, mark) < path.len() {
        first_diff(path, mark)
    } else {
        path.len() - 1
    }
}

pub proof fn lemma_first_diff_from_bounds(a: Seq<usize>, b: Seq<usize>, from: int)
    requires
        0 <= from <= a.len(),
    ensures
        from <= first_diff_from(a, b, from) <= a.len(),
        first_diff_from(a, b, from) < a.len() ==> a[first_diff_from(a, b, from)] != b[first_diff_from(
            a,
            b,
            from,
        )],
        forall|j: int|
            from <= j < first_diff_from(a, b, from) ==> a[j] == b[j],
    decreases a.len() - from,
{
    if from < a.len() && a[from] == b[from] {
        lemma_first_diff_from_bounds(a, b, from + 1);
    }
}

pub proof fn lemma_first_diff_bounds(a: Seq<usize>, b: Seq<usize>)
    ensures
        0 <= first_diff(a, b) <= a.len(),
        first_diff(a, b) < a.len() ==> a[first_diff(a, b)] != b[first_diff(a, b)],
        forall|j: int| 0 <= j < first_diff(a, b) ==> a[j] == b[j],
{
    lemma_first_diff_from_bounds(a, b, 0);
}

/// If the sequences differ at position 0, the first difference is 0.
pub proof fn lemma_first_diff_head(a: Seq<usize>, b: Seq<usize>)
    requires
        a.len() > 0,
        b.len() > 0,
        a[0] != b[0],
    ensures
        first_diff(a, b) == 0,
{
}

/// The current position along the nesting path: one index per level, the
/// row index at level zero, one entry appended per repetition level below.
pub struct LevelIndexList {
    indexes: Vec<usize>,
}

impl LevelIndexList {
    /// The position as a sequence of indices, root first.
    pub closed spec fn view(&self) -> Seq<usize> {
        self.indexes@
    }

    /// Positions never reach the sentinel value, so a fresh tracker always
    /// reports a difference at the root.
    pub open spec fn wf(&self) -> bool {
        &&& self@.len() >= 1
        &&& self@.len() <= 0x7fff
        &&& forall|i: int| 0 <= i < self@.len() ==> self@[i] < usize::MAX
    }

    /// Nesting depth of this position; zero at the row root.
    pub open spec fn spec_level(&self) -> int {
        self@.len() - 1
    }

    /// Root position at the given row index.
    pub fn new_i(index: usize) -> (r: Self)
        requires
            index < usize::MAX,
        ensures
            r@ =~= seq![index],
            r.wf(),
    {
        let mut v: Vec<usize> = Vec::new();
        v.push(index);
        LevelIndexList { indexes: v }
    }

    /// Root position at row index zero.
    pub fn new() -> (r: Self)
        ensures
            r@ =~= seq![0usize],
            r.wf(),
    {
        Self::new_i(0)
    }

    /// The position of the first child one repetition level below `self`.
    pub fn new_child(&self) -> (r: Self)
        requires
            self.wf(),
            self@.len() < 0x7fff,
        ensures
            r@ =~= self@.push(0usize),
            r.wf(),
    {
        let mut v: Vec<usize> = Vec::new();
        let n = self.indexes.len();
        let mut i: usize = 0;
        while i < n
            invariant
                n == self.indexes@.len(),
                i <= n,
                v@ =~= self.indexes@.subrange(0, i as int),
            decreases n - i,
        {
            v.push(self.indexes[i]);
            i = i + 1;
        }
        assert(v@ =~= self.indexes@);
        v.push(0);
        LevelIndexList { indexes: v }
    }

    /// Step to the next sibling: increment the innermost index.
    pub fn inc(&mut self)
        requires
            old(self).wf(),
            old(self)@[old(self)@.len() - 1] < usize::MAX - 1,
        ensures
            final(self)@ =~= old(self)@.update(old(self)@.len() - 1, (old(self)@[old(self)@.len()
                - 1] + 1) as usize),
            final(self).wf(),
    {
        let n = self.indexes.len();
        let cur = self.indexes[n - 1];
        self.indexes.set(n - 1, cur + 1);
    }
}

/// The remembered position of the last record a leaf appender emitted,
/// initialised to a sentinel so the first record reports level zero.
pub struct LevelIndexState {
    indexes: Vec<usize>,
}

impl LevelIndexState {
    /// The remembered indices, root first.
    pub closed spec fn view(&self) -> Seq<usize> {
        self.indexes@
    }

    pub open spec fn wf(&self) -> bool {
        &&& self@.len() >= 1
        &&& self@.len() <= 0x7fff
    }

    /// Fresh sentinel state for a column with `level` repetition levels.
    pub fn new(level: i16) -> (r: Self)
        requires
            0 <= level < 0x7fff,
        ensures
            r@.len() == level + 1,
            forall|i: int| 0 <= i < r@.len() ==> r@[i] == usize::MAX,
            r.wf(),
    {
        let n: usize = (level + 1) as usize;
        let mut v: Vec<usize> = Vec::new();
        let mut i: usize = 0;
        while i < n
            invariant
                i <= n,
                v@.len() == i,
                forall|j: int| 0 <= j < i ==> v@[j] == usize::MAX,
            decreases n - i,
        {
            v.push(usize::MAX);
            i = i + 1;
        }
        LevelIndexState { indexes: v }
    }

    /// Number of repetition levels this state remembers.
    pub fn level(&self) -> (r: i16)
        requires
            self.wf(),
        ensures
            r == self@.len() - 1,
    {
        (self.indexes.len() - 1) as i16
    }

    /// Advance the index at level `lvl` and reset all deeper levels.
    pub fn inc(&mut self, lvl: i16)
        requires
            old(self).wf(),
            0 <= lvl < old(self)@.len(),
            old(self)@[lvl as int] < usize::MAX,
        ensures
            final(self)@.len() == old(self)@.len(),
            final(self)@[lvl as int] == old(self)@[lvl as int] + 1,
            forall|j: int| lvl < j < final(self)@.len() ==> final(self)@[j] == 0,
            forall|j: int| 0 <= j < lvl ==> final(self)@[j] == old(self)@[j],
            final(self).wf(),
    {
        let l = lvl as usize;
        let cur = self.indexes[l];
        self.indexes.set(l, cur + 1);
        let n = self.indexes.len();
        let mut i: usize = l + 1;
        while i < n
            invariant
                l + 1 <= i <= n,
                n == self.indexes@.len(),
                self.indexes@.len() == old(self)@.len(),
                self.indexes@[l as int] == old(self)@[l as int] + 1,
                forall|j: int| 0 <= j < l ==> self.indexes@[j] == old(self)@[j],
                forall|j: int| l < j < i ==> self.indexes@[j] == 0,
                forall|j: int| i <= j < n ==> self.indexes@[j] == old(self)@[j],
            decreases n - i,
        {
            self.indexes.set(i, 0);
            i = i + 1;
        }
    }

    /// Remember `other` and report the outermost level at which it differs
    /// from the previous remembered position: the repetition level of the
    /// record being emitted at position `other`.
    pub fn copy_and_diff(&mut self, other: &LevelIndexList) -> (r: i16)
        requires
            old(self).wf(),
            other.wf(),
            other@.len() == old(self)@.len(),
        ensures
            final(self)@ =~= other@,
            r as int == diff_level(old(self)@, other@),
            0 <= r as int <= other@.len() - 1,
    {
        proof {
            lemma_first_diff_bounds(other@, old(self)@);
        }
        let n = self.indexes.len();
        let mut result: i16 = (n - 1) as i16;
        let mut found: bool = false;
        let mut i: usize = 0;
        while i < n
            invariant
                i <= n,
                n == self.indexes@.len(),
                n == old(self)@.len(),
                n == other@.len(),
                1 <= n <= 0x7fff,
                found <==> first_diff(other@, old(self)@) < i,
                found ==> result as int == first_diff(other@, old(self)@),
                !found ==> result as int == n - 1,
                forall|j: int| 0 <= j < i ==> self.indexes@[j] == other@[j],
                forall|j: int| i <= j < n ==> self.indexes@[j] == old(self)@[j],
            decreases n - i,
        {
            proof {
                lemma_first_diff_bounds(other@, old(self)@);
            }
            if self.indexes[i] != other.indexes_at(i) {
                if !found {
                    result = i as i16;
                    found = true;
                }
                let v = other.indexes_at(i);
                self.indexes.set(i, v);
            } else {
                proof {
                    if first_diff(other@, old(self)@) == i {
                        lemma_first_diff_bounds(other@, old(self)@);
                        assert(false);
                    }
                }
            }
            i = i + 1;
        }
        result
    }

    /// Overwrite this state with another of the same depth.
    pub fn copy_from(&mut self, other: &LevelIndexState)
        requires
            old(self).wf(),
            other.wf(),
            other@.len() == old(self)@.len(),
        ensures
            final(self)@ =~= other@,
    {
        let n = self.indexes.len();
        let mut i: usize = 0;
        while i < n
            invariant
                i <= n,
                n == self.indexes@.len(),
                n == other@.len(),
                forall|j: int| 0 <= j < i ==> self.indexes@[j] == other@[j],
            decreases n - i,
        {
            let v = other.indexes[i];
            self.indexes.set(i, v);
            i = i + 1;
        }
    }

    /// Outermost level at which two remembered states differ, or the depth
    /// when they agree everywhere.
    pub fn get_level_difference(&self, other: &LevelIndexState) -> (r: i16)
        requires
            self.wf(),
            other.wf(),
            other@.len() == self@.len(),
        ensures
            r as int == first_diff(self@, other@),
    {
        proof {
            lemma_first_diff_bounds(self@, other@);
        }
        let n = self.indexes.len();
        let mut i: usize = 0;
        while i < n
            invariant
                i <= n,
                n == self.indexes@.len(),
                n == other@.len(),
                n <= 0x7fff,
                first_diff(self@, other@) >= i,
            decreases n - i,
        {
            proof {
                lemma_first_diff_bounds(self@, other@);
            }
            if self.indexes[i] != other.indexes[i] {
                proof {
                    lemma_first_diff_bounds(self@, other@);
                    if first_diff(self@, other@) > i {
                        assert(self@[i as int] == other@[i as int]);
                    }
                }
                return i as i16;
            }
            proof {
                if first_diff(self@, other@) == i {
                    lemma_first_diff_bounds(self@, other@);
                    assert(false);
                }
            }
            i = i + 1;
        }
        n as i16
    }
}

impl LevelIndexList {
    /// Read the index at one level of the position.
    pub fn indexes_at(&self, i: usize) -> (r: usize)
        requires
            i < self@.len(),
        ensures
            r == self@[i as int],
    {
        self.indexes[i]
    }
}

} // verus!
