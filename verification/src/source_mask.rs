//! Masks over local paths of a source tree.
//!
//! Multiple connected contents can modify a script file that is located at
//! the same local path in a source tree. In the case of mods this is most
//! often seen when a mod modifies a vanilla script. Multiple mods doing this
//! to the same file create a **conflict**, which is settled by letting one of
//! them win: a mask holds the local paths already taken, and a file passes
//! the mask when its local path is not among them.

use vstd::prelude::*;
use crate::paths::{PathBuf, PathBufView};

verus! {

/// A mask that can be tested against local paths in a source tree.
#[derive(Clone, Debug)]
pub struct SourceMask {
    /// The masked paths, each once.
    paths: Vec<PathBuf>,
}

/// The set of views of the paths in `ps`.
pub open spec fn path_set(ps: Seq<PathBuf>) -> Set<PathBufView> {
    Set::new(|v: PathBufView| exists|i: int| 0 <= i < ps.len() && (#[trigger] ps[i])@ == v)
}

impl View for SourceMask {
    type V = Set<PathBufView>;

    closed spec fn view(&self) -> Set<PathBufView> {
        path_set(self.paths@)
    }
}

impl SourceMask {
    /// No path is stored twice.
    pub closed spec fn well_formed(&self) -> bool {
        forall|i: int, j: int|
            0 <= i < j < self.paths@.len() ==> (#[trigger] self.paths@[i])@ != (#[trigger] self.paths@[j])@
    }

    pub fn empty() -> (r: SourceMask)
        ensures
            r@ == Set::<PathBufView>::empty(),
            r.well_formed(),
    {
        let r = SourceMask { paths: Vec::new() };
        assert(r@ =~= Set::<PathBufView>::empty());
        r
    }

    fn contains(&self, path: &PathBuf) -> (r: bool)
        ensures
            r == self@.contains(path@),
    {
        let mut i: usize = 0;
        while i < self.paths.len()
            invariant
                i <= self.paths@.len(),
                forall|j: int| 0 <= j < i ==> (#[trigger] self.paths@[j])@ != path@,
            decreases self.paths@.len() - i,
        {
            if self.paths[i].eq(path) {
                assert(path_set(self.paths@).contains(path@)) by {
                    assert(self.paths@[i as int]@ == path@);
                }
                return true;
            }
            i = i + 1;
        }
        false
    }

    /// Returns false if the mask contains given path, true otherwise
    pub fn test(&self, path: &PathBuf) -> (r: bool)
        ensures
            r == !self@.contains(path@),
    {
        !self.contains(path)
    }

    /// Adds a path to the mask.
    pub fn insert(&mut self, path: PathBuf)
        requires
            old(self).well_formed(),
        ensures
            final(self).well_formed(),
            final(self)@ == old(self)@.insert(path@),
    {
        if !self.contains(&path) {
            let ghost before = self.paths@;
            self.paths.push(path);
            assert(self@ =~= path_set(before).insert(path@)) by {
                assert forall|v: PathBufView| path_set(self.paths@).contains(v) <==> path_set(before).insert(path@).contains(v) by {
                    if path_set(self.paths@).contains(v) {
                        let i = choose|i: int| 0 <= i < self.paths@.len() && (#[trigger] self.paths@[i])@ == v;
                        if i < before.len() {
                            assert(before[i]@ == v);
                        }
                    }
                    if path_set(before).contains(v) {
                        let i = choose|i: int| 0 <= i < before.len() && (#[trigger] before[i])@ == v;
                        assert(self.paths@[i]@ == v);
                    }
                    if v == path@ {
                        assert(self.paths@[before.len() as int]@ == v);
                    }
                }
            }
        } else {
            assert(self@ =~= old(self)@.insert(path@));
        }
    }

    /// Join two masks together to create a new one.
    pub fn union(&self, other: &SourceMask) -> (r: SourceMask)
        ensures
            r.well_formed(),
            r@ == self@.union(other@),
    {
        let mut r = SourceMask { paths: Vec::new() };
        let mut i: usize = 0;
        assert(r@ =~= Set::<PathBufView>::empty());
        while i < self.paths.len()
            invariant
                i <= self.paths@.len(),
                r.well_formed(),
                r@ == path_set(self.paths@.take(i as int)),
            decreases self.paths@.len() - i,
        {
            r.insert(self.paths[i].copy());
            assert(path_set(self.paths@.take(i + 1)) =~= path_set(self.paths@.take(i as int)).insert(self.paths@[i as int]@)) by {
                assert forall|v: PathBufView| path_set(self.paths@.take(i + 1)).contains(v) implies path_set(self.paths@.take(i as int)).insert(self.paths@[i as int]@).contains(v) by {
                    let k = choose|k: int| 0 <= k < self.paths@.take(i + 1).len() && (#[trigger] self.paths@.take(i + 1)[k])@ == v;
                    if k < i {
                        assert(self.paths@.take(i as int)[k]@ == v);
                    }
                }
                assert forall|v: PathBufView| path_set(self.paths@.take(i as int)).contains(v) implies path_set(self.paths@.take(i + 1)).contains(v) by {
                    let k = choose|k: int| 0 <= k < self.paths@.take(i as int).len() && (#[trigger] self.paths@.take(i as int)[k])@ == v;
                    assert(self.paths@.take(i + 1)[k]@ == v);
                }
                assert(self.paths@.take(i + 1)[i as int]@ == self.paths@[i as int]@);
            }
            i = i + 1;
        }
        assert(self.paths@.take(self.paths@.len() as int) =~= self.paths@);
        let mut j: usize = 0;
        while j < other.paths.len()
            invariant
                j <= other.paths@.len(),
                r.well_formed(),
                r@ == self@.union(path_set(other.paths@.take(j as int))),
            decreases other.paths@.len() - j,
        {
            r.insert(other.paths[j].copy());
            assert(path_set(other.paths@.take(j + 1)) =~= path_set(other.paths@.take(j as int)).insert(other.paths@[j as int]@)) by {
                assert forall|v: PathBufView| path_set(other.paths@.take(j + 1)).contains(v) implies path_set(other.paths@.take(j as int)).insert(other.paths@[j as int]@).contains(v) by {
                    let k = choose|k: int| 0 <= k < other.paths@.take(j + 1).len() && (#[trigger] other.paths@.take(j + 1)[k])@ == v;
                    if k < j {
                        assert(other.paths@.take(j as int)[k]@ == v);
                    }
                }
                assert forall|v: PathBufView| path_set(other.paths@.take(j as int)).contains(v) implies path_set(other.paths@.take(j + 1)).contains(v) by {
                    let k = choose|k: int| 0 <= k < other.paths@.take(j as int).len() && (#[trigger] other.paths@.take(j as int)[k])@ == v;
                    assert(other.paths@.take(j + 1)[k]@ == v);
                }
                assert(other.paths@.take(j + 1)[j as int]@ == other.paths@[j as int]@);
            }
            assert(r@ =~= self@.union(path_set(other.paths@.take(j + 1))));
            j = j + 1;
        }
        assert(other.paths@.take(other.paths@.len() as int) =~= other.paths@);
        r
    }

    /// A mask of the given paths.
    pub fn from_paths(paths: Vec<PathBuf>) -> (r: SourceMask)
        ensures
            r.well_formed(),
            r@ == path_set(paths@),
    {
        let mut r = SourceMask::empty();
        let mut i: usize = 0;
        while i < paths.len()
            invariant
                i <= paths@.len(),
                r.well_formed(),
                r@ == path_set(paths@.take(i as int)),
            decreases paths@.len() - i,
        {
            r.insert(paths[i].copy());
            assert(path_set(paths@.take(i + 1)) =~= path_set(paths@.take(i as int)).insert(paths@[i as int]@)) by {
                assert forall|v: PathBufView| path_set(paths@.take(i + 1)).contains(v) implies path_set(paths@.take(i as int)).insert(paths@[i as int]@).contains(v) by {
                    let k = choose|k: int| 0 <= k < paths@.take(i + 1).len() && (#[trigger] paths@.take(i + 1)[k])@ == v;
                    if k < i {
                        assert(paths@.take(i as int)[k]@ == v);
                    }
                }
                assert forall|v: PathBufView| path_set(paths@.take(i as int)).contains(v) implies path_set(paths@.take(i + 1)).contains(v) by {
                    let k = choose|k: int| 0 <= k < paths@.take(i as int).len() && (#[trigger] paths@.take(i as int)[k])@ == v;
                    assert(paths@.take(i + 1)[k]@ == v);
                }
                assert(paths@.take(i + 1)[i as int]@ == paths@[i as int]@);
            }
            i = i + 1;
        }
        assert(paths@.take(paths@.len() as int) =~= paths@);
        r
    }
}

impl Default for SourceMask {
    fn default() -> (r: SourceMask)
        ensures
            r@ == Set::<PathBufView>::empty(),
    {
        SourceMask::empty()
    }
}

/// A path passes the union of two masks exactly when it passes both.
pub proof fn lemma_union_test(a: SourceMask, b: SourceMask, path: PathBufView)
    ensures
        !a@.union(b@).contains(path) == (!a@.contains(path) && !b@.contains(path)),
{
}

} // verus!
