//! The compressed files that are known to be on disk.
use crate::order::{
    path_lt, path_lt_asymmetric, path_lt_irreflexive, path_lt_total, path_lt_transitive, Parts,
};
use crate::path::LogPath;
use vstd::prelude::*;

verus! {

/// The paths held by a sequence.
pub open spec fn paths_of(files: Seq<LogPath>) -> Seq<Parts> {
    Seq::new(files.len(), |i: int| files[i]@)
}

/// Each path comes before those behind it; so none occurs twice.
pub open spec fn is_listing(files: Seq<Parts>) -> bool {
    forall|i: int, j: int|
        #![trigger files[i], files[j]]
        0 <= i < j < files.len() ==> path_lt(files[i], files[j])
}

/// The files known to be on disk, as a listing.
pub struct State {
    files: Vec<LogPath>,
}

impl View for State {
    type V = Seq<Parts>;

    closed spec fn view(&self) -> Seq<Parts> {
        paths_of(self.files@)
    }
}

impl Default for State {
    fn default() -> (res: Self)
        ensures
            res.is_valid(),
            res@ == Seq::<Parts>::empty(),
    {
        let res = State { files: Vec::new() };
        assert(res@ =~= Seq::<Parts>::empty());
        res
    }
}

/// Two listings of the same files are the same: what is known decides the order, not the way in
/// which it came to be known.
pub proof fn listing_is_unique(a: Seq<Parts>, b: Seq<Parts>)
    requires
        is_listing(a),
        is_listing(b),
        forall|path: Parts| a.contains(path) <==> b.contains(path),
    ensures
        a == b,
    decreases a.len(),
{
    if a.len() == 0 {
        if b.len() > 0 {
            assert(b.contains(b[0]));
        }
        assert(a =~= b);
    } else {
        assert(a.contains(a[0]));
        let j = choose|j: int| 0 <= j < b.len() && b[j] == a[0];
        assert(b.contains(b[0]));
        let i = choose|i: int| 0 <= i < a.len() && a[i] == b[0];
        if i > 0 && j > 0 {
            path_lt_asymmetric(a[0], a[i]);
        }
        assert(a[0] == b[0]);
        let x = a.drop_first();
        let y = b.drop_first();
        assert forall|path: Parts| x.contains(path) <==> y.contains(path) by {
            path_lt_irreflexive(a[0]);
            if x.contains(path) {
                let k = choose|k: int| 0 <= k < x.len() && x[k] == path;
                assert(a[k + 1] == path);
                assert(a.contains(path));
                let m = choose|m: int| 0 <= m < b.len() && b[m] == path;
                assert(m > 0);
                assert(y[m - 1] == path);
            }
            if y.contains(path) {
                let k = choose|k: int| 0 <= k < y.len() && y[k] == path;
                assert(b[k + 1] == path);
                assert(b.contains(path));
                let m = choose|m: int| 0 <= m < a.len() && a[m] == path;
                assert(m > 0);
                assert(x[m - 1] == path);
            }
        }
        listing_is_unique(x, y);
        assert(a =~= seq![a[0]] + x);
        assert(b =~= seq![b[0]] + y);
    }
}

impl State {
    /// The files are in order and none is held twice.
    pub open spec fn is_valid(&self) -> bool {
        is_listing(self@)
    }

    /// How many files are known.
    pub fn len(&self) -> (res: usize)
        ensures
            res == self@.len(),
    {
        self.files.len()
    }

    /// The position of the first file that does not come before `path`.
    fn position(&self, path: &LogPath) -> (res: usize)
        requires
            self.is_valid(),
        ensures
            res <= self@.len(),
            forall|i: int| 0 <= i < res ==> path_lt(#[trigger] self@[i], path@),
            forall|i: int| res <= i < self@.len() ==> !path_lt(#[trigger] self@[i], path@),
    {
        let mut res: usize = 0;
        while res < self.files.len() && self.files[res].precedes(path)
            invariant
                res <= self@.len(),
                self@.len() == self.files@.len(),
                forall|i: int| 0 <= i < res ==> path_lt(#[trigger] self@[i], path@),
            decreases self@.len() - res,
        {
            assert(self@[res as int] == self.files@[res as int]@);
            res = res + 1;
        }
        assert forall|i: int| res <= i < self@.len() implies !path_lt(
            #[trigger] self@[i],
            path@,
        ) by {
            assert(self@[res as int] == self.files@[res as int]@);
            if i > res && path_lt(self@[i], path@) {
                path_lt_transitive(self@[res as int], self@[i], path@);
            }
        }
        res
    }

    /// Records a file that was found on disk.
    pub fn found_file(&mut self, path: LogPath)
        requires
            old(self).is_valid(),
        ensures
            final(self).is_valid(),
            forall|other: Parts|
                final(self)@.contains(other) <==> old(self)@.contains(other) || other == path@,
            final(self)@.len() == old(self)@.len() + if old(self)@.contains(path@) {
                0int
            } else {
                1int
            },
    {
        let at: usize = self.position(&path);
        let ghost before = self@;
        if at < self.files.len() && self.files[at].same_as(&path) {
            assert(before[at as int] == path@);
            assert(before.contains(path@));
            return;
        }
        let ghost added = path@;
        proof {
            if at < before.len() {
                assert(before[at as int] == self.files@[at as int]@);
                path_lt_total(before[at as int], added);
            }
            if before.contains(added) {
                let k = choose|k: int| 0 <= k < before.len() && before[k] == added;
                path_lt_irreflexive(added);
                if k > at {
                    path_lt_asymmetric(before[at as int], before[k]);
                }
            }
        }
        self.files.insert(at, path);
        proof {
            let after = self@;
            assert(after =~= before.insert(at as int, added));
            assert forall|i: int, j: int|
                #![trigger after[i], after[j]]
                0 <= i < j < after.len() implies path_lt(after[i], after[j]) by {
                if j < at {
                    assert(after[i] == before[i] && after[j] == before[j]);
                } else if j == at {
                    assert(after[i] == before[i]);
                } else if i == at {
                    assert(after[j] == before[j - 1]);
                    if j - 1 > at {
                        path_lt_transitive(added, before[at as int], before[j - 1]);
                    }
                } else if i < at {
                    assert(after[i] == before[i] && after[j] == before[j - 1]);
                } else {
                    assert(after[i] == before[i - 1] && after[j] == before[j - 1]);
                }
            }
            assert forall|other: Parts| after.contains(other) <==> before.contains(other) || other
                == added by {
                if before.contains(other) {
                    let k = choose|k: int| 0 <= k < before.len() && before[k] == other;
                    if k < at {
                        assert(after[k] == other);
                    } else {
                        assert(after[k + 1] == other);
                    }
                }
                assert(after[at as int] == added);
                if after.contains(other) {
                    let k = choose|k: int| 0 <= k < after.len() && after[k] == other;
                    if k < at {
                        assert(before[k] == other);
                    } else if k > at {
                        assert(before[k - 1] == other);
                    }
                }
            }
        }
    }

    /// Forgets a file. One that is not known is passed over.
    pub fn remove(&mut self, path: &LogPath)
        requires
            old(self).is_valid(),
        ensures
            final(self).is_valid(),
            forall|other: Parts|
                final(self)@.contains(other) <==> old(self)@.contains(other) && other != path@,
            forall|i: int|
                0 <= i < old(self)@.len() && (#[trigger] old(self)@[i]) == path@ ==> final(self)@
                    == old(self)@.remove(i),
            !old(self)@.contains(path@) ==> final(self)@ == old(self)@,
    {
        let at: usize = self.position(path);
        let ghost before = self@;
        proof {
            path_lt_irreflexive(path@);
        }
        if at < self.files.len() && self.files[at].same_as(path) {
            assert(before[at as int] == path@);
            self.files.remove(at);
            proof {
                let after = self@;
                assert(after =~= before.remove(at as int));
                assert forall|i: int|
                    0 <= i < before.len() && (#[trigger] before[i]) == path@ implies after
                    == before.remove(i) by {
                    assert(i == at);
                }
                assert forall|i: int, j: int|
                    #![trigger after[i], after[j]]
                    0 <= i < j < after.len() implies path_lt(after[i], after[j]) by {
                    assert(after[i] == before[if i < at {
                        i
                    } else {
                        i + 1
                    }]);
                    assert(after[j] == before[if j < at {
                        j
                    } else {
                        j + 1
                    }]);
                }
                assert forall|other: Parts| after.contains(other) <==> before.contains(other)
                    && other != path@ by {
                    if after.contains(other) {
                        let k = choose|k: int| 0 <= k < after.len() && after[k] == other;
                        let m = if k < at {
                            k
                        } else {
                            k + 1
                        };
                        assert(before[m] == other);
                        assert(m != at);
                    }
                    if before.contains(other) && other != path@ {
                        let k = choose|k: int| 0 <= k < before.len() && before[k] == other;
                        if k < at {
                            assert(after[k] == other);
                        } else {
                            assert(after[k - 1] == other);
                        }
                    }
                }
            }
        } else {
            proof {
                if before.contains(path@) {
                    let k = choose|k: int| 0 <= k < before.len() && before[k] == path@;
                    assert(k >= at);
                    assert(self.files@[at as int]@ == before[at as int]);
                    if k > at {
                        path_lt_asymmetric(before[at as int], before[k]);
                    }
                }
            }
        }
    }

    /// Records that the file `old_path` has been compressed into `new_path`.
    pub fn file_compressed(&mut self, old_path: LogPath, new_path: LogPath)
        requires
            old(self).is_valid(),
        ensures
            final(self).is_valid(),
            forall|other: Parts|
                final(self)@.contains(other) <==> (old(self)@.contains(other) && other != old_path@)
                    || other == new_path@,
            !old(self)@.contains(old_path@) ==> final(self)@.len() == old(self)@.len()
                + if old(self)@.contains(new_path@) {
                0int
            } else {
                1int
            },
    {
        self.remove(&old_path);
        self.found_file(new_path);
    }

    /// The first file of the listing.
    pub fn first(&self) -> (res: Option<LogPath>)
        ensures
            (match res {
                Some(path) => self@.len() > 0 && path@ == self@[0],
                None => self@.len() == 0,
            }),
    {
        if self.files.len() == 0 {
            return None;
        }
        assert(self@[0] == self.files@[0]@);
        Some(self.files[0].clone())
    }

    /// All known files, ordered by filename.
    ///
    /// This means they're ordered by the timestamps in their names, provided the prefixes of all
    /// the filenames are the same.
    pub fn files(&self) -> (res: Vec<LogPath>)
        ensures
            paths_of(res@) == self@,
    {
        let mut res: Vec<LogPath> = Vec::new();
        let mut i: usize = 0;
        while i < self.files.len()
            invariant
                i <= self.files@.len(),
                res@.len() == i,
                forall|j: int| 0 <= j < i ==> (#[trigger] res@[j])@ == self.files@[j]@,
            decreases self.files.len() - i,
        {
            res.push(self.files[i].clone());
            i = i + 1;
        }
        assert(paths_of(res@) =~= self@);
        res
    }
}

} // verus!
