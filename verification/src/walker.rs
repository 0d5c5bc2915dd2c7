//! The directory walker as a pure state machine: the driver performs one
//! remote listing or size query at a time and feeds the result back, while
//! the machine tracks pending work, applies the ignore set segment-wise,
//! enforces the size cap, and deduplicates emitted paths.

use crate::ignore::{path_ignored, spec_path_ignored};
use crate::strutil::{join_path, spec_join, str_eq};
use vstd::prelude::*;

verus! {

/// The type tag of one remote directory entry.
#[derive(Debug, Clone, Copy, PartialEq, Eq, Structural)]
pub enum EntryKind {
    Directory,
    Regular,
    Other,
}

/// One entry of a remote directory listing: a bare name, to be joined
/// onto the listed directory's path.
#[derive(Debug, Clone, PartialEq, Eq)]
pub struct DirEntry {
    pub name: String,
    pub kind: EntryKind,
}

/// What the walker wants its driver to do next.
#[derive(Debug)]
pub enum WalkAction {
    /// List the directory at this path (empty path: the root).
    Readdir(String),
    /// Query the byte size of the file at this path.
    Stat(String),
    /// The whole tree has been walked.
    Done,
    /// A conflicting earlier-export directory was found; the job must stop.
    Fail,
}

/// What one listing contributes, processed in entry order: directories to
/// walk, files to size-check, whether a root `.git` was seen, and whether
/// the conflicting backup directory was seen (which stops the listing
/// right there).
pub type ListingEffect = (Seq<Seq<char>>, Seq<Seq<char>>, bool, bool);

/// The effect of processing the entries of directory `dir`, in order.
/// Entries whose joined path has an ignored segment contribute nothing;
/// a directory entry joining to `.git` raises the pre-existing-git flag;
/// one joining to `.replit-takeout-otbackup` stops the job.
pub open spec fn spec_listing_effect(dir: Seq<char>, entries: Seq<DirEntry>) -> ListingEffect
    decreases entries.len(),
{
    if entries.len() == 0 {
        (Seq::empty(), Seq::empty(), false, false)
    } else {
        let fpath = spec_join(dir, entries[0].name@);
        let rest = spec_listing_effect(dir, entries.skip(1));
        if spec_path_ignored(fpath) {
            rest
        } else {
            match entries[0].kind {
                EntryKind::Directory => if fpath == ".replit-takeout-otbackup"@ {
                    (Seq::<Seq<char>>::empty(), Seq::<Seq<char>>::empty(), false, true)
                } else {
                    (seq![fpath] + rest.0, rest.1, fpath == ".git"@ || rest.2, rest.3)
                },
                EntryKind::Regular => (rest.0, seq![fpath] + rest.1, rest.2, rest.3),
                EntryKind::Other => rest,
            }
        }
    }
}

/// Whether any string in the list has exactly these contents.
fn vec_contains_str(v: &Vec<String>, p: &str) -> (r: bool)
    ensures
        r == v@.map_values(|s: String| s@).contains(p@),
{
    let ghost mapped = v@.map_values(|s: String| s@);
    let m = v.len();
    let mut j: usize = 0;
    while j < m
        invariant
            j <= m,
            m == v@.len(),
            mapped == v@.map_values(|s: String| s@),
            forall|k: int| 0 <= k < j ==> mapped[k] != p@,
        decreases m - j,
    {
        if str_eq(v[j].as_str(), p) {
            proof {
                assert(mapped[j as int] == p@);
            }
            return true;
        }
        j = j + 1;
    }
    proof {
        assert(forall|k: int| 0 <= k < mapped.len() ==> mapped[k] != p@);
        if mapped.contains(p@) {
            let k = choose|k: int| 0 <= k < mapped.len() && mapped[k] == p@;
            assert(false);
        }
    }
    false
}

/// The walker's state between driver calls.
pub struct Walker {
    cap: u64,
    dirs: Vec<String>,
    stats: Vec<String>,
    emitted: Vec<String>,
    skipped: Vec<String>,
    pending_dir: Option<String>,
    pending_stat: Option<String>,
    git: bool,
    conflict: bool,
}

impl Walker {
    /// Directories still to be listed, in stack order.
    pub closed spec fn spec_dirs(&self) -> Seq<Seq<char>> {
        self.dirs@.map_values(|s: String| s@)
    }

    /// Files still awaiting their size query, in stack order.
    pub closed spec fn spec_stats(&self) -> Seq<Seq<char>> {
        self.stats@.map_values(|s: String| s@)
    }

    /// Paths emitted so far, in emission order, deduplicated.
    pub closed spec fn spec_emitted(&self) -> Seq<Seq<char>> {
        self.emitted@.map_values(|s: String| s@)
    }

    /// Files dropped for exceeding the size cap.
    pub closed spec fn spec_skipped(&self) -> Seq<Seq<char>> {
        self.skipped@.map_values(|s: String| s@)
    }

    /// The directory whose listing is outstanding, if any.
    pub closed spec fn spec_pending_dir(&self) -> Option<Seq<char>> {
        match self.pending_dir {
            Some(ref s) => Some(s@),
            None => None,
        }
    }

    /// The file whose size query is outstanding, if any.
    pub closed spec fn spec_pending_stat(&self) -> Option<Seq<char>> {
        match self.pending_stat {
            Some(ref s) => Some(s@),
            None => None,
        }
    }

    /// Whether a pre-existing root `.git` directory has been seen.
    pub closed spec fn spec_found_git(&self) -> bool {
        self.git
    }

    /// Whether the conflicting earlier-export directory has been seen.
    pub closed spec fn spec_conflicted(&self) -> bool {
        self.conflict
    }

    /// The size cap in bytes.
    pub closed spec fn spec_cap(&self) -> u64 {
        self.cap
    }

    /// No path the walker holds or has emitted contains an ignored
    /// segment.
    pub closed spec fn inv(&self) -> bool {
        &&& forall|i: int| 0 <= i < self.spec_dirs().len() ==> !spec_path_ignored(#[trigger] self.spec_dirs()[i])
        &&& forall|i: int|
            0 <= i < self.spec_stats().len() ==> !spec_path_ignored(#[trigger] self.spec_stats()[i])
        &&& forall|i: int|
            0 <= i < self.spec_emitted().len() ==> !spec_path_ignored(
                #[trigger] self.spec_emitted()[i],
            )
        &&& (self.spec_pending_dir() matches Some(p) ==> !spec_path_ignored(p))
        &&& (self.spec_pending_stat() matches Some(p) ==> !spec_path_ignored(p))
        &&& (self.spec_pending_dir() is Some ==> self.spec_stats().len() == 0
            && self.spec_pending_stat() is None)
    }

    /// A fresh walker that will start by listing the root, with the given
    /// file size cap in bytes.
    pub fn new(cap: u64) -> (w: Walker)
        ensures
            w.inv(),
            w.spec_dirs() == seq![Seq::<char>::empty()],
            w.spec_stats() == Seq::<Seq<char>>::empty(),
            w.spec_emitted() == Seq::<Seq<char>>::empty(),
            w.spec_skipped() == Seq::<Seq<char>>::empty(),
            w.spec_pending_dir() is None,
            w.spec_pending_stat() is None,
            !w.spec_found_git(),
            !w.spec_conflicted(),
            w.spec_cap() == cap,
    {
        let mut dirs: Vec<String> = Vec::new();
        let root = String::new();
        dirs.push(root);
        let w = Walker {
            cap,
            dirs,
            stats: Vec::new(),
            emitted: Vec::new(),
            skipped: Vec::new(),
            pending_dir: None,
            pending_stat: None,
            git: false,
            conflict: false,
        };
        proof {
            assert(w.spec_dirs() =~= seq![Seq::<char>::empty()]);
            assert(w.spec_stats() =~= Seq::<Seq<char>>::empty());
            assert(w.spec_emitted() =~= Seq::<Seq<char>>::empty());
            assert(w.spec_skipped() =~= Seq::<Seq<char>>::empty());
            crate::ignore::lemma_empty_not_ignored();
            assert(w.inv());
        }
        w
    }

    /// Whether the walker is waiting for a directory listing.
    pub fn expecting_listing(&self) -> (r: bool)
        ensures
            r == (self.spec_pending_dir() is Some),
    {
        self.pending_dir.is_some()
    }

    /// Whether the walker is waiting for a file size.
    pub fn expecting_stat(&self) -> (r: bool)
        ensures
            r == (self.spec_pending_stat() is Some),
    {
        self.pending_stat.is_some()
    }

    /// Whether a pre-existing root `.git` directory was seen.
    pub fn found_git(&self) -> (r: bool)
        ensures
            r == self.spec_found_git(),
    {
        self.git
    }

    /// The paths emitted so far.
    pub fn emitted(&self) -> (r: &Vec<String>)
        ensures
            r@.map_values(|s: String| s@) == self.spec_emitted(),
    {
        &self.emitted
    }

    /// The next request the driver should perform. A conflict fails the
    /// walk; an outstanding request is repeated; otherwise pending size
    /// queries drain before the next directory listing; with nothing left
    /// the walk is done.
    pub fn next_action(&mut self) -> (a: WalkAction)
        requires
            old(self).inv(),
        ensures
            final(self).inv(),
            final(self).spec_emitted() == old(self).spec_emitted(),
            final(self).spec_skipped() == old(self).spec_skipped(),
            final(self).spec_found_git() == old(self).spec_found_git(),
            final(self).spec_conflicted() == old(self).spec_conflicted(),
            final(self).spec_cap() == old(self).spec_cap(),
            match a {
                WalkAction::Fail => old(self).spec_conflicted() && *final(self) == *old(self),
                WalkAction::Stat(p) => {
                    &&& !old(self).spec_conflicted()
                    &&& !spec_path_ignored(p@)
                    &&& final(self).spec_pending_stat() == Some(p@)
                    &&& final(self).spec_pending_dir() == old(self).spec_pending_dir()
                    &&& final(self).spec_dirs() == old(self).spec_dirs()
                    &&& (if old(self).spec_pending_stat() is Some {
                        old(self).spec_pending_stat() == Some(p@) && final(self).spec_stats()
                            == old(self).spec_stats()
                    } else {
                        old(self).spec_stats().len() > 0 && p@ == old(self).spec_stats().last()
                            && final(self).spec_stats() == old(self).spec_stats().drop_last()
                    })
                },
                WalkAction::Readdir(p) => {
                    &&& !old(self).spec_conflicted()
                    &&& old(self).spec_pending_stat() is None
                    &&& old(self).spec_stats().len() == 0
                    &&& !spec_path_ignored(p@)
                    &&& final(self).spec_pending_dir() == Some(p@)
                    &&& final(self).spec_pending_stat() is None
                    &&& final(self).spec_stats() == old(self).spec_stats()
                    &&& (if old(self).spec_pending_dir() is Some {
                        old(self).spec_pending_dir() == Some(p@) && final(self).spec_dirs()
                            == old(self).spec_dirs()
                    } else {
                        old(self).spec_dirs().len() > 0 && p@ == old(self).spec_dirs().last()
                            && final(self).spec_dirs() == old(self).spec_dirs().drop_last()
                    })
                },
                WalkAction::Done => {
                    &&& !old(self).spec_conflicted()
                    &&& old(self).spec_pending_dir() is None
                    &&& old(self).spec_pending_stat() is None
                    &&& old(self).spec_dirs().len() == 0
                    &&& old(self).spec_stats().len() == 0
                    &&& *final(self) == *old(self)
                },
            },
    {
        proof {
            assert(*self == *old(self));
        }
        if self.conflict {
            return WalkAction::Fail;
        }
        if self.pending_stat.is_some() {
            let p = self.pending_stat.as_ref().unwrap().clone();
            proof {
                assert(self.spec_pending_stat() == Some(p@));
                assert(self.inv());
            }
            return WalkAction::Stat(p);
        }
        if self.pending_dir.is_some() {
            let p = self.pending_dir.as_ref().unwrap().clone();
            proof {
                assert(self.spec_pending_dir() == Some(p@));
                assert(self.inv());
            }
            return WalkAction::Readdir(p);
        }
        let ghost stats0 = self.spec_stats();
        let ghost dirs0 = self.spec_dirs();
        if self.stats.len() > 0 {
            let p = self.stats.pop().unwrap();
            let a = WalkAction::Stat(p.clone());
            self.pending_stat = Some(p);
            proof {
                assert(self.spec_stats() =~= stats0.drop_last());
                assert(self.spec_pending_stat()->Some_0 == stats0.last());
                assert(self.spec_dirs() == old(self).spec_dirs());
                assert(self.spec_emitted() == old(self).spec_emitted());
                assert(self.spec_skipped() == old(self).spec_skipped());
                assert forall|k: int|
                    0 <= k < self.spec_stats().len() implies !spec_path_ignored(
                    #[trigger] self.spec_stats()[k],
                ) by {
                    assert(self.spec_stats()[k] == stats0[k]);
                }
                assert(self.inv());
            }
            return a;
        }
        if self.dirs.len() > 0 {
            let p = self.dirs.pop().unwrap();
            let a = WalkAction::Readdir(p.clone());
            self.pending_dir = Some(p);
            proof {
                assert(self.spec_dirs() =~= dirs0.drop_last());
                assert(self.spec_pending_dir()->Some_0 == dirs0.last());
                assert(self.spec_stats() == old(self).spec_stats());
                assert(self.spec_emitted() == old(self).spec_emitted());
                assert(self.spec_skipped() == old(self).spec_skipped());
                assert forall|k: int|
                    0 <= k < self.spec_dirs().len() implies !spec_path_ignored(
                    #[trigger] self.spec_dirs()[k],
                ) by {
                    assert(self.spec_dirs()[k] == dirs0[k]);
                }
                assert(self.inv());
            }
            return a;
        }
        WalkAction::Done
    }

    /// Feeds back the listing of the directory last asked for. The entries
    /// are processed in order exactly as `spec_listing_effect` lays out.
    pub fn on_listing(&mut self, entries: &Vec<DirEntry>)
        requires
            old(self).inv(),
            old(self).spec_pending_dir() is Some,
        ensures
            final(self).inv(),
            ({
                let eff = spec_listing_effect(old(self).spec_pending_dir()->Some_0, entries@);
                &&& final(self).spec_dirs() == old(self).spec_dirs() + eff.0
                &&& final(self).spec_stats() == old(self).spec_stats() + eff.1
                &&& final(self).spec_found_git() == (old(self).spec_found_git() || eff.2)
                &&& final(self).spec_conflicted() == (old(self).spec_conflicted() || eff.3)
            }),
            final(self).spec_emitted() == old(self).spec_emitted(),
            final(self).spec_skipped() == old(self).spec_skipped(),
            final(self).spec_pending_dir() is None,
            final(self).spec_pending_stat() == old(self).spec_pending_stat(),
            final(self).spec_cap() == old(self).spec_cap(),
    {
        let dir = match self.pending_dir.take() {
            Some(d) => d,
            None => {
                proof {
                    assert(false);
                }
                return ;
            },
        };
        let ghost dv = dir@;
        let ghost eff = spec_listing_effect(dir@, entries@);
        let ghost dirs0 = self.spec_dirs();
        let ghost stats0 = self.spec_stats();
        let ghost git0 = self.git;
        let ghost conflict0 = self.conflict;
        proof {
            assert(dv == old(self).spec_pending_dir()->Some_0);
            assert(dirs0 == old(self).spec_dirs());
            assert(stats0 == old(self).spec_stats());
            assert(git0 == old(self).spec_found_git());
            assert(conflict0 == old(self).spec_conflicted());
            assert(self.spec_emitted() == old(self).spec_emitted());
            assert(self.spec_skipped() == old(self).spec_skipped());
            assert(self.spec_pending_stat() == old(self).spec_pending_stat());
            assert(self.inv());
        }
        let n = entries.len();
        let mut i: usize = 0;
        let ghost mut d_acc: Seq<Seq<char>> = Seq::empty();
        let ghost mut s_acc: Seq<Seq<char>> = Seq::empty();
        let ghost mut g_acc: bool = false;
        proof {
            assert(entries@.skip(0) =~= entries@);
            assert(dirs0 + d_acc =~= dirs0);
            assert(stats0 + s_acc =~= stats0);
        }
        while i < n
            invariant
                i <= n,
                n == entries@.len(),
                self.inv(),
                self.conflict == conflict0,
                self.git == (git0 || g_acc),
                self.spec_dirs() == dirs0 + d_acc,
                self.spec_stats() == stats0 + s_acc,
                self.spec_emitted() == old(self).spec_emitted(),
                self.spec_skipped() == old(self).spec_skipped(),
                self.spec_pending_dir() is None,
                self.spec_pending_stat() == old(self).spec_pending_stat(),
                self.spec_pending_stat() is None,
                self.cap == old(self).spec_cap(),
                dv == old(self).spec_pending_dir()->Some_0,
                dirs0 == old(self).spec_dirs(),
                stats0 == old(self).spec_stats(),
                git0 == old(self).spec_found_git(),
                conflict0 == old(self).spec_conflicted(),
                eff == spec_listing_effect(dv, entries@),
                dv == dir@,
                eff.0 == d_acc + spec_listing_effect(dir@, entries@.skip(i as int)).0,
                eff.1 == s_acc + spec_listing_effect(dir@, entries@.skip(i as int)).1,
                eff.2 == (g_acc || spec_listing_effect(dir@, entries@.skip(i as int)).2),
                eff.3 == spec_listing_effect(dir@, entries@.skip(i as int)).3,
            decreases n - i,
        {
            let ghost rest = spec_listing_effect(dir@, entries@.skip(i as int));
            proof {
                assert(entries@.skip(i as int)[0] == entries@[i as int]);
                assert(entries@.skip(i as int).skip(1) =~= entries@.skip(i as int + 1));
            }
            let entry = &entries[i];
            let fpath = join_path(dir.as_str(), entry.name.as_str());
            if !path_ignored(fpath.as_str()) {
                match entry.kind {
                    EntryKind::Directory => {
                        if str_eq(fpath.as_str(), ".replit-takeout-otbackup") {
                            self.conflict = true;
                            proof {
                                assert(rest.3);
                                assert(eff.0 =~= d_acc);
                                assert(eff.1 =~= s_acc);
                                assert(self.spec_dirs() =~= dirs0 + eff.0);
                                assert(self.spec_stats() =~= stats0 + eff.1);
                                assert(eff.2 == g_acc);
                                assert(eff.3);
                                assert(self.inv());
                            }
                            return ;
                        }
                        if str_eq(fpath.as_str(), ".git") {
                            self.git = true;
                            proof {
                                g_acc = true;
                            }
                        }
                        let ghost before = self.spec_dirs();
                        self.dirs.push(fpath);
                        proof {
                            assert(self.spec_dirs() =~= before.push(rest.0[0]));
                            d_acc = d_acc.push(rest.0[0]);
                            assert(self.spec_dirs() =~= dirs0 + d_acc);
                            assert(eff.0 =~= d_acc + rest.0.skip(1));
                            assert(rest.0.skip(1) =~= spec_listing_effect(
                                dir@,
                                entries@.skip(i as int + 1),
                            ).0);
                        }
                    },
                    EntryKind::Regular => {
                        let ghost before = self.spec_stats();
                        self.stats.push(fpath);
                        proof {
                            assert(self.spec_stats() =~= before.push(rest.1[0]));
                            s_acc = s_acc.push(rest.1[0]);
                            assert(self.spec_stats() =~= stats0 + s_acc);
                            assert(eff.1 =~= s_acc + rest.1.skip(1));
                        }
                    },
                    EntryKind::Other => {},
                }
            }
            i = i + 1;
        }
        proof {
            assert(entries@.skip(n as int) =~= Seq::<DirEntry>::empty());
            assert(eff.0 =~= d_acc);
            assert(eff.1 =~= s_acc);
            assert(self.spec_dirs() =~= dirs0 + eff.0);
            assert(self.spec_stats() =~= stats0 + eff.1);
            assert(eff.2 == g_acc);
            assert(!eff.3);
            assert(self.inv());
        }
    }

    /// Feeds back the byte size of the file last asked for. Oversized
    /// files are recorded as skipped; anything else is emitted unless the
    /// exact same path was emitted before.
    pub fn on_stat(&mut self, size: u64)
        requires
            old(self).inv(),
            old(self).spec_pending_stat() is Some,
        ensures
            final(self).inv(),
            ({
                let p = old(self).spec_pending_stat()->Some_0;
                let em0 = old(self).spec_emitted();
                let sk0 = old(self).spec_skipped();
                let em1 = final(self).spec_emitted();
                let sk1 = final(self).spec_skipped();
                &&& (size > old(self).spec_cap() ==> sk1 == sk0.push(p) && em1 == em0)
                &&& (size <= old(self).spec_cap() && em0.contains(p) ==> em1 == em0 && sk1 == sk0)
                &&& (size <= old(self).spec_cap() && !em0.contains(p) ==> em1 == em0.push(p)
                    && sk1 == sk0)
            }),
            final(self).spec_dirs() == old(self).spec_dirs(),
            final(self).spec_stats() == old(self).spec_stats(),
            final(self).spec_pending_dir() == old(self).spec_pending_dir(),
            final(self).spec_pending_stat() is None,
            final(self).spec_found_git() == old(self).spec_found_git(),
            final(self).spec_conflicted() == old(self).spec_conflicted(),
            final(self).spec_cap() == old(self).spec_cap(),
    {
        let p = match self.pending_stat.take() {
            Some(p) => p,
            None => {
                proof {
                    assert(false);
                }
                return ;
            },
        };
        let ghost pv = p@;
        proof {
            assert(pv == old(self).spec_pending_stat()->Some_0);
            assert(!spec_path_ignored(pv));
            assert(self.spec_emitted() == old(self).spec_emitted());
            assert(self.spec_skipped() == old(self).spec_skipped());
            assert(self.spec_dirs() == old(self).spec_dirs());
            assert(self.spec_stats() == old(self).spec_stats());
            assert(self.spec_pending_dir() == old(self).spec_pending_dir());
            assert(self.inv());
        }
        if size > self.cap {
            let ghost before = self.spec_skipped();
            self.skipped.push(p);
            proof {
                assert(self.spec_skipped() =~= before.push(pv));
                assert(self.inv());
            }
            return ;
        }
        let dup = vec_contains_str(&self.emitted, p.as_str());
        if dup {
            proof {
                assert(old(self).spec_emitted().contains(pv));
                assert(self.inv());
            }
            return ;
        }
        let ghost before = self.spec_emitted();
        self.emitted.push(p);
        proof {
            assert(self.spec_emitted() =~= before.push(pv));
            assert(!old(self).spec_emitted().contains(pv));
            assert(self.inv());
        }
    }

    /// The walker never emits a path with an ignored segment: neither an
    /// ignored path itself nor any of its descendants, whose segment lists
    /// extend it, ever appear among the emitted paths.
    pub proof fn lemma_never_emits_ignored(&self, k: int)
        requires
            self.inv(),
            0 <= k < self.spec_emitted().len(),
        ensures
            !spec_path_ignored(self.spec_emitted()[k]),
    {
    }
}

} // verus!
