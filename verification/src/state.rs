use vstd::prelude::*;

use crate::dir_path::DirPath;
use crate::dir_path::is_path_prefix;
use crate::dir_path::parent_of;
use crate::scope::ScopeError;

verus! {

/// The spec-level image of the process state that the mechanism touches: the
/// directories that exist, the current working directory, and how many
/// acquisitions of the process-wide scope lock are outstanding.
#[verifier::ext_equal]
pub ghost struct StateView {
    pub dirs: Set<Seq<Seq<char>>>,
    pub cwd: Seq<Seq<char>>,
    pub lock: nat,
}

/// Whether some entry of `dirs` names `q`.
pub open spec fn has_dir_at(dirs: Seq<DirPath>, q: Seq<Seq<char>>) -> bool {
    exists|i: int| 0 <= i < dirs.len() && (#[trigger] dirs[i])@ == q
}

/// The set of directories that a sequence of `DirPath` values names.
pub open spec fn dir_set(dirs: Seq<DirPath>) -> Set<Seq<Seq<char>>> {
    Set::new(|q: Seq<Seq<char>>| has_dir_at(dirs, q))
}

/// Every prefix of `p` of length at most `n`, each naming an ancestor of `p`
/// (or `p` itself).
pub open spec fn prefixes_upto(p: Seq<Seq<char>>, n: int) -> Set<Seq<Seq<char>>> {
    Set::new(|q: Seq<Seq<char>>| exists|k: int| 0 <= k <= n && q == (#[trigger] p.subrange(0, k)))
}

/// Every prefix of `p`: the root, each ancestor, and `p` itself.
pub open spec fn prefixes_of(p: Seq<Seq<char>>) -> Set<Seq<Seq<char>>> {
    prefixes_upto(p, p.len() as int)
}

/// `root` and everything that lies under it.
pub open spec fn subtree_of(root: Seq<Seq<char>>) -> Set<Seq<Seq<char>>> {
    Set::new(|q: Seq<Seq<char>>| is_path_prefix(root, q))
}

/// The executable model of the process state. `dirs` holds the directories
/// that exist, `cwd` the current working directory (which may have been
/// deleted, in which case it is absent from `dirs`), and `lock_depth` the
/// scope lock's outstanding acquisition count.
#[derive(Debug)]
pub struct ProcessState {
    pub dirs: Vec<DirPath>,
    pub cwd: DirPath,
    pub lock_depth: u64,
}

impl View for ProcessState {
    type V = StateView;

    open spec fn view(&self) -> StateView {
        StateView { dirs: dir_set(self.dirs@), cwd: self.cwd@, lock: self.lock_depth as nat }
    }
}

impl ProcessState {
    /// Whether the directory `p` exists.
    pub fn has_dir(&self, p: &DirPath) -> (r: bool)
        ensures
            r == self@.dirs.contains(p@),
    {
        let mut i: usize = 0;
        while i < self.dirs.len()
            invariant
                i <= self.dirs@.len(),
                forall|j: int| 0 <= j < i ==> (#[trigger] self.dirs@[j])@ != p@,
            decreases self.dirs@.len() - i,
        {
            if self.dirs[i].same_as(p) {
                proof {
                    assert(has_dir_at(self.dirs@, p@));
                }
                return true;
            }
            i = i + 1;
        }
        proof {
            assert(!has_dir_at(self.dirs@, p@));
        }
        false
    }

    /// Read the CWD, as the filesystem reports it. Fails exactly when the CWD
    /// itself no longer exists (it was deleted under the process).
    pub fn read_cwd(&self) -> (r: Result<DirPath, ScopeError>)
        ensures
            r is Ok <==> self@.dirs.contains(self@.cwd),
            r matches Ok(p) ==> p@ == self@.cwd,
            r matches Err(e) ==> e == ScopeError::AccessError,
    {
        if self.has_dir(&self.cwd) {
            Ok(self.cwd.duplicate())
        } else {
            Err(ScopeError::AccessError)
        }
    }

    /// Change the CWD to `p`. Fails exactly when `p` does not exist, and then
    /// leaves the state unchanged.
    pub fn set_cwd(&mut self, p: DirPath) -> (r: Result<(), ScopeError>)
        ensures
            r is Ok <==> old(self)@.dirs.contains(p@),
            r is Ok ==> final(self)@ == (StateView { cwd: p@, ..old(self)@ }),
            r is Err ==> final(self)@ == old(self)@,
            r matches Err(e) ==> e == ScopeError::AccessError,
    {
        if self.has_dir(&p) {
            self.cwd = p;
            Ok(())
        } else {
            Err(ScopeError::AccessError)
        }
    }

    /// Create the directory `p`. Fails exactly when `p` is the root, its
    /// immediate parent is missing, or `p` already exists; on failure the
    /// state is unchanged.
    pub fn create_dir(&mut self, p: &DirPath) -> (r: Result<(), ScopeError>)
        ensures
            r is Ok <==> (p@.len() > 0 && old(self)@.dirs.contains(parent_of(p@)) && !old(
                self,
            )@.dirs.contains(p@)),
            r is Ok ==> final(self)@ == (StateView {
                dirs: old(self)@.dirs.insert(p@),
                ..old(self)@
            }),
            r is Err ==> final(self)@ == old(self)@,
            r matches Err(e) ==> e == ScopeError::CreationError,
    {
        if p.components.len() == 0 {
            return Err(ScopeError::CreationError);
        }
        let par = p.prefix(p.components.len() - 1);
        proof {
            assert(par@ == parent_of(p@));
        }
        if !self.has_dir(&par) {
            return Err(ScopeError::CreationError);
        }
        if self.has_dir(p) {
            return Err(ScopeError::CreationError);
        }
        self.dirs.push(p.duplicate());
        proof {
            lemma_dir_set_push(old(self).dirs@, self.dirs@[self.dirs@.len() - 1], p@);
            assert(self@ =~= (StateView { dirs: old(self)@.dirs.insert(p@), ..old(self)@ }));
        }
        Ok(())
    }

    /// Create the directory `p` together with every missing ancestor. In this
    /// model nothing conflicts with a directory name, so the call always
    /// succeeds, also where `p` or some ancestors already exist.
    pub fn create_dir_all(&mut self, p: &DirPath) -> (r: Result<(), ScopeError>)
        ensures
            r is Ok,
            final(self)@ == (StateView {
                dirs: old(self)@.dirs.union(prefixes_of(p@)),
                ..old(self)@
            }),
    {
        let ghost base = old(self)@.dirs;
        let root = DirPath { components: Vec::new() };
        proof {
            assert(root@ =~= p@.subrange(0, 0));
        }
        if !self.has_dir(&root) {
            let ghost before = self.dirs@;
            self.dirs.push(root);
            proof {
                lemma_dir_set_push(before, self.dirs@[self.dirs@.len() - 1], p@.subrange(0, 0));
            }
        }
        proof {
            lemma_add_prefix(base, base, p@, 0);
        }
        let mut i: usize = 0;
        while i < p.components.len()
            invariant
                i <= p.components@.len(),
                self.cwd == old(self).cwd,
                self.lock_depth == old(self).lock_depth,
                dir_set(self.dirs@) == base.union(prefixes_upto(p@, i as int)),
            decreases p.components@.len() - i,
        {
            let pre = p.prefix(i + 1);
            let ghost cur = dir_set(self.dirs@);
            if !self.has_dir(&pre) {
                let ghost before = self.dirs@;
                self.dirs.push(pre);
                proof {
                    lemma_dir_set_push(
                        before,
                        self.dirs@[self.dirs@.len() - 1],
                        p@.subrange(0, i + 1),
                    );
                }
            }
            proof {
                lemma_add_prefix(base, cur, p@, i + 1);
            }
            i = i + 1;
        }
        proof {
            assert(self@ =~= (StateView {
                dirs: old(self)@.dirs.union(prefixes_of(p@)),
                ..old(self)@
            }));
        }
        Ok(())
    }

    /// Delete the directory `root` and everything under it, recursively. This
    /// also models a deletion that happens outside the mechanism, such as the
    /// original directory disappearing while a scope is active.
    pub fn remove_tree(&mut self, root: &DirPath)
        ensures
            final(self)@ == (StateView {
                dirs: old(self)@.dirs.difference(subtree_of(root@)),
                ..old(self)@
            }),
    {
        let mut kept: Vec<DirPath> = Vec::new();
        let mut i: usize = 0;
        while i < self.dirs.len()
            invariant
                i <= self.dirs@.len(),
                forall|q: Seq<Seq<char>>|
                    has_dir_at(kept@, q) <==> (exists|j: int|
                        0 <= j < i && (#[trigger] self.dirs@[j])@ == q && !is_path_prefix(
                            root@,
                            q,
                        )),
            decreases self.dirs@.len() - i,
        {
            let ghost kept_before = kept@;
            if !self.dirs[i].starts_with(root) {
                kept.push(self.dirs[i].duplicate());
                proof {
                    assert forall|q: Seq<Seq<char>>| has_dir_at(kept@, q) implies (exists|j: int|
                        0 <= j < i + 1 && (#[trigger] self.dirs@[j])@ == q && !is_path_prefix(
                            root@,
                            q,
                        )) by {
                        let m = choose|m: int| 0 <= m < kept@.len() && (#[trigger] kept@[m])@ == q;
                        if m < kept_before.len() {
                            assert(has_dir_at(kept_before, q));
                        } else {
                            assert(self.dirs@[i as int]@ == q);
                        }
                    }
                    assert forall|q: Seq<Seq<char>>|
                        (exists|j: int|
                            0 <= j < i + 1 && (#[trigger] self.dirs@[j])@ == q && !is_path_prefix(
                                root@,
                                q,
                            )) implies has_dir_at(kept@, q) by {
                        let j = choose|j: int|
                            0 <= j < i + 1 && (#[trigger] self.dirs@[j])@ == q && !is_path_prefix(
                                root@,
                                q,
                            );
                        if j < i {
                            assert(has_dir_at(kept_before, q));
                            let m = choose|m: int|
                                0 <= m < kept_before.len() && (#[trigger] kept_before[m])@ == q;
                            assert(kept@[m]@ == q);
                        } else {
                            assert(kept@[kept@.len() - 1]@ == q);
                        }
                    }
                }
            } else {
                proof {
                    assert forall|q: Seq<Seq<char>>|
                        (exists|j: int|
                            0 <= j < i + 1 && (#[trigger] self.dirs@[j])@ == q && !is_path_prefix(
                                root@,
                                q,
                            )) implies has_dir_at(kept@, q) by {
                        let j = choose|j: int|
                            0 <= j < i + 1 && (#[trigger] self.dirs@[j])@ == q && !is_path_prefix(
                                root@,
                                q,
                            );
                        assert(0 <= j < i && self.dirs@[j]@ == q && !is_path_prefix(root@, q));
                    }
                }
            }
            i = i + 1;
        }
        self.dirs = kept;
        proof {
            assert(self@.dirs =~= old(self)@.dirs.difference(subtree_of(root@)));
            assert(self@ =~= (StateView {
                dirs: old(self)@.dirs.difference(subtree_of(root@)),
                ..old(self)@
            }));
        }
    }
}

/// Appending one path to `dirs` adds exactly that path to the set of
/// directories it names.
pub proof fn lemma_dir_set_push(dirs: Seq<DirPath>, x: DirPath, xv: Seq<Seq<char>>)
    requires
        x@ == xv,
    ensures
        dir_set(dirs.push(x)) == dir_set(dirs).insert(xv),
{
    assert forall|q: Seq<Seq<char>>| has_dir_at(dirs.push(x), q) implies dir_set(dirs).insert(
        xv,
    ).contains(q) by {
        let i = choose|i: int| 0 <= i < dirs.push(x).len() && (#[trigger] dirs.push(x)[i])@ == q;
        if i < dirs.len() {
            assert(dirs[i]@ == q);
        }
    }
    assert forall|q: Seq<Seq<char>>| dir_set(dirs).insert(xv).contains(q) implies has_dir_at(
        dirs.push(x),
        q,
    ) by {
        if q == xv {
            assert(dirs.push(x)[dirs.len() as int]@ == q);
        } else {
            let i = choose|i: int| 0 <= i < dirs.len() && (#[trigger] dirs[i])@ == q;
            assert(dirs.push(x)[i]@ == q);
        }
    }
    assert(dir_set(dirs.push(x)) =~= dir_set(dirs).insert(xv));
}

/// Bringing the length-`n` prefix of `p` into a set that already holds every
/// shorter prefix extends the running union of prefixes by one step.
proof fn lemma_add_prefix(base: Set<Seq<Seq<char>>>, cur: Set<Seq<Seq<char>>>, p: Seq<Seq<char>>, n: int)
    requires
        0 <= n <= p.len(),
        n == 0 ==> cur == base,
        n > 0 ==> cur == base.union(prefixes_upto(p, n - 1)),
    ensures
        cur.insert(p.subrange(0, n)) == base.union(prefixes_upto(p, n)),
        cur.contains(p.subrange(0, n)) ==> cur == base.union(prefixes_upto(p, n)),
{
    assert forall|q: Seq<Seq<char>>| cur.insert(p.subrange(0, n)).contains(q) implies base.union(
        prefixes_upto(p, n),
    ).contains(q) by {
        if q == p.subrange(0, n) {
            assert(prefixes_upto(p, n).contains(q));
        } else if n > 0 && !base.contains(q) {
            let k = choose|k: int| 0 <= k <= n - 1 && q == (#[trigger] p.subrange(0, k));
            assert(prefixes_upto(p, n).contains(q));
        }
    }
    assert forall|q: Seq<Seq<char>>| base.union(prefixes_upto(p, n)).contains(q) implies cur.insert(
        p.subrange(0, n),
    ).contains(q) by {
        if !base.contains(q) {
            let k = choose|k: int| 0 <= k <= n && q == (#[trigger] p.subrange(0, k));
            if k < n {
                assert(prefixes_upto(p, n - 1).contains(q));
            }
        }
    }
    assert(cur.insert(p.subrange(0, n)) =~= base.union(prefixes_upto(p, n)));
    if cur.contains(p.subrange(0, n)) {
        assert(cur =~= cur.insert(p.subrange(0, n)));
    }
}

} // verus!
