use vstd::prelude::*;

use crate::dir_path::DirPath;
use crate::dir_path::parent_of;
use crate::state::ProcessState;
use crate::state::StateView;
use crate::state::prefixes_of;
use crate::state::subtree_of;

verus! {

/// The errors the mechanism reports.
#[derive(Clone, Copy, Debug, PartialEq, Eq, Structural)]
pub enum ScopeError {
    /// The target path does not exist on entering, or the CWD itself could
    /// not be read.
    AccessError,
    /// Directory creation failed: the immediate parent is missing, or the
    /// name is already taken.
    CreationError,
    /// The original directory was no longer there when an explicit `leave`
    /// tried to restore it.
    RestorationError,
}

/// How a guard came by its target directory, spec-level.
pub ghost enum TargetView {
    /// An explicit path supplied by the caller.
    Explicit(Seq<Seq<char>>),
    /// A directory the constructor created; it persists after the scope ends.
    Created(Seq<Seq<char>>),
    /// An ephemeral directory; the guard deletes it, recursively, when the
    /// scope ends.
    Ephemeral(Seq<Seq<char>>),
}

impl TargetView {
    /// The target directory itself.
    pub open spec fn dir(self) -> Seq<Seq<char>> {
        match self {
            TargetView::Explicit(p) => p,
            TargetView::Created(p) => p,
            TargetView::Ephemeral(p) => p,
        }
    }

    /// Whether ending the guard deletes the target.
    pub open spec fn is_ephemeral(self) -> bool {
        self matches TargetView::Ephemeral(_)
    }
}

/// What a guard holds, spec-level: the CWD to restore and the target entered.
#[verifier::ext_equal]
pub ghost struct GuardView {
    pub original: Seq<Seq<char>>,
    pub target: TargetView,
}

/// Entering an existing directory is possible when the CWD can be read and
/// the target exists.
pub open spec fn can_enter(pre: StateView, target: Seq<Seq<char>>) -> bool {
    pre.dirs.contains(pre.cwd) && pre.dirs.contains(target)
}

/// The state after entering `target`: only the CWD and the lock count change.
pub open spec fn enter_post(pre: StateView, target: Seq<Seq<char>>) -> StateView {
    StateView { dirs: pre.dirs, cwd: target, lock: pre.lock + 1 }
}

/// The guard that entering `target` hands out.
pub open spec fn explicit_guard(pre: StateView, target: Seq<Seq<char>>) -> GuardView {
    GuardView { original: pre.cwd, target: TargetView::Explicit(target) }
}

/// Creating-and-entering `target` is possible when the CWD can be read, the
/// target's immediate parent exists, and the target itself does not yet.
pub open spec fn can_create(pre: StateView, target: Seq<Seq<char>>) -> bool {
    pre.dirs.contains(pre.cwd) && target.len() > 0 && pre.dirs.contains(parent_of(target))
        && !pre.dirs.contains(target)
}

/// The state after creating and entering `target`.
pub open spec fn create_post(pre: StateView, target: Seq<Seq<char>>) -> StateView {
    StateView { dirs: pre.dirs.insert(target), cwd: target, lock: pre.lock + 1 }
}

/// The guard that creating-and-entering `target` hands out.
pub open spec fn created_guard(pre: StateView, target: Seq<Seq<char>>) -> GuardView {
    GuardView { original: pre.cwd, target: TargetView::Created(target) }
}

/// Recursive creation needs only a readable CWD: missing ancestors are no
/// obstacle, and segments that already exist are kept.
pub open spec fn can_create_all(pre: StateView) -> bool {
    pre.dirs.contains(pre.cwd)
}

/// The state after recursively creating and entering `target`: every prefix
/// of the target now exists.
pub open spec fn create_all_post(pre: StateView, target: Seq<Seq<char>>) -> StateView {
    StateView { dirs: pre.dirs.union(prefixes_of(target)), cwd: target, lock: pre.lock + 1 }
}

/// Entering a fresh ephemeral directory needs only a readable CWD.
pub open spec fn can_enter_ephemeral(pre: StateView) -> bool {
    pre.dirs.contains(pre.cwd)
}

/// The state after creating and entering the fresh directory `fresh`.
pub open spec fn ephemeral_post(pre: StateView, fresh: Seq<Seq<char>>) -> StateView {
    StateView { dirs: pre.dirs.insert(fresh), cwd: fresh, lock: pre.lock + 1 }
}

/// The guard that entering an ephemeral directory hands out.
pub open spec fn ephemeral_guard(pre: StateView, fresh: Seq<Seq<char>>) -> GuardView {
    GuardView { original: pre.cwd, target: TargetView::Ephemeral(fresh) }
}

/// Restoration succeeds exactly when the guard's original directory still
/// exists.
pub open spec fn can_restore(pre: StateView, g: GuardView) -> bool {
    pre.dirs.contains(g.original)
}

/// The state after a guard ends, whether by an explicit `leave` or by the
/// implicit end of scope: one lock acquisition is given back, the CWD is the
/// original again when restoration succeeded (`restored`) and is untouched
/// otherwise, and an ephemeral target is deleted together with everything
/// under it.
pub open spec fn release_post(pre: StateView, g: GuardView, restored: bool) -> StateView
    recommends
        pre.lock >= 1,
{
    StateView {
        dirs: if g.target.is_ephemeral() {
            pre.dirs.difference(subtree_of(g.target.dir()))
        } else {
            pre.dirs
        },
        cwd: if restored {
            g.original
        } else {
            pre.cwd
        },
        lock: (pre.lock - 1) as nat,
    }
}

enum Target {
    Explicit(DirPath),
    Created(DirPath),
    Ephemeral(DirPath),
}

impl View for Target {
    type V = TargetView;

    closed spec fn view(&self) -> TargetView {
        match self {
            Target::Explicit(p) => TargetView::Explicit(p@),
            Target::Created(p) => TargetView::Created(p@),
            Target::Ephemeral(p) => TargetView::Ephemeral(p@),
        }
    }
}

/// A scoped change of the CWD: one active scope of the mechanism.
///
/// A guard is created only by the constructors, which record the pre-call CWD
/// and acquire the scope lock, and it is consumed exactly once, by [`leave`]
/// or by [`end`], which restore that CWD and give the acquisition back. Both
/// consume the guard, so no operation can reach a guard whose scope has
/// ended, and the lock token cannot be released twice.
///
/// [`leave`]: WithDir::leave
/// [`end`]: WithDir::end
pub struct WithDir {
    original_dir: DirPath,
    target: Target,
}

impl View for WithDir {
    type V = GuardView;

    closed spec fn view(&self) -> GuardView {
        GuardView { original: self.original_dir@, target: self.target@ }
    }
}

impl WithDir {
    /// Enter the existing directory `path`: acquire the scope lock, record
    /// the CWD, and change it to `path`. Fails with [`ScopeError::AccessError`]
    /// exactly when the CWD cannot be read or `path` does not exist, and then
    /// leaves the state unchanged, the lock given back.
    pub fn new(st: &mut ProcessState, path: DirPath) -> (r: Result<WithDir, ScopeError>)
        requires
            old(st)@.lock < u64::MAX,
        ensures
            r is Ok <==> can_enter(old(st)@, path@),
            r matches Ok(g) ==> final(st)@ == enter_post(old(st)@, path@) && g@ == explicit_guard(
                old(st)@,
                path@,
            ),
            r is Err ==> final(st)@ == old(st)@,
            r matches Err(e) ==> e == ScopeError::AccessError,
    {
        if !st.has_dir(&st.cwd) {
            return Err(ScopeError::AccessError);
        }
        if !st.has_dir(&path) {
            return Err(ScopeError::AccessError);
        }
        let original_dir = st.cwd.duplicate();
        let target_dir = path.duplicate();
        st.cwd = path;
        st.lock_depth = st.lock_depth + 1;
        proof {
            assert(st@ =~= enter_post(old(st)@, st@.cwd));
        }
        Ok(WithDir { original_dir, target: Target::Explicit(target_dir) })
    }

    /// Create the directory `path` and enter it; the directory persists after
    /// the scope ends. Fails with [`ScopeError::AccessError`] when the CWD
    /// cannot be read, and with [`ScopeError::CreationError`] when `path`'s
    /// immediate parent is missing or `path` is already taken; on failure the
    /// state is unchanged, the lock given back.
    pub fn create(st: &mut ProcessState, path: DirPath) -> (r: Result<WithDir, ScopeError>)
        requires
            old(st)@.lock < u64::MAX,
        ensures
            r is Ok <==> can_create(old(st)@, path@),
            r matches Ok(g) ==> final(st)@ == create_post(old(st)@, path@) && g@ == created_guard(
                old(st)@,
                path@,
            ),
            r is Err ==> final(st)@ == old(st)@,
            r matches Err(e) ==> e == (if !old(st)@.dirs.contains(old(st)@.cwd) {
                ScopeError::AccessError
            } else {
                ScopeError::CreationError
            }),
    {
        if !st.has_dir(&st.cwd) {
            return Err(ScopeError::AccessError);
        }
        match st.create_dir(&path) {
            Ok(()) => {},
            Err(_) => {
                return Err(ScopeError::CreationError);
            },
        }
        let original_dir = st.cwd.duplicate();
        let target_dir = path.duplicate();
        st.cwd = path;
        st.lock_depth = st.lock_depth + 1;
        proof {
            assert(st@ =~= create_post(old(st)@, st@.cwd));
        }
        Ok(WithDir { original_dir, target: Target::Created(target_dir) })
    }

    /// Create the directory `path`, together with every missing ancestor, and
    /// enter it; all created directories persist after the scope ends. Fails
    /// with [`ScopeError::AccessError`] exactly when the CWD cannot be read,
    /// and then leaves the state unchanged, the lock given back.
    pub fn create_all(st: &mut ProcessState, path: DirPath) -> (r: Result<WithDir, ScopeError>)
        requires
            old(st)@.lock < u64::MAX,
        ensures
            r is Ok <==> can_create_all(old(st)@),
            r matches Ok(g) ==> final(st)@ == create_all_post(old(st)@, path@) && g@
                == created_guard(old(st)@, path@),
            r is Err ==> final(st)@ == old(st)@,
            r matches Err(e) ==> e == ScopeError::AccessError,
    {
        if !st.has_dir(&st.cwd) {
            return Err(ScopeError::AccessError);
        }
        let original_dir = st.cwd.duplicate();
        let target_dir = path.duplicate();
        match st.create_dir_all(&path) {
            Ok(()) => {},
            Err(_) => {
                proof {
                    assert(false);
                }
            },
        }
        st.cwd = path;
        st.lock_depth = st.lock_depth + 1;
        proof {
            assert(st@ =~= create_all_post(old(st)@, st@.cwd));
        }
        Ok(WithDir { original_dir, target: Target::Created(target_dir) })
    }

    /// Enter a freshly created ephemeral directory, handed in by the
    /// filesystem collaborator as `fresh`; the collaborator guarantees that
    /// the name is new, which is what the `requires` records. The directory
    /// is deleted, recursively, when the guard ends. Fails with
    /// [`ScopeError::AccessError`] exactly when the CWD cannot be read, and
    /// then leaves the state unchanged, the lock given back.
    pub fn temp(st: &mut ProcessState, fresh: DirPath) -> (r: Result<WithDir, ScopeError>)
        requires
            old(st)@.lock < u64::MAX,
            !old(st)@.dirs.contains(fresh@),
        ensures
            r is Ok <==> can_enter_ephemeral(old(st)@),
            r matches Ok(g) ==> final(st)@ == ephemeral_post(old(st)@, fresh@) && g@
                == ephemeral_guard(old(st)@, fresh@) && final(st)@.cwd != old(st)@.cwd,
            r is Err ==> final(st)@ == old(st)@,
            r matches Err(e) ==> e == ScopeError::AccessError,
    {
        if !st.has_dir(&st.cwd) {
            return Err(ScopeError::AccessError);
        }
        let original_dir = st.cwd.duplicate();
        let target_dir = fresh.duplicate();
        let ghost before = st.dirs@;
        st.dirs.push(fresh.duplicate());
        proof {
            crate::state::lemma_dir_set_push(before, st.dirs@[st.dirs@.len() - 1], fresh@);
        }
        st.cwd = fresh;
        st.lock_depth = st.lock_depth + 1;
        proof {
            assert(st@ =~= ephemeral_post(old(st)@, st@.cwd));
        }
        Ok(WithDir { original_dir, target: Target::Ephemeral(target_dir) })
    }

    /// The path the guard switched to, valid for the guard's whole lifetime.
    pub fn path(&self) -> (r: &DirPath)
        ensures
            r@ == self@.target.dir(),
    {
        match &self.target {
            Target::Explicit(p) => p,
            Target::Created(p) => p,
            Target::Ephemeral(p) => p,
        }
    }

    /// End the scope explicitly: restore the CWD to the recorded original,
    /// delete an ephemeral target, and give the lock acquisition back. A
    /// failed restoration — the original directory is gone — is reported as
    /// [`ScopeError::RestorationError`] rather than aborting, and the lock is
    /// given back all the same. Consuming `self`, this is the one way to
    /// observe a restoration failure as a recoverable error. A live guard
    /// holds one acquisition of the scope lock, which is what the `requires`
    /// on the lock count records.
    pub fn leave(self, st: &mut ProcessState) -> (r: Result<(), ScopeError>)
        requires
            old(st)@.lock >= 1,
        ensures
            r is Ok <==> can_restore(old(st)@, self@),
            final(st)@ == release_post(old(st)@, self@, can_restore(old(st)@, self@)),
            r matches Err(e) ==> e == ScopeError::RestorationError,
    {
        let ghost gv = self@;
        let WithDir { original_dir, target } = self;
        let restored = st.has_dir(&original_dir);
        if restored {
            st.cwd = original_dir;
        }
        match &target {
            Target::Ephemeral(p) => st.remove_tree(p),
            _ => {},
        }
        st.lock_depth = st.lock_depth - 1;
        proof {
            assert(st@ =~= release_post(old(st)@, gv, can_restore(old(st)@, gv)));
        }
        if restored {
            Ok(())
        } else {
            Err(ScopeError::RestorationError)
        }
    }

    /// The implicit end of scope. The real mechanism runs this from the
    /// guard's destructor and, should the original directory be gone, aborts
    /// the process rather than continue with an unknown CWD — so, unlike
    /// [`leave`], this path asks up front that the original directory still
    /// exist instead of reporting its absence.
    ///
    /// [`leave`]: WithDir::leave
    pub fn end(self, st: &mut ProcessState)
        requires
            old(st)@.lock >= 1,
            can_restore(old(st)@, self@),
        ensures
            final(st)@ == release_post(old(st)@, self@, true),
    {
        match self.leave(st) {
            Ok(()) => {},
            Err(_) => {
                proof {
                    assert(false);
                }
            },
        }
    }
}

} // verus!
