use vstd::prelude::*;

use crate::scope::GuardView;
use crate::scope::can_create_all;
use crate::scope::can_enter;
use crate::scope::can_enter_ephemeral;
use crate::scope::can_restore;
use crate::scope::create_all_post;
use crate::scope::enter_post;
use crate::scope::ephemeral_guard;
use crate::scope::ephemeral_post;
use crate::scope::explicit_guard;
use crate::scope::created_guard;
use crate::scope::release_post;
use crate::state::StateView;
use crate::state::prefixes_of;
use crate::state::subtree_of;

verus! {

/// Entering an existing directory makes it the CWD; when the guard ends, the
/// CWD is the pre-call one again, the directories are untouched, and the lock
/// count is back where it was.
pub proof fn lemma_enter_then_release_restores(pre: StateView, target: Seq<Seq<char>>)
    requires
        can_enter(pre, target),
    ensures
        enter_post(pre, target).cwd == target,
        can_restore(enter_post(pre, target), explicit_guard(pre, target)),
        release_post(enter_post(pre, target), explicit_guard(pre, target), true).cwd == pre.cwd,
        release_post(enter_post(pre, target), explicit_guard(pre, target), true).dirs == pre.dirs,
        release_post(enter_post(pre, target), explicit_guard(pre, target), true).lock == pre.lock,
{
}

/// Nested scopes on one thread compose: entering `a`, then `b`, then ending
/// the inner guard makes `a` the CWD again, and ending the outer guard makes
/// the CWD what it was before either scope, with the lock count balanced.
pub proof fn lemma_nested_scopes_restore_in_order(
    pre: StateView,
    a: Seq<Seq<char>>,
    b: Seq<Seq<char>>,
)
    requires
        can_enter(pre, a),
        pre.dirs.contains(b),
    ensures
        ({
            let outer = explicit_guard(pre, a);
            let s1 = enter_post(pre, a);
            let inner = explicit_guard(s1, b);
            let s2 = enter_post(s1, b);
            let s3 = release_post(s2, inner, true);
            let s4 = release_post(s3, outer, true);
            s1.cwd == a && can_enter(s1, b) && s2.cwd == b && can_restore(s2, inner) && s3.cwd == a
                && can_restore(s3, outer) && s4.cwd == pre.cwd && s4.dirs == pre.dirs && s4.lock
                == pre.lock
        }),
{
}

/// Recursive creation succeeds with no regard to which ancestors of the
/// target already exist: right after the call the target exists and is the
/// CWD, and it still exists once the guard has ended.
pub proof fn lemma_create_all_enters_and_persists(pre: StateView, target: Seq<Seq<char>>)
    requires
        can_create_all(pre),
    ensures
        ({
            let g = created_guard(pre, target);
            let mid = create_all_post(pre, target);
            let done = release_post(mid, g, true);
            mid.cwd == target && mid.dirs.contains(target) && can_restore(mid, g) && done.cwd
                == pre.cwd && done.dirs.contains(target) && done.lock == pre.lock
        }),
{
    assert(target.subrange(0, target.len() as int) =~= target);
    assert(prefixes_of(target).contains(target));
}

/// An ephemeral scope's CWD differs from the directory that was active before
/// the call, and once the guard has ended the ephemeral directory no longer
/// exists, while the CWD is the pre-call one again.
pub proof fn lemma_ephemeral_is_fresh_and_removed(pre: StateView, fresh: Seq<Seq<char>>)
    requires
        can_enter_ephemeral(pre),
        !pre.dirs.contains(fresh),
    ensures
        ({
            let g = ephemeral_guard(pre, fresh);
            let mid = ephemeral_post(pre, fresh);
            let done = release_post(mid, g, true);
            mid.cwd == fresh && mid.cwd != pre.cwd && can_restore(mid, g) && !done.dirs.contains(
                fresh,
            ) && done.cwd == pre.cwd && done.lock == pre.lock
        }),
{
    assert(fresh.subrange(0, fresh.len() as int) =~= fresh);
    assert(subtree_of(fresh).contains(fresh));
}

/// Ending a guard gives back exactly one lock acquisition, whether or not the
/// restoration succeeded; under normal conditions — the original directory
/// still exists — restoration is owed and the CWD is the original again.
pub proof fn lemma_release_gives_lock_back_once(pre: StateView, g: GuardView, restored: bool)
    requires
        pre.lock >= 1,
    ensures
        release_post(pre, g, restored).lock == pre.lock - 1,
        can_restore(pre, g) ==> release_post(pre, g, true).cwd == g.original,
{
}

/// A restoration failure is recoverable on the explicit path: when the
/// original directory is gone, restoration is refused, yet the lock
/// acquisition is given back and the CWD is not touched. The implicit end of
/// scope never reaches this situation — it excludes it and the real mechanism
/// aborts the process instead.
pub proof fn lemma_failed_restoration_is_recoverable(pre: StateView, g: GuardView)
    requires
        pre.lock >= 1,
        !pre.dirs.contains(g.original),
    ensures
        !can_restore(pre, g),
        release_post(pre, g, false).cwd == pre.cwd,
        release_post(pre, g, false).lock == pre.lock - 1,
{
}

/// Two scopes serialized by the scope lock — as cross-thread scopes are —
/// each observe their own target while active and leave the state as they
/// found it, so neither ever sees the other's directory.
pub proof fn lemma_serialized_scopes_see_own_target(
    pre: StateView,
    d1: Seq<Seq<char>>,
    d2: Seq<Seq<char>>,
)
    requires
        can_enter(pre, d1),
        pre.dirs.contains(d2),
    ensures
        ({
            let g1 = explicit_guard(pre, d1);
            let m1 = enter_post(pre, d1);
            let s1 = release_post(m1, g1, true);
            let g2 = explicit_guard(s1, d2);
            let m2 = enter_post(s1, d2);
            let s2 = release_post(m2, g2, true);
            m1.cwd == d1 && can_restore(m1, g1) && s1.cwd == pre.cwd && can_enter(s1, d2)
                && m2.cwd == d2 && can_restore(m2, g2) && s2.cwd == pre.cwd && s2.dirs == pre.dirs
                && s2.lock == pre.lock
        }),
{
}

} // verus!
