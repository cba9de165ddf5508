use with_dir::DirPath;
use with_dir::ProcessState;
use with_dir::ScopeError;
use with_dir::WithDir;

fn path(parts: &[&str]) -> DirPath {
    DirPath { components: parts.iter().map(|s| String::from(*s)).collect() }
}

fn state(dirs: &[&[&str]], cwd: &[&str]) -> ProcessState {
    ProcessState {
        dirs: dirs.iter().map(|p| path(p)).collect(),
        cwd: path(cwd),
        lock_depth: 0,
    }
}

#[test]
fn enter_makes_target_the_cwd_and_leave_restores() {
    let mut st = state(&[&[], &["a"]], &[]);
    let guard = WithDir::new(&mut st, path(&["a"])).unwrap();
    assert!(st.cwd.same_as(&path(&["a"])));
    assert!(st.read_cwd().unwrap().same_as(&path(&["a"])));
    assert_eq!(st.lock_depth, 1);
    assert!(guard.leave(&mut st).is_ok());
    assert!(st.cwd.same_as(&path(&[])));
    assert_eq!(st.lock_depth, 0);
}

#[test]
fn nested_scopes_restore_in_order() {
    let mut st = state(&[&[], &["a"], &["a", "b"]], &[]);
    let outer = WithDir::new(&mut st, path(&["a"])).unwrap();
    assert!(st.cwd.same_as(&path(&["a"])));
    let inner = WithDir::new(&mut st, path(&["a", "b"])).unwrap();
    assert!(st.cwd.same_as(inner.path()));
    assert!(st.cwd.same_as(&path(&["a", "b"])));
    assert_eq!(st.lock_depth, 2);
    assert!(inner.leave(&mut st).is_ok());
    assert!(st.cwd.same_as(&path(&["a"])));
    outer.end(&mut st);
    assert!(st.cwd.same_as(&path(&[])));
    assert_eq!(st.lock_depth, 0);
}

#[test]
fn create_all_succeeds_with_missing_parents_and_persists() {
    let mut st = state(&[&[]], &[]);
    assert!(!st.has_dir(&path(&["a"])));
    let guard = WithDir::create_all(&mut st, path(&["a", "create"])).unwrap();
    assert!(st.cwd.same_as(&path(&["a", "create"])));
    assert!(st.has_dir(&path(&["a", "create"])));
    assert!(st.has_dir(&path(&["a"])));
    assert!(guard.leave(&mut st).is_ok());
    assert!(st.has_dir(&path(&["a", "create"])));
    assert!(st.cwd.same_as(&path(&[])));
}

#[test]
fn create_enters_new_directory_under_existing_parent() {
    let mut st = state(&[&[]], &[]);
    let outer = WithDir::create_all(&mut st, path(&["a", "create"])).unwrap();
    assert!(st.cwd.same_as(outer.path()));
    let inner = WithDir::create(&mut st, path(&["a", "create", "b"])).unwrap();
    assert!(st.cwd.same_as(inner.path()));
    assert!(st.cwd.same_as(&path(&["a", "create", "b"])));
    assert!(inner.leave(&mut st).is_ok());
    assert!(outer.leave(&mut st).is_ok());
    assert!(st.cwd.same_as(&path(&[])));
    assert!(st.has_dir(&path(&["a", "create", "b"])));
}

#[test]
fn ephemeral_dir_differs_from_prior_cwd_and_is_deleted() {
    let mut st = state(&[&[], &["home"]], &["home"]);
    let guard = WithDir::temp(&mut st, path(&["tmp1"])).unwrap();
    assert!(!st.cwd.same_as(&path(&["home"])));
    assert!(st.cwd.same_as(&path(&["tmp1"])));
    assert!(st.has_dir(&path(&["tmp1"])));
    assert!(guard.leave(&mut st).is_ok());
    assert!(!st.has_dir(&path(&["tmp1"])));
    assert!(st.cwd.same_as(&path(&["home"])));
    assert_eq!(st.lock_depth, 0);
}

#[test]
fn ephemeral_subtree_is_deleted_recursively() {
    let mut st = state(&[&[], &["home"]], &["home"]);
    let guard = WithDir::temp(&mut st, path(&["tmp2"])).unwrap();
    let nested = WithDir::create_all(&mut st, path(&["tmp2", "work", "deep"])).unwrap();
    assert!(nested.leave(&mut st).is_ok());
    guard.end(&mut st);
    assert!(!st.has_dir(&path(&["tmp2"])));
    assert!(!st.has_dir(&path(&["tmp2", "work"])));
    assert!(!st.has_dir(&path(&["tmp2", "work", "deep"])));
    assert!(st.has_dir(&path(&["home"])));
    assert!(st.cwd.same_as(&path(&["home"])));
}

#[test]
fn enter_missing_target_is_access_error_and_changes_nothing() {
    let mut st = state(&[&[], &["a"]], &["a"]);
    let r = WithDir::new(&mut st, path(&["b"]));
    assert_eq!(r.err().unwrap(), ScopeError::AccessError);
    assert!(st.cwd.same_as(&path(&["a"])));
    assert_eq!(st.lock_depth, 0);
}

#[test]
fn enter_with_deleted_cwd_is_access_error() {
    let mut st = state(&[&[], &["a"]], &["gone"]);
    let r = WithDir::new(&mut st, path(&["a"]));
    assert_eq!(r.err().unwrap(), ScopeError::AccessError);
    assert!(st.cwd.same_as(&path(&["gone"])));
    assert_eq!(st.lock_depth, 0);
}

#[test]
fn create_without_parent_is_creation_error() {
    let mut st = state(&[&[]], &[]);
    let r = WithDir::create(&mut st, path(&["a", "b"]));
    assert_eq!(r.err().unwrap(), ScopeError::CreationError);
    assert!(!st.has_dir(&path(&["a", "b"])));
    assert_eq!(st.lock_depth, 0);
}

#[test]
fn create_over_existing_directory_is_creation_error() {
    let mut st = state(&[&[], &["a"]], &[]);
    let r = WithDir::create(&mut st, path(&["a"]));
    assert_eq!(r.err().unwrap(), ScopeError::CreationError);
    assert!(st.cwd.same_as(&path(&[])));
}

#[test]
fn leave_after_original_dir_deleted_is_restoration_error() {
    let mut st = state(&[&[], &["a"], &["b"]], &["a"]);
    let guard = WithDir::new(&mut st, path(&["b"])).unwrap();
    st.remove_tree(&path(&["a"]));
    let r = guard.leave(&mut st);
    assert_eq!(r.err().unwrap(), ScopeError::RestorationError);
    assert!(st.cwd.same_as(&path(&["b"])));
    assert_eq!(st.lock_depth, 0);
}

#[test]
fn ephemeral_dir_is_deleted_even_when_restoration_fails() {
    let mut st = state(&[&[], &["home"]], &["home"]);
    let guard = WithDir::temp(&mut st, path(&["tmp3"])).unwrap();
    st.remove_tree(&path(&["home"]));
    let r = guard.leave(&mut st);
    assert_eq!(r.err().unwrap(), ScopeError::RestorationError);
    assert!(!st.has_dir(&path(&["tmp3"])));
    assert!(st.cwd.same_as(&path(&["tmp3"])));
    assert_eq!(st.lock_depth, 0);
}

#[test]
fn path_returns_the_entered_target() {
    let mut st = state(&[&[], &["a"]], &[]);
    let guard = WithDir::new(&mut st, path(&["a"])).unwrap();
    assert!(guard.path().same_as(&path(&["a"])));
    assert!(guard.leave(&mut st).is_ok());
    let mut st2 = state(&[&[]], &[]);
    let guard2 = WithDir::temp(&mut st2, path(&["t"])).unwrap();
    assert!(guard2.path().same_as(&path(&["t"])));
    guard2.end(&mut st2);
}

#[test]
fn serialized_scopes_each_see_their_own_target() {
    let mut st = state(&[&[], &["a", "1"], &["a", "2"]], &[]);
    let mut mismatches: usize = 0;
    let mut i: usize = 0;
    while i < 100 {
        let own = if i % 2 == 0 { path(&["a", "1"]) } else { path(&["a", "2"]) };
        let guard = WithDir::new(&mut st, own).unwrap();
        let seen = st.read_cwd().unwrap();
        let expected = if i % 2 == 0 { path(&["a", "1"]) } else { path(&["a", "2"]) };
        if !seen.same_as(&expected) {
            mismatches += 1;
        }
        guard.end(&mut st);
        i += 1;
    }
    assert_eq!(mismatches, 0);
    assert!(st.cwd.same_as(&path(&[])));
    assert_eq!(st.lock_depth, 0);
}
