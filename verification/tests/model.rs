use with_dir::DirPath;
use with_dir::ProcessState;
use with_dir::ScopeError;

fn path(parts: &[&str]) -> DirPath {
    DirPath { components: parts.iter().map(|s| String::from(*s)).collect() }
}

fn state(dirs: &[&[&str]], cwd: &[&str]) -> ProcessState {
    ProcessState {
        dirs: dirs.iter().map(|p| path(p)).collect(),
        cwd: path(cwd),
        lock_depth: 0,
    }
}

#[test]
fn read_cwd_fails_when_cwd_was_deleted() {
    let st = state(&[&[]], &["gone"]);
    assert_eq!(st.read_cwd().err().unwrap(), ScopeError::AccessError);
}

#[test]
fn set_cwd_to_missing_dir_fails_and_changes_nothing() {
    let mut st = state(&[&[], &["a"]], &[]);
    assert_eq!(st.set_cwd(path(&["b"])).err().unwrap(), ScopeError::AccessError);
    assert!(st.cwd.same_as(&path(&[])));
    assert!(st.set_cwd(path(&["a"])).is_ok());
    assert!(st.cwd.same_as(&path(&["a"])));
}

#[test]
fn create_dir_needs_immediate_parent() {
    let mut st = state(&[&[]], &[]);
    assert_eq!(st.create_dir(&path(&["a", "b"])).err().unwrap(), ScopeError::CreationError);
    assert!(st.create_dir(&path(&["a"])).is_ok());
    assert!(st.create_dir(&path(&["a", "b"])).is_ok());
    assert!(st.has_dir(&path(&["a", "b"])));
    assert_eq!(st.create_dir(&path(&["a"])).err().unwrap(), ScopeError::CreationError);
    assert_eq!(st.create_dir(&path(&[])).err().unwrap(), ScopeError::CreationError);
}

#[test]
fn create_dir_all_creates_every_missing_prefix() {
    let mut st = state(&[&[]], &[]);
    assert!(st.create_dir_all(&path(&["x", "y", "z"])).is_ok());
    assert!(st.has_dir(&path(&[])));
    assert!(st.has_dir(&path(&["x"])));
    assert!(st.has_dir(&path(&["x", "y"])));
    assert!(st.has_dir(&path(&["x", "y", "z"])));
    assert!(!st.has_dir(&path(&["x", "y", "z", "w"])));
    assert!(st.create_dir_all(&path(&["x", "y"])).is_ok());
    assert!(st.has_dir(&path(&["x", "y"])));
}

#[test]
fn remove_tree_takes_only_the_subtree() {
    let mut st = state(&[&[], &["a"], &["a", "b"], &["c"]], &[]);
    st.remove_tree(&path(&["a"]));
    assert!(!st.has_dir(&path(&["a"])));
    assert!(!st.has_dir(&path(&["a", "b"])));
    assert!(st.has_dir(&path(&["c"])));
    assert!(st.has_dir(&path(&[])));
}

#[test]
fn path_comparisons() {
    let a = path(&["a"]);
    let ab = path(&["a", "b"]);
    let a2 = path(&["a"]);
    assert!(a.same_as(&a2));
    assert!(!a.same_as(&ab));
    assert!(ab.starts_with(&a));
    assert!(ab.starts_with(&ab));
    assert!(ab.starts_with(&path(&[])));
    assert!(!a.starts_with(&ab));
    assert!(!path(&["ax"]).starts_with(&a));
    let d = ab.duplicate();
    assert!(d.same_as(&ab));
    let p = ab.prefix(1);
    assert!(p.same_as(&a));
    assert!(ab.prefix(0).same_as(&path(&[])));
}
