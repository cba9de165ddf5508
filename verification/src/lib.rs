//! Scoped changes of a process's current working directory (CWD), as a
//! verified state machine.
//!
//! The library models the process state that the mechanism touches — the set
//! of directories that exist, the CWD, and the acquisition count of the
//! process-wide reentrant scope lock — and verifies the guard lifecycle over
//! that model: entering a directory records the prior CWD, ending the scope
//! restores it, the lock token is released exactly once, and an ephemeral
//! target is removed when its guard ends.
//!
//! ```
//! use with_dir::DirPath;
//! use with_dir::ProcessState;
//! use with_dir::WithDir;
//!
//! let root = DirPath { components: vec![] };
//! let a = DirPath { components: vec![String::from("a")] };
//! let mut st = ProcessState {
//!     dirs: vec![root.duplicate(), a.duplicate()],
//!     cwd: root.duplicate(),
//!     lock_depth: 0,
//! };
//!
//! // Enter `a`: it becomes the CWD and the scope lock is held.
//! let guard = WithDir::new(&mut st, a).unwrap();
//! assert!(st.cwd.same_as(guard.path()));
//!
//! // Leave: the prior CWD is restored and the lock given back.
//! assert!(guard.leave(&mut st).is_ok());
//! assert!(st.cwd.same_as(&root));
//! assert_eq!(st.lock_depth, 0);
//! ```

pub mod dir_path;
pub mod laws;
pub mod scope;
pub mod state;

pub use dir_path::DirPath;
pub use scope::ScopeError;
pub use scope::WithDir;
pub use state::ProcessState;

use vstd::prelude::*;

verus! {

/// Anchor for the crate-level documentation examples.
pub struct ReadmeDoctests;

} // verus!
