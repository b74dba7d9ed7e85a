//! Keeps a stack of locally editable revisions synchronized with a stack of
//! remote branches and code-review requests.
//!
//! The crate is organised around an explicit, in-memory model of the two
//! capabilities the reconciliation logic consumes: the version-control
//! backend (a commit graph, the local revisions and the remote branch refs)
//! and the review backend (pull requests with their comments).  Every
//! decision the tool makes — which branch to base a revision on, whether a
//! push may overwrite the remote, how the stack overview comment is built
//! and updated — is a verified function over that model.

pub mod adopt;
pub mod amend;
pub mod backend;
pub mod config;
pub mod drawing;
pub mod error;
pub mod fetch;
pub mod github;
pub mod icons;
pub mod laws;
pub mod message;
pub mod output;
pub mod patch;
pub mod reconcile;
pub mod render;
pub mod selector;
pub mod sync;
pub mod tree;
pub mod utils;
