//! A versioned local store of request presets ("jets").
//!
//! Every accepted change to a jet is kept in an append-only history with
//! per-jet versions `1, 2, 3, ...`; saves that leave headers and body unchanged
//! are deduplicated, and a jet can be reverted to any recorded version without
//! adding history.
//!
//! `ledger` states each store operation as a transition between store values
//! and proves the laws that those transitions obey; `store` implements the
//! operations against it.
pub mod codec;
pub mod detect;
pub mod ledger;
pub mod model;
pub mod store;

pub use codec::{decode_snapshot, encode_snapshot, read_headers};
pub use detect::{bodies_same, headers_same};
pub use model::{HistoryEntry, Jet, StoreError};
pub use store::Store;
