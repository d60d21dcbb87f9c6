//! A heterogeneous object store: values of any type kept under string keys,
//! indexed first by the value's type and then by key, with a per-thread record
//! of open access scopes that refuses lock acquisitions which would deadlock.
pub mod bucket;
pub mod context;
pub mod laws;
pub mod local;
pub mod registry;
pub mod table;

pub use bucket::TypeBucket;
pub use context::{
    check_read_deadlock, check_write_deadlock, AccessMode, ContextFrame, ContextOperator,
    DeadlockDetected, Lock,
};
pub use local::LocalRegistry;
pub use registry::Registry;
pub use table::TypeTable;
