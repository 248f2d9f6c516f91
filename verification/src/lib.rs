//! Directory-based cache and artifact path management: cache roots, grouped cache
//! paths, and eviction by age, count and size.
//!
//! Everything here computes on plain values. The operations that need the disk or
//! the clock are state machines, which say what they ask of the operating system
//! and are told the answer; see `disk`.

pub mod constants;
pub mod discovery;
pub mod discovery_laws;
pub mod disk;
pub mod disk_laws;
pub mod ensure;
pub mod entries;
pub mod evict;
pub mod evict_laws;
pub mod group;
pub mod layout_laws;
pub mod lists;
pub mod machine;
pub mod naming;
pub mod path;
pub mod path_laws;
pub mod path_order;
pub mod process;
pub mod project;
pub mod report;
pub mod root;
pub mod scan;
pub mod scan_laws;
pub mod select;
pub mod step_laws;
pub mod task_laws;
pub mod threads;
pub mod time;
pub mod touch;

pub use crate::evict::{EvictPolicy, EvictionReport};
pub use crate::group::CacheGroup;
pub use crate::path::PosixPath;
pub use crate::process::ProcessScopedCacheGroup;
pub use crate::root::CacheRoot;
pub use crate::time::{Duration, Timestamp};
