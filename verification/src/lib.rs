//! Live filesystem interposition engine: path shadowing, descriptor-rewrite
//! planning, mount-plan construction, and the supervisor lifecycle, with
//! machine-checked contracts.

pub mod injector;
pub mod mounts;
pub mod path;
pub mod ptrace_registry;
pub mod payload;
pub mod replace;
pub mod retry;
pub mod supervisor;

pub use mounts::MountsInfo;
pub use path::AbsPath;
