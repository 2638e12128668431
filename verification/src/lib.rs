//! theSix: policy-driven six-tier cache orchestration.
//!
//! The library holds the control plane (`Cachelito`), the policy engine, the
//! in-memory tier stores, the value pool and the decisions that drive every
//! cache operation, each with a contract that states what it returns and changes.
pub mod control;
pub mod entry;
pub mod error;
pub mod identity;
pub mod key;
pub mod manager;
pub mod policy;
pub mod pool;
pub mod tier;
pub mod time;

pub use entry::{CacheEntry, EntryState, Generation};
pub use error::CacheError;
pub use identity::{CacheContext, IdentityContext};
pub use key::{Key, KeyRef};
pub use tier::{CacheTier, TierHealth, TierId, TierRegistry};
pub use tier::{l2::L2Stub, l4::L4Stub, l5::L5Stub, test::TestTier};
pub use control::cachelito::Cachelito;
pub use manager::cache_manager::{CacheManager, FetchStart, Population, ReadStart};
pub use pool::MemoryPool;
pub use policy::{
    CacheOperation, CachePolicy, CacheRequest, CacheState, DefaultPolicy, FailMode, PolicyDecision,
    PopulationStrategy, StrictPolicy,
};
pub use tier::backends::ByteValue;
