pub mod order;
pub mod indexing;

pub use indexing::{EventDisposition, IndexedEvent, IntervalDisposition};
pub mod summary;

pub use summary::ExclusionCounts;
pub mod paired;

pub use paired::{PairStatus, PairedEvent};
