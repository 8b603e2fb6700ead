//! The work-packet scheduler: the stages of a collection, the bucket of
//! packets that each stage has, and the order in which packets are handed
//! to a worker.

pub mod gc_work;
pub mod scheduler;
pub mod work_bucket;

pub use gc_work::GCWork;
pub use scheduler::GCWorkScheduler;
pub use scheduler::WorkerStep;
pub use work_bucket::WorkBucket;
pub use work_bucket::WorkBucketStage;
