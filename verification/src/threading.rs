pub mod scheduler;
pub mod worker;
