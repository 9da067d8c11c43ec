//! Service-quota auditing: identifier parsing, memoized utilization,
//! catalog building, breach evaluation and alert planning.
pub mod arn;
pub mod utilization;
pub mod quota;
pub mod breach;
pub mod fanout;
pub mod alert;
pub mod config;
pub mod telemetry;
pub mod report;
