use vstd::prelude::*;

verus! {

/// Errors surfaced by the task-queue core.
///
/// Transport problems against the backing ordered-set store are carried as
/// `Redis`, `ConnectionError` and `RedisError`; a task that cannot be decoded
/// from a queue member yields `Serde`; a task that cannot be encoded yields
/// `SerializationError`; a cron expression that cannot be parsed, or has a
/// field count other than five or six, yields `CronParse`.
#[derive(Debug, Clone)]
pub enum TaskQueueError {
    Redis(String),
    Serde(String),
    ConnectionError(String),
    RedisError(String),
    SerializationError(String),
    CronParse(String),
}

} // verus!
