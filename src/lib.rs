//! Batch orchestration for Kubernetes Indexed Jobs: parameter expansion,
//! the batch/job model and its queue wire form, and the controller's
//! dequeue/translate/submit/watch state machine.

pub mod ids;
pub mod expand;
pub mod model;
pub mod json;
pub mod indexes;
pub mod controller;
pub mod queue;
pub mod gateway;
