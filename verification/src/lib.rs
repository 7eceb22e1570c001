//! Explicitly driven timers on a hierarchical timing wheel.
//!
//! The crate starts no thread, opens no I/O resource, reads no clock and installs no
//! process-global handle. An application owns a [`time::service::TimerService`] in its reactor
//! and hands it clock readings; tasks submit delays through the state that the service shares
//! with them.
//!
//! * [`time`]: delays, timeouts, intervals and scheduled actions.
//! * [`context`]: a bundle of capabilities that an application passes through its tasks.

pub mod context;
pub mod time;
