//! Timer primitives for application-owned reactors.

pub mod budget;
pub mod deadline;
pub mod delay;
pub mod delay_laws;
pub mod entries;
pub mod geometry;
pub mod handle;
pub mod history;
pub mod instant;
pub mod interval;
pub mod model;
pub mod observation;
pub mod overflow;
pub mod poll;
pub mod queue;
pub mod race;
pub mod schedule;
pub mod service;
pub mod service_laws;
pub mod service_model;
pub mod shared;
pub mod state;
pub mod ticks;
pub mod timeout;
pub mod timers;
pub mod turn_laws;
pub mod waker;
pub mod wheel;
pub mod wheel_laws;

pub use self::budget::TurnBudget;
pub use self::delay::Delay;
pub use self::handle::TimerHandle;
pub use self::interval::{Interval, MissedTickBehavior};
pub use self::poll::{TimeoutError, TimerClosed};
pub use self::service::TimerService;
pub use self::service_model::WaitPlan;
