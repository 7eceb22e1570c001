# Scorpio

Explicitly driven timers on a hierarchical timing wheel, verified with Verus.

Scorpio relies on no process-global runtime, thread-local handle or helper thread. An application
keeps a `TimerService` in its reactor, hands it clock readings, and applies the wait plan that it
returns. Tasks create lazy delays from a handle and poll them on the state that the service shares
with them.

## Layout

- `src/time/geometry.rs`, `ticks.rs`: slots, levels, and the rounding of instants to ticks.
- `src/time/model.rs`: what a timing wheel is; `wheel.rs`: the slab-backed wheel that implements
  it, with `entries.rs` for the storage and `overflow.rs` for deadlines beyond the horizon;
  `wheel_laws.rs`: what it promises.
- `src/time/state.rs`, `timers.rs`, `queue.rs`, `observation.rs`, `shared.rs`: the state that
  tasks and the service share.
- `src/time/delay.rs`, `timeout.rs`, `interval.rs`, `schedule.rs`, `handle.rs`: what tasks use.
- `src/time/service_model.rs`: what a service is; `service.rs`: the service that implements it;
  `service_laws.rs`: what it promises to tasks and to its reactor; `history.rs`: what holds over
  its whole life, whatever turns, polls and drops come in whatever order.
- `src/time/race.rs`: what holds when a task registers its waker while the timer's end is
  published.
- `src/context.rs`: a bundle of capabilities that an application passes through its tasks.
- `app/`: futures, wakers, the system clock and the lock around the library.

## Concurrency

The library holds no lock and runs no waker. Each operation takes the shared state by exclusive
reference and returns the wakers that have to run; the application locks around the call and runs
them afterwards. Registering a waker and publishing a terminal state are made of separate steps:
claim, store and load on the task's side, and moving the lifecycle and taking the slot on the
publisher's. `race.rs` proves that whatever order these steps come in, the task loads the terminal
lifecycle or the publisher gets the task's waker, and no waker stays behind.

## Trust

The wheel stores its entries in a `slab::Slab`. What its methods do is stated in
`src/time/entries.rs` and taken for granted; everything else is proved.
