//! The control block shared between PipeWire's realtime process callback and
//! the main-loop thread.
use vstd::prelude::*;

use std::sync::atomic::{AtomicBool, AtomicU64, AtomicU8, Ordering};
use std::sync::Mutex;

use super::common::{count_as_u64, STOP_NONE};

verus! {

#[verifier::external_type_specification]
#[verifier::external_body]
#[verifier::reject_recursive_types(T)]
pub struct ExMutex<T: ?Sized>(Mutex<T>);

/// `Mutex::new(None)`: an empty error slot.
#[verifier::external_body]
fn empty_error_slot() -> Mutex<Option<String>> {
    Mutex::new(None)
}

/// `Mutex::lock`, then stores `detail` in the slot. It panics only when a
/// thread panicked while holding the lock, which no caller here does; that
/// condition is not stated.
#[verifier::external_body]
fn store_error(slot: &Mutex<Option<String>>, detail: String) {
    *slot.lock().expect("control error slot") = Some(detail);
}

/// `Mutex::lock`, then takes the slot's content, leaving it empty. What it
/// returns depends on what other threads stored, so nothing is claimed of it;
/// the poisoned-lock panic is not stated either.
#[verifier::external_body]
fn take_stored_error(slot: &Mutex<Option<String>>) -> Option<String> {
    slot.lock().expect("control error slot").take()
}

/// Thread-safe control block shared between the realtime process callback and
/// the main-loop thread. Atomics only during the run; the error slot is
/// written on failure paths and read after callbacks have stopped, so the
/// mutex is never contended while capturing. The values it holds change under
/// other threads, so its methods promise nothing of what they read.
pub struct SharedControl {
    stop: AtomicU8,
    event_count: AtomicU64,
    streamed: AtomicBool,
    error: Mutex<Option<String>>,
}

impl SharedControl {
    /// A control block with no stop reason, a zero event count, no stream yet
    /// and an empty error slot. What the atomics hold is not part of the
    /// type's model: other threads change it.
    pub fn new() -> Self {
        SharedControl {
            stop: AtomicU8::new(STOP_NONE),
            event_count: AtomicU64::new(0),
            streamed: AtomicBool::new(false),
            error: empty_error_slot(),
        }
    }

    /// Records `reason` unless a stop reason is already recorded: the first reason wins.
    pub fn request_stop(&self, reason: u8) {
        let _ = self.stop.compare_exchange(STOP_NONE, reason, Ordering::Release, Ordering::Relaxed);
    }

    /// The stop reason recorded so far, as another thread may just have set it.
    pub fn stop_reason(&self) -> u8 {
        self.stop.load(Ordering::Acquire)
    }

    pub fn mark_streamed(&self) {
        self.streamed.store(true, Ordering::Release);
    }

    /// Whether the stream has reached the streaming state, as last published.
    pub fn is_streamed(&self) -> bool {
        self.streamed.load(Ordering::Acquire)
    }

    pub fn set_event_count(&self, count: usize) {
        self.event_count.store(count_as_u64(count), Ordering::Release);
    }

    /// The event count the realtime side last published.
    pub fn event_count(&self) -> u64 {
        self.event_count.load(Ordering::Acquire)
    }

    pub fn set_error(&self, detail: String) {
        store_error(&self.error, detail);
    }

    /// Takes the stored stream error text, if any, leaving the slot empty.
    pub fn take_error(&self) -> Option<String> {
        take_stored_error(&self.error)
    }
}

} // verus!
