use loki_file_access::future::PickState;
use std::future::Future;
use std::pin::Pin;
use std::sync::atomic::{AtomicBool, Ordering};
use std::sync::{Arc, Mutex};
use std::task::{Context, Poll, Wake, Waker};

/// A future over a shared slot, polled through the library's `poll`.
struct SlotFuture<T> {
    state: Arc<Mutex<PickState<T, Waker>>>,
}

impl<T> Future for SlotFuture<T> {
    type Output = T;

    fn poll(self: Pin<&mut Self>, cx: &mut Context<'_>) -> Poll<T> {
        let mut guard = self.state.lock().unwrap();
        match guard.poll(cx.waker().clone()) {
            Some(v) => Poll::Ready(v),
            None => Poll::Pending,
        }
    }
}

fn new_slot_future<T>() -> (SlotFuture<T>, Arc<Mutex<PickState<T, Waker>>>) {
    let state = Arc::new(Mutex::new(PickState::new()));
    (SlotFuture { state: state.clone() }, state)
}

fn deliver<T>(state: &Arc<Mutex<PickState<T, Waker>>>, value: T) {
    let waker = state.lock().unwrap().deliver(value);
    if let Some(w) = waker {
        w.wake();
    }
}

struct Flag(AtomicBool);

impl Wake for Flag {
    fn wake(self: Arc<Self>) {
        self.0.store(true, Ordering::SeqCst);
    }
}

fn flag_waker() -> (Arc<Flag>, Waker) {
    let flag = Arc::new(Flag(AtomicBool::new(false)));
    let waker = Waker::from(flag.clone());
    (flag, waker)
}

#[test]
fn future_returns_pending_before_delivery() {
    let mut state: PickState<i32, Waker> = PickState::new();
    let (_flag, waker) = flag_waker();
    assert!(
        state.poll(waker).is_none(),
        "future should be Pending before deliver()"
    );
}

#[test]
fn future_returns_ready_after_delivery() {
    let (future, state) = new_slot_future::<i32>();
    deliver(&state, 42);
    let result = pollster::block_on(future);
    assert_eq!(result, 42);
}

#[test]
fn future_returns_ready_after_delivery_with_pollster() {
    let (future, state) = new_slot_future::<String>();
    deliver(&state, "hello".to_owned());
    let result = pollster::block_on(future);
    assert_eq!(result, "hello");
}

#[test]
fn deliver_wakes_the_waker() {
    let mut state: PickState<i32, Waker> = PickState::new();
    let (flag, waker) = flag_waker();
    assert!(state.poll(waker).is_none());
    let to_wake = state.deliver(99);
    if let Some(w) = to_wake {
        w.wake();
    }
    assert!(flag.0.load(Ordering::SeqCst), "waker should have been called");
}

#[test]
fn delivered_value_is_polled_once() {
    let mut state: PickState<u8, u8> = PickState::new();
    assert_eq!(state.poll(1), None);
    assert_eq!(state.waker, Some(1));
    assert_eq!(state.deliver(7), Some(1));
    assert_eq!(state.waker, None);
    assert_eq!(state.poll(2), Some(7));
    assert_eq!(state.poll(3), None);
    assert_eq!(state.waker, Some(3));
}

#[test]
fn delivery_without_waiting_poll_wakes_nobody() {
    let mut state: PickState<u8, u8> = PickState::new();
    assert_eq!(state.deliver(5), None);
    assert_eq!(state.result, Some(5));
}
