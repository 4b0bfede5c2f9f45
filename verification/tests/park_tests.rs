use core::time::Duration;
use coro_core::park::{
    Park, ParkAttempt, ParkError, ParkImpl, ParkUnPark, ResumeError, SubscribeWake, UnPark,
};
use coro_core::timeout_list::TimeoutHandle;

#[test]
fn simple_rendezvous() {
    // coroutine 7 parks, then an unpark from elsewhere wakes it
    let mut p = ParkImpl::new();
    assert!(matches!(p.park_timeout(None), ParkAttempt::Suspend));
    let sub = p.subscribe(7, false);
    assert_eq!(sub.timer_request, None);
    assert!(matches!(sub.wake, SubscribeWake::Parked));

    let woken = p.unpark();
    assert_eq!(woken, Some(7));

    let fin = p.park_resume(None);
    assert_eq!(fin.result, Ok(()));
    assert_eq!(fin.timer_handle, None);
}

#[test]
fn permit_before_park() {
    // an unpark with nobody waiting leaves a permit; the next park
    // completes at once without yielding
    let mut p = ParkImpl::new();
    assert_eq!(p.unpark(), None);
    assert!(matches!(
        p.park_timeout(Some(Duration::from_secs(1))),
        ParkAttempt::Ready
    ));
    // the permit is consumed
    assert!(!p.permit);
}

#[test]
fn permit_idempotence() {
    // any number of unparks on an empty park leave exactly one permit
    let mut p = ParkImpl::new();
    assert_eq!(p.unpark(), None);
    let snapshot = p;
    assert_eq!(p.unpark(), None);
    assert_eq!(p, snapshot);
    assert_eq!(p.unpark(), None);
    assert_eq!(p, snapshot);
}

#[test]
fn single_slot_discipline() {
    // once one waker takes the coroutine, every later taker gets nothing
    let mut p = ParkImpl::new();
    p.park_timeout(None);
    p.subscribe(3, false);

    let first = p.wake_up(false);
    assert_eq!(first.map(|w| w.co), Some(3));
    assert_eq!(p.wake_up(false), None);
    assert_eq!(p.unpark(), None);
}

#[test]
fn unpark_races_subscribe() {
    // the unpark lands between the prologue and subscribe: the re-check
    // resumes the coroutine synchronously
    let mut p = ParkImpl::new();
    assert!(matches!(p.park_timeout(None), ParkAttempt::Suspend));
    assert_eq!(p.unpark(), None);
    let sub = p.subscribe(9, false);
    assert!(matches!(sub.wake, SubscribeWake::RunNow(9)));
    assert_eq!(p.wait_co, None);
}

#[test]
fn cancel_beats_unpark() {
    // cancel takes the coroutine first; the later unpark finds the slot
    // empty, so the coroutine is scheduled exactly once
    let mut p = ParkImpl::new();
    p.park_timeout(None);
    let sub = p.subscribe(4, true);
    assert!(matches!(sub.wake, SubscribeWake::CancelWake(4)));

    assert_eq!(p.unpark(), None);

    let fin = p.park_resume(Some(ResumeError::Canceled));
    assert_eq!(fin.result, Err(ParkError::Canceled));
}

#[test]
fn exclusive_outcome() {
    // park reports exactly one of Ok / Timeout / Canceled
    let mut p = ParkImpl::new();
    assert_eq!(p.park_resume(None).result, Ok(()));
    assert_eq!(
        p.park_resume(Some(ResumeError::TimedOut)).result,
        Err(ParkError::Timeout)
    );
    assert_eq!(
        p.park_resume(Some(ResumeError::Canceled)).result,
        Err(ParkError::Canceled)
    );
}

#[test]
fn ignore_cancel_flag() {
    let mut p = ParkImpl::new();
    assert!(p.check_cancel);
    p.ignore_cancel(true);
    assert!(!p.check_cancel);
    p.ignore_cancel(false);
    assert!(p.check_cancel);
}

#[test]
fn timer_handle_hand_off() {
    let mut p = ParkImpl::new();
    let h = TimeoutHandle { interval: 5, id: 0 };
    assert_eq!(p.set_timeout_handle(Some(h)), None);
    assert_eq!(p.remove_timeout_handle(), Some(h));
    assert_eq!(p.timeout_handle, None);
}

#[test]
fn trait_entry_points() {
    let mut p = ParkImpl::new();
    assert_eq!(UnPark::unpark(&mut p), None);
    assert!(matches!(Park::park(&mut p), ParkAttempt::Ready));
    assert!(matches!(
        Park::park_for(&mut p, Duration::from_millis(5)),
        ParkAttempt::Suspend
    ));
    let mut q = ParkImpl::default();
    assert!(matches!(
        ParkUnPark::park_option(&mut q, None),
        ParkAttempt::Suspend
    ));
}

#[test]
fn subscribe_returns_the_timeout() {
    let mut p = ParkImpl::new();
    assert!(matches!(
        p.park_timeout(Some(Duration::from_millis(50))),
        ParkAttempt::Suspend
    ));
    let sub = p.subscribe(1, false);
    assert_eq!(sub.timer_request, Some(Duration::from_millis(50)));
    assert_eq!(p.timeout, None);
}
