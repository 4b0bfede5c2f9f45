use core::time::Duration;
use coro_core::park::{ParkAttempt, ParkError, ParkImpl, ResumeError};
use coro_core::timeout_list::{ns_to_dur, ns_to_ms, TimeOutList};

const MS: u64 = 1_000_000;

#[test]
fn conversions() {
    assert_eq!(ns_to_ms(0), 0);
    assert_eq!(ns_to_ms(1), 1);
    assert_eq!(ns_to_ms(1_000_000), 1);
    assert_eq!(ns_to_ms(1_000_001), 2);

    let d = ns_to_dur(1_500_000_000);
    assert_eq!(d.as_secs(), 1);
    assert_eq!(d.subsec_nanos(), 500_000_000);

    let z = ns_to_dur(999);
    assert_eq!(z.as_secs(), 0);
    assert_eq!(z.subsec_nanos(), 999);
}

#[test]
fn sequential_timeout_list() {
    // a full exercise of the service, with explicit clock values in
    // place of real sleeps
    let mut timer: TimeOutList<usize> = TimeOutList::new();
    timer.add_timer(0, Duration::from_millis(1000), 50);
    timer.add_timer(0, Duration::from_millis(1000), 60);
    timer.add_timer(0, Duration::from_millis(1400), 70);
    timer.add_timer(10 * MS, Duration::from_millis(1000), 10);
    timer.add_timer(10 * MS, Duration::from_millis(500), 40);
    timer.add_timer(10 * MS, Duration::from_millis(1200), 20);
    timer.add_timer(110 * MS, Duration::from_millis(1000), 30);

    let mut fired: Vec<usize> = Vec::new();
    let next = timer.schedule_timer(1600 * MS, &mut fired);
    // each interval list fires in insertion order; the lists fire in the
    // order of their head expiries
    assert_eq!(fired, vec![40, 50, 60, 10, 30, 20, 70]);
    assert_eq!(next, None);
}

#[test]
fn timers_do_not_fire_early() {
    let mut timer: TimeOutList<u32> = TimeOutList::new();
    let (h, is_head) = timer.add_timer(0, Duration::from_millis(100), 1);
    assert!(is_head);
    assert_eq!(h.interval, 100 * MS);

    let mut fired: Vec<u32> = Vec::new();
    // one nanosecond before the deadline: nothing fires, wake in 1ns
    assert_eq!(timer.schedule_timer(100 * MS - 1, &mut fired), Some(1));
    assert_eq!(fired, Vec::<u32>::new());
    // at the deadline it fires
    assert_eq!(timer.schedule_timer(100 * MS, &mut fired), None);
    assert_eq!(fired, vec![1]);
}

#[test]
fn same_interval_fires_in_insertion_order() {
    let mut timer: TimeOutList<u32> = TimeOutList::new();
    let (_, head1) = timer.add_timer(0, Duration::from_millis(5), 1);
    let (_, head2) = timer.add_timer(1, Duration::from_millis(5), 2);
    let (_, head3) = timer.add_timer(2, Duration::from_millis(5), 3);
    assert!(head1);
    assert!(!head2);
    assert!(!head3);

    let mut fired: Vec<u32> = Vec::new();
    timer.schedule_timer(10 * MS, &mut fired);
    assert_eq!(fired, vec![1, 2, 3]);
}

#[test]
fn del_timer_cancels_one_entry() {
    let mut timer: TimeOutList<u32> = TimeOutList::new();
    let (h1, _) = timer.add_timer(0, Duration::from_millis(5), 1);
    let (h2, _) = timer.add_timer(0, Duration::from_millis(5), 2);
    let (_h3, _) = timer.add_timer(0, Duration::from_millis(5), 3);
    timer.del_timer(h2);
    // a second removal of the same handle is a no-op
    timer.del_timer(h2);

    let mut fired: Vec<u32> = Vec::new();
    timer.schedule_timer(5 * MS, &mut fired);
    assert_eq!(fired, vec![1, 3]);

    // a handle whose entry already fired is a no-op too
    timer.del_timer(h1);
}

#[test]
fn pop_timeout_drains_one_interval() {
    let mut timer: TimeOutList<u32> = TimeOutList::new();
    timer.add_timer(0, Duration::from_millis(5), 1);
    timer.add_timer(0, Duration::from_millis(5), 2);
    timer.add_timer(0, Duration::from_millis(7), 9);

    let mut fired: Vec<u32> = Vec::new();
    let next = timer.pop_timeout(5 * MS, 6 * MS, &mut fired);
    assert_eq!(fired, vec![1, 2]);
    assert_eq!(next, None);

    // the 7ms interval is untouched
    let mut rest: Vec<u32> = Vec::new();
    assert_eq!(timer.schedule_timer(7 * MS, &mut rest), None);
    assert_eq!(rest, vec![9]);
}

#[test]
fn timer_precision_many_timers() {
    // many timers with durations spread over [1ms, 1s]: within one
    // duration every entry fires in insertion order, nothing fires early,
    // and everything has fired by the last deadline
    let mut timer: TimeOutList<(u64, u32)> = TimeOutList::new();
    let mut seed: u64 = 0x2545F491;
    let mut count_per_ms = [0u32; 1001];
    for _k in 0..10_000u32 {
        seed = seed.wrapping_mul(6364136223846793005).wrapping_add(1442695040888963407);
        let ms = 1 + (seed >> 33) % 1000;
        let seq_no = count_per_ms[ms as usize];
        count_per_ms[ms as usize] += 1;
        timer.add_timer(0, Duration::from_millis(ms), (ms, seq_no));
    }

    let mut fired: Vec<(u64, u32)> = Vec::new();
    // sweep halfway: nothing later than 500ms may fire
    timer.schedule_timer(500 * MS, &mut fired);
    for &(ms, _) in &fired {
        assert!(ms <= 500);
    }
    // sweep to the end: everything fires
    let next = timer.schedule_timer(1000 * MS, &mut fired);
    assert_eq!(next, None);
    assert_eq!(fired.len(), 10_000);
    // per duration, firing order is insertion order
    let mut last_seq = [i64::MIN; 1001];
    for &(ms, seq_no) in &fired {
        assert!((seq_no as i64) > last_seq[ms as usize]);
        last_seq[ms as usize] = seq_no as i64;
    }
}

#[test]
fn park_with_timeout_times_out() {
    // a park with a timeout races no unparker: the timer wins
    let mut p = ParkImpl::new();
    let mut timer: TimeOutList<u64> = TimeOutList::new();

    assert!(matches!(
        p.park_timeout(Some(Duration::from_millis(50))),
        ParkAttempt::Suspend
    ));
    let sub = p.subscribe(1, false);
    let dur = sub.timer_request.expect("a timer must be requested");
    let (h, _) = timer.add_timer(0, dur, 1);
    p.set_timeout_handle(Some(h));

    // before the deadline nothing happens
    let mut fired: Vec<u64> = Vec::new();
    assert_eq!(timer.schedule_timer(49 * MS, &mut fired), Some(MS));
    assert_eq!(fired, Vec::<u64>::new());

    // the timer fires and takes the coroutine out of the wait-slot
    assert_eq!(timer.schedule_timer(50 * MS, &mut fired), None);
    assert_eq!(fired, vec![1]);
    let woken = p.wake_up(false).expect("the parked coroutine is taken");
    assert_eq!(woken.co, 1);

    let fin = p.park_resume(Some(ResumeError::TimedOut));
    assert_eq!(fin.result, Err(ParkError::Timeout));
    // the handle is uninstalled and deregistered (a no-op once fired)
    let h = fin.timer_handle.expect("the handle was installed");
    timer.del_timer(h);
}
