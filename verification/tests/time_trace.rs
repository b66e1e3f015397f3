use lib::time::{sys_get_time, sys_sleep, TimeVal};
use lib::trace::{is_memory_trace, sys_trace, syscall_count_reply, PteFlags, TraceAction};

#[test]
fn timeval_splits_microseconds() {
    assert_eq!(TimeVal::from_us(1_234_567), TimeVal { sec: 1, usec: 234_567 });
    assert_eq!(TimeVal::from_us(999_999), TimeVal { sec: 0, usec: 999_999 });
    assert_eq!(TimeVal::from_us(3_000_000), TimeVal { sec: 3, usec: 0 });
}

#[test]
fn get_time_adds_slack_and_never_goes_back() {
    let mut last = 0usize;
    assert_eq!(sys_get_time(&mut last, 2_000_000), TimeVal { sec: 2, usec: 1000 });
    assert_eq!(last, 2_001_000);
    // an earlier clock reading does not move time back
    assert_eq!(sys_get_time(&mut last, 1_500_000), TimeVal { sec: 2, usec: 1000 });
    assert_eq!(last, 2_001_000);
    assert_eq!(sys_get_time(&mut last, 5_000_000), TimeVal { sec: 5, usec: 1000 });
    assert_eq!(last, 5_001_000);
}

#[test]
fn sleep_deadline() {
    assert_eq!(sys_sleep(100, 250), 350);
    assert_eq!(sys_sleep(7, 0), 7);
}

fn flags(valid: bool, user: bool, readable: bool, writable: bool) -> Option<PteFlags> {
    Some(PteFlags { valid, user, readable, writable })
}

#[test]
fn trace_read_needs_valid_user_readable_page() {
    assert_eq!(sys_trace(0, 0, flags(true, true, true, false)), TraceAction::ReadByte);
    assert_eq!(sys_trace(0, 0, flags(false, true, true, true)), TraceAction::Fail);
    assert_eq!(sys_trace(0, 0, flags(true, false, true, true)), TraceAction::Fail);
    assert_eq!(sys_trace(0, 0, flags(true, true, false, true)), TraceAction::Fail);
    assert_eq!(sys_trace(0, 0, None), TraceAction::Fail);
}

#[test]
fn trace_write_needs_valid_user_writable_page() {
    assert_eq!(sys_trace(1, 0x1ab, flags(true, true, false, true)), TraceAction::WriteByte(0xab));
    assert_eq!(sys_trace(1, 7, flags(true, true, true, false)), TraceAction::Fail);
    assert_eq!(sys_trace(1, 7, None), TraceAction::Fail);
}

#[test]
fn trace_syscall_and_unknown() {
    assert_eq!(sys_trace(2, 0, None), TraceAction::CountSyscall);
    assert_eq!(sys_trace(3, 0, flags(true, true, true, true)), TraceAction::Fail);
    assert!(is_memory_trace(0));
    assert!(is_memory_trace(1));
    assert!(!is_memory_trace(2));
    assert_eq!(syscall_count_reply(Some(5)), 5);
    assert_eq!(syscall_count_reply(None), -1);
}
