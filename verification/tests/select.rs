use libax::select::{clrfds, getbit, select_mark, select_prepare, select_timed_out, select_timeout, setbit, FdSet, TimeVal, FD_SETSIZE};

fn set_of(fds: &[usize]) -> FdSet {
    let mut s = FdSet::empty();
    for &fd in fds {
        setbit(&mut s, fd);
    }
    s
}

fn members(s: &FdSet) -> Vec<usize> {
    (0..FD_SETSIZE).filter(|&n| getbit(s, n)).collect()
}

#[test]
fn setbit_then_getbit() {
    let mut s = FdSet::empty();
    assert!(!getbit(&s, 65));
    setbit(&mut s, 65);
    assert!(getbit(&s, 65));
    assert!(!getbit(&s, 64));
    assert!(!getbit(&s, 1));
    assert_eq!(s.fds_bits[1], 2);
    setbit(&mut s, 1023);
    setbit(&mut s, 0);
    assert_eq!(members(&s), vec![0, 65, 1023]);
    assert_eq!(s.fds_bits[15], 1u64 << 63);
}

#[test]
fn clrfds_empties() {
    let mut s = set_of(&[3, 70, 900]);
    clrfds(&mut s);
    assert_eq!(s.fds_bits, [0u64; 16]);
    assert!(members(&s).is_empty());
}

#[test]
fn prepare_records_and_clears() {
    let mut fds = [Some(set_of(&[3, 5])), None, Some(set_of(&[5, 800]))];
    let interest = select_prepare(&mut fds);
    assert_eq!(interest.len(), 3);
    assert_eq!(interest.fd_at(0), 3);
    assert_eq!(interest.fd_at(1), 5);
    assert_eq!(interest.fd_at(2), 800);
    assert!(fds[1].is_none());
    assert_eq!(fds[0].unwrap().fds_bits, [0u64; 16]);
    assert_eq!(fds[2].unwrap().fds_bits, [0u64; 16]);
}

#[test]
fn round_marks_only_ready_and_wanted() {
    let mut fds = [Some(set_of(&[3, 5])), None, Some(set_of(&[5, 800]))];
    let interest = select_prepare(&mut fds);
    // fd 3: readable; fd 5: writable and exceptional (only the latter was asked); fd 800: nothing.
    let ready = vec![[true, true, true], [false, true, true], [false, false, false]];
    let n = select_mark(&mut fds, &interest, &ready);
    assert_eq!(n, 2);
    assert_eq!(members(&fds[0].unwrap()), vec![3]);
    assert_eq!(members(&fds[2].unwrap()), vec![5]);
    assert!(fds[1].is_none());
}

#[test]
fn round_over_a_prefix() {
    let mut fds = [Some(set_of(&[1, 2])), None, None];
    let interest = select_prepare(&mut fds);
    let n = select_mark(&mut fds, &interest, &vec![[true, false, false]]);
    assert_eq!(n, 1);
    assert_eq!(members(&fds[0].unwrap()), vec![1]);
    let n = select_mark(&mut fds, &interest, &vec![]);
    assert_eq!(n, 0);
}

#[test]
fn timeout_in_micros() {
    assert_eq!(select_timeout(None), None);
    assert_eq!(select_timeout(Some(TimeVal { tv_sec: 2, tv_usec: 500 })), Some(2_000_500));
    assert_eq!(select_timeout(Some(TimeVal { tv_sec: 0, tv_usec: 0 })), Some(0));
}

#[test]
fn timed_out_only_when_strictly_later() {
    assert!(!select_timed_out(None, u128::MAX));
    assert!(!select_timed_out(Some(5), 5_000));
    assert!(select_timed_out(Some(5), 5_001));
    assert!(select_timed_out(Some(0), 1));
    assert!(!select_timed_out(Some(0), 0));
}

#[test]
fn count_never_exceeds_requested_bits() {
    let mut fds = [Some(set_of(&[1, 2])), Some(set_of(&[2])), None];
    let interest = select_prepare(&mut fds);
    let n = select_mark(&mut fds, &interest, &vec![[true, true, true], [true, true, true]]);
    assert_eq!(n, 3);
    assert_eq!(members(&fds[0].unwrap()), vec![1, 2]);
    assert_eq!(members(&fds[1].unwrap()), vec![2]);
}
