use governance::account::Account;
use governance::stable::{MemoryError, Position, StableMemory, MAX_PAGES};
use governance::timelock::{Task, Timelock, TimelockError, GRACE_PERIOD};

#[test]
fn log_appends_and_reads_back() {
    let mut m = StableMemory::empty();
    let a = m.append(b"abc").unwrap();
    let b = m.append(b"defg").unwrap();
    assert_eq!(a, Position::new(0, 3));
    assert_eq!(b, Position::new(3, 4));
    assert_eq!(m.load(&b).unwrap(), b"defg".to_vec());
    assert_eq!(m.load(&Position::new(5, 3)), Err(MemoryError::OutOfRange));
    let mut buf = [0u8; 2];
    assert_eq!(m.read(2, &mut buf), Ok(2));
    assert_eq!(&buf, b"cd");
    let mut big = [0u8; 8];
    assert_eq!(m.read(0, &mut big), Err(MemoryError::OutOfRange));
}

#[test]
fn log_grows_by_pages() {
    let mut m = StableMemory::empty();
    assert_eq!(m.capacity(), 0);
    m.write(&[1u8; 10]).unwrap();
    assert_eq!(m.capacity(), 1);
    assert_eq!(m.size(), 65_536);
    m.write(&vec![2u8; 70_000]).unwrap();
    assert_eq!(m.capacity(), 3);
    assert_eq!(m.offset(), 70_010);
    assert_eq!(m.grow(MAX_PAGES as u32), Err(MemoryError::GrowFailed));
    assert_eq!(m.capacity(), 3);
    assert_eq!(m.grow(2), Ok(()));
    assert_eq!(m.capacity(), 5);
}

fn task(eta: u64) -> Task {
    let mut t = Task::new(Account::from_bytes(&[7]), "go".to_string(), vec![1], 0);
    t.eta = eta;
    t
}

#[test]
fn timelock_queue_is_a_set() {
    let mut tl = Timelock::new(10);
    tl.queue_transaction(task(100));
    tl.queue_transaction(task(100));
    assert!(tl.contains(&task(100)));
    tl.cancel_transaction(&task(100));
    assert!(!tl.contains(&task(100)));
    tl.cancel_transaction(&task(100));
    assert!(!tl.contains(&task(100)));
}

#[test]
fn timelock_window() {
    let mut tl = Timelock::default();
    assert_eq!(tl.pre_execute_transaction(&task(100), 100), Err(TimelockError::NotQueued));
    tl.queue_transaction(task(100));
    assert_eq!(tl.pre_execute_transaction(&task(100), 99), Err(TimelockError::TooEarly));
    assert_eq!(tl.pre_execute_transaction(&task(100), 101 + GRACE_PERIOD), Err(TimelockError::Stale));
    assert_eq!(tl.pre_execute_transaction(&task(100), 100 + GRACE_PERIOD), Ok(()));
    assert!(!tl.contains(&task(100)));
    tl.post_execute_transaction(task(100), false);
    assert!(tl.contains(&task(100)));
    assert_eq!(tl.pre_execute_transaction(&task(100), 100), Ok(()));
    tl.post_execute_transaction(task(100), true);
    assert!(!tl.contains(&task(100)));
}

#[test]
fn accounts_compare_by_bytes() {
    assert!(Account::from_bytes(&[1, 2]) == Account::from_bytes(&[1, 2]));
    assert!(Account::from_bytes(&[1, 2]) != Account::from_bytes(&[1]));
    assert_eq!(Account::anonymous().as_bytes(), &[4u8]);
    assert!(task(1).same(&task(1)));
    assert!(!task(1).same(&task(2)));
}

#[test]
fn retry_slot_keeps_latest_failure() {
    let mut log: governance::tx_log::TxLog<u32> = governance::tx_log::TxLog::new();
    assert!(!log.has_waiting());
    log.record_failure(1);
    log.record_failure(2);
    assert_eq!(log.take_retry(), Some(2));
    assert_eq!(log.take_retry(), None);
}
