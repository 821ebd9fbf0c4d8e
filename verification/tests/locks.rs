use atomic::fallback::{lock, lock_for_addr, LockStep, SpinLock, SpinLockTable, LOCKS};
use std::sync::atomic::Ordering;

#[test]
fn a_table_has_64_free_locks() {
    let table = SpinLockTable::new();
    assert_eq!(LOCKS, 64);
    assert_eq!(table.len(), 64);
    for i in 0..64 {
        assert!(!table.cell(i).locked());
        assert_eq!(table.cell(i).last_acquire(), None);
        assert_eq!(table.cell(i).last_release(), None);
    }
}

#[test]
fn the_lowest_four_bits_of_an_address_do_not_count() {
    for base in [0usize, 0x10, 0x7f30, 0x1234_5670] {
        for offset in 0..16 {
            assert_eq!(lock_for_addr(base + offset), lock_for_addr(base));
        }
    }
}

#[test]
fn the_next_six_bits_give_the_index() {
    assert_eq!(lock_for_addr(0x000), 0);
    assert_eq!(lock_for_addr(0x010), 1);
    assert_eq!(lock_for_addr(0x020), 2);
    assert_eq!(lock_for_addr(0x3f0), 63);
    assert_eq!(lock_for_addr(0x400), 0);
}

#[test]
fn the_higher_bits_perturb_the_index() {
    assert_eq!(lock_for_addr(0x10_0000), 1);
    assert_eq!(lock_for_addr(0x10_0010), 0);
    assert_eq!(lock_for_addr(0x1234_5678), 4);
    assert_eq!(lock_for_addr(0x7f0_0000), 63);
}

#[test]
fn every_index_is_in_the_table() {
    let mut addr: usize = 1;
    for _ in 0..200 {
        assert!(lock_for_addr(addr) < LOCKS);
        addr = addr.wrapping_mul(6364136223846793005usize).wrapping_add(1442695040888963407usize);
    }
    assert!(lock_for_addr(usize::MAX) < LOCKS);
}

#[test]
fn a_lock_remembers_how_it_was_taken_and_released() {
    let mut cell = SpinLock::new();
    cell.lock(Ordering::Relaxed);
    assert!(cell.locked());
    assert_eq!(cell.last_acquire(), Some(Ordering::Acquire));
    assert_eq!(cell.last_release(), None);
    cell.unlock(Ordering::Relaxed);
    assert!(!cell.locked());
    assert_eq!(cell.last_acquire(), Some(Ordering::Acquire));
    assert_eq!(cell.last_release(), Some(Ordering::Release));
    cell.lock(Ordering::SeqCst);
    assert_eq!(cell.last_acquire(), Some(Ordering::SeqCst));
    cell.unlock(Ordering::SeqCst);
    assert_eq!(cell.last_release(), Some(Ordering::SeqCst));
}

#[test]
fn an_attempt_on_a_held_lock_changes_nothing() {
    let mut cell = SpinLock::new();
    assert!(cell.try_lock(Ordering::Acquire));
    assert!(!cell.try_lock(Ordering::SeqCst));
    assert!(cell.locked());
    assert_eq!(cell.last_acquire(), Some(Ordering::Acquire));
    cell.unlock(Ordering::AcqRel);
    assert_eq!(cell.last_release(), Some(Ordering::Release));
    assert!(cell.try_lock(Ordering::SeqCst));
    assert_eq!(cell.last_acquire(), Some(Ordering::SeqCst));
}

#[test]
fn a_thread_waits_until_it_has_seen_the_lock_free() {
    assert!(matches!(SpinLock::after_attempt(true), LockStep::Held));
    assert!(matches!(SpinLock::after_attempt(false), LockStep::Wait));
    assert!(matches!(SpinLock::after_observation(1), LockStep::Wait));
    assert!(matches!(SpinLock::after_observation(0), LockStep::Attempt));
    assert!(LockStep::Held.is_held());
    assert!(!LockStep::Wait.is_held());
    assert!(!LockStep::Attempt.is_held());
}

#[test]
fn a_contended_lock_is_taken_after_it_was_seen_free() {
    let mut cell = SpinLock::new();
    cell.lock(Ordering::Relaxed);
    let mut step = SpinLock::after_attempt(cell.try_lock(Ordering::Acquire));
    let mut reads = 0;
    while !step.is_held() {
        step = match step {
            LockStep::Attempt => SpinLock::after_attempt(cell.try_lock(Ordering::Acquire)),
            _ => {
                reads += 1;
                if reads == 3 {
                    cell.unlock(Ordering::Relaxed);
                }
                SpinLock::after_observation(if cell.locked() { 1 } else { 0 })
            }
        };
    }
    assert_eq!(reads, 3);
    assert!(cell.locked());
}

#[test]
fn a_guard_releases_the_lock_that_it_holds() {
    let mut table = SpinLockTable::new();
    let addr = 0x1234_5678;
    let guard = lock(&mut table, addr, Ordering::SeqCst);
    assert!(table.cell(4).locked());
    assert_eq!(table.cell(4).last_acquire(), Some(Ordering::SeqCst));
    for i in 0..64 {
        if i != 4 {
            assert!(!table.cell(i).locked());
        }
    }
    guard.release(&mut table);
    assert!(!table.cell(4).locked());
    assert_eq!(table.cell(4).last_release(), Some(Ordering::SeqCst));
}

#[test]
fn a_guard_releases_with_the_ordering_that_it_was_given_last() {
    let mut table = SpinLockTable::new();
    let mut guard = lock(&mut table, 0x20, Ordering::SeqCst);
    guard.set_order(Ordering::Relaxed);
    guard.release(&mut table);
    assert_eq!(table.cell(2).last_acquire(), Some(Ordering::SeqCst));
    assert_eq!(table.cell(2).last_release(), Some(Ordering::Release));
}
