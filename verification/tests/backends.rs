use atomic::capability::Capabilities;
use atomic::fallback::{lock_for_addr, SpinLockTable};
use atomic::location::Location;
use atomic::ops::map_result;
use atomic::{nightly, stable};
use std::sync::atomic::Ordering;

fn word_sized(addr: usize, value: usize) -> Location {
    Location::new(addr, std::mem::size_of::<usize>(), value.to_le_bytes().to_vec()).unwrap()
}

#[test]
fn a_native_result_becomes_a_pattern_of_the_width() {
    assert_eq!(map_result(Ok(0x0102), 2), Ok(vec![2, 1]));
    assert_eq!(map_result(Err(0x0102), 4), Err(vec![2, 1, 0, 0]));
    assert_eq!(map_result(Ok(u64::MAX), 8), Ok(vec![0xff; 8]));
}

#[test]
fn the_pointer_sized_backend_serves_a_word_natively() {
    let mut locks = SpinLockTable::new();
    let mut dst = word_sized(0x1000, 5);
    stable::atomic_store(&mut locks, &mut dst, &6usize.to_le_bytes(), Ordering::SeqCst);
    assert_eq!(
        stable::atomic_load(&mut locks, &dst, Ordering::SeqCst),
        6usize.to_le_bytes().to_vec()
    );
    assert_eq!(
        stable::atomic_swap(&mut locks, &mut dst, &9usize.to_le_bytes(), Ordering::SeqCst),
        6usize.to_le_bytes().to_vec()
    );
    assert_eq!(
        stable::atomic_add(&mut locks, &mut dst, &usize::MAX.to_le_bytes(), Ordering::SeqCst),
        9usize.to_le_bytes().to_vec()
    );
    assert_eq!(dst.read(), 8usize.to_le_bytes().to_vec());
    assert_eq!(
        stable::atomic_sub(&mut locks, &mut dst, &10usize.to_le_bytes(), Ordering::SeqCst),
        8usize.to_le_bytes().to_vec()
    );
    assert_eq!(dst.read(), (usize::MAX - 1).to_le_bytes().to_vec());
    stable::atomic_and(&mut locks, &mut dst, &0xf0usize.to_le_bytes(), Ordering::SeqCst);
    assert_eq!(dst.read(), 0xf0usize.to_le_bytes().to_vec());
    stable::atomic_or(&mut locks, &mut dst, &0x0fusize.to_le_bytes(), Ordering::SeqCst);
    assert_eq!(dst.read(), 0xffusize.to_le_bytes().to_vec());
    stable::atomic_xor(&mut locks, &mut dst, &0x81usize.to_le_bytes(), Ordering::SeqCst);
    assert_eq!(dst.read(), 0x7eusize.to_le_bytes().to_vec());
    let index = lock_for_addr(0x1000);
    assert_eq!(locks.cell(index).last_acquire(), None);
}

#[test]
fn the_pointer_sized_backend_emulates_a_byte() {
    let mut locks = SpinLockTable::new();
    let mut dst = Location::new(0x1000, 1, vec![0xff]).unwrap();
    assert_eq!(stable::atomic_add(&mut locks, &mut dst, &[2], Ordering::SeqCst), vec![0xff]);
    assert_eq!(stable::atomic_load(&mut locks, &dst, Ordering::SeqCst), vec![1]);
    let index = lock_for_addr(0x1000);
    assert_eq!(locks.cell(index).last_acquire(), Some(Ordering::SeqCst));
}

#[test]
fn the_pointer_sized_backend_exchanges_on_equal_bits() {
    for addr in [0x1000usize, 0x1008] {
        let mut locks = SpinLockTable::new();
        let mut dst = word_sized(addr, 5);
        let failed = stable::atomic_compare_exchange(
            &mut locks,
            &mut dst,
            &4usize.to_le_bytes(),
            &7usize.to_le_bytes(),
            Ordering::SeqCst,
            Ordering::Relaxed,
        );
        assert_eq!(failed, Err(5usize.to_le_bytes().to_vec()));
        let done = stable::atomic_compare_exchange_weak(
            &mut locks,
            &mut dst,
            &5usize.to_le_bytes(),
            &7usize.to_le_bytes(),
            Ordering::SeqCst,
            Ordering::Relaxed,
        );
        assert_eq!(done, Ok(5usize.to_le_bytes().to_vec()));
        assert_eq!(dst.read(), 7usize.to_le_bytes().to_vec());
    }
}

#[test]
fn the_backend_of_fixed_widths_serves_them_natively() {
    let caps = Capabilities::all();
    let mut locks = SpinLockTable::new();
    let mut dst = Location::new(0x3000, 2, vec![0, 0]).unwrap();
    nightly::atomic_store(&caps, &mut locks, &mut dst, &[0xfe, 0xff], Ordering::Release);
    assert_eq!(nightly::atomic_load(&caps, &mut locks, &dst, Ordering::Acquire), vec![0xfe, 0xff]);
    assert_eq!(
        nightly::atomic_swap(&caps, &mut locks, &mut dst, &[0xff, 0xff], Ordering::AcqRel),
        vec![0xfe, 0xff]
    );
    assert_eq!(
        nightly::atomic_add(&caps, &mut locks, &mut dst, &[2, 0], Ordering::Relaxed),
        vec![0xff, 0xff]
    );
    assert_eq!(dst.read(), vec![1, 0]);
    assert_eq!(
        nightly::atomic_sub(&caps, &mut locks, &mut dst, &[2, 0], Ordering::Relaxed),
        vec![1, 0]
    );
    assert_eq!(dst.read(), vec![0xff, 0xff]);
    nightly::atomic_and(&caps, &mut locks, &mut dst, &[0x0f, 0xf0], Ordering::SeqCst);
    assert_eq!(dst.read(), vec![0x0f, 0xf0]);
    nightly::atomic_or(&caps, &mut locks, &mut dst, &[0x10, 0x01], Ordering::SeqCst);
    assert_eq!(dst.read(), vec![0x1f, 0xf1]);
    nightly::atomic_xor(&caps, &mut locks, &mut dst, &[0xff, 0x01], Ordering::SeqCst);
    assert_eq!(dst.read(), vec![0xe0, 0xf0]);
    let index = lock_for_addr(0x3000);
    assert_eq!(locks.cell(index).last_acquire(), None);
}

#[test]
fn the_backend_of_fixed_widths_emulates_what_the_platform_lacks() {
    let mut caps = Capabilities::none();
    caps.has_atomic_usize = true;
    caps.has_atomic_u8 = true;
    let mut locks = SpinLockTable::new();
    let mut dst = word_sized(0x3000, 1);
    let index = lock_for_addr(0x3000);
    nightly::atomic_add(&caps, &mut locks, &mut dst, &1usize.to_le_bytes(), Ordering::SeqCst);
    assert_eq!(dst.read(), 2usize.to_le_bytes().to_vec());
    assert_eq!(locks.cell(index).last_acquire(), Some(Ordering::SeqCst));
    let mut byte = Location::new(0x5010, 1, vec![1]).unwrap();
    nightly::atomic_add(&caps, &mut locks, &mut byte, &[1], Ordering::SeqCst);
    assert_eq!(byte.read(), vec![2]);
    assert_ne!(lock_for_addr(0x5010), index);
    assert_eq!(locks.cell(lock_for_addr(0x5010)).last_acquire(), None);
}

#[test]
fn the_backend_of_fixed_widths_exchanges_on_equal_bits() {
    for caps in [Capabilities::all(), Capabilities::none()] {
        let mut locks = SpinLockTable::new();
        let mut dst = Location::new(0x3000, 8, 5u64.to_le_bytes().to_vec()).unwrap();
        let failed = nightly::atomic_compare_exchange(
            &caps,
            &mut locks,
            &mut dst,
            &4u64.to_le_bytes(),
            &7u64.to_le_bytes(),
            Ordering::Acquire,
            Ordering::Acquire,
        );
        assert_eq!(failed, Err(5u64.to_le_bytes().to_vec()));
        assert_eq!(dst.read(), 5u64.to_le_bytes().to_vec());
        let done = nightly::atomic_compare_exchange_weak(
            &caps,
            &mut locks,
            &mut dst,
            &5u64.to_le_bytes(),
            &7u64.to_le_bytes(),
            Ordering::Release,
            Ordering::Relaxed,
        );
        assert_eq!(done, Ok(5u64.to_le_bytes().to_vec()));
        assert_eq!(dst.read(), 7u64.to_le_bytes().to_vec());
    }
}
