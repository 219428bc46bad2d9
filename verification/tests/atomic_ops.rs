use rkb1_core::atomic::Atomic;

#[test]
fn new_load_store_swap() {
    let mut a: Atomic<u8> = Atomic::new(5);
    assert_eq!(a.load(), 5);
    a.store(9);
    assert_eq!(a.load(), 9);
    assert_eq!(a.swap(3), 9);
    assert_eq!(a.load(), 3);
}

#[test]
fn get_mut_and_into_inner() {
    let mut a: Atomic<u16> = Atomic::new(40);
    *a.get_mut() = 41;
    assert_eq!(a.load(), 41);
    assert_eq!(a.into_inner(), 41);
}

#[test]
fn compare_exchange_success_and_failure() {
    let mut a: Atomic<u8> = Atomic::new(10);
    assert_eq!(a.compare_exchange(10, 20), Ok(10));
    assert_eq!(a.load(), 20);
    assert_eq!(a.compare_exchange(10, 30), Err(20));
    assert_eq!(a.load(), 20);
}

#[test]
fn fetch_arithmetic_u8() {
    let mut a: Atomic<u8> = Atomic::new(100);
    assert_eq!(a.fetch_add(20), 100);
    assert_eq!(a.load(), 120);
    assert_eq!(a.fetch_sub(50), 120);
    assert_eq!(a.load(), 70);
}

#[test]
fn fetch_bitwise_u8() {
    let mut a: Atomic<u8> = Atomic::new(0b1100);
    assert_eq!(a.fetch_and(0b1010), 0b1100);
    assert_eq!(a.load(), 0b1000);
    assert_eq!(a.fetch_or(0b0011), 0b1000);
    assert_eq!(a.load(), 0b1011);
    assert_eq!(a.fetch_xor(0b0110), 0b1011);
    assert_eq!(a.load(), 0b1101);
    let mut b: Atomic<u8> = Atomic::new(0b1100);
    assert_eq!(b.fetch_nand(0b1010), 0b1100);
    assert_eq!(b.load(), !0b1000u8);
}

#[test]
fn fetch_min_max_u16() {
    let mut a: Atomic<u16> = Atomic::new(500);
    assert_eq!(a.fetch_max(400), 500);
    assert_eq!(a.load(), 500);
    assert_eq!(a.fetch_max(600), 500);
    assert_eq!(a.load(), 600);
    assert_eq!(a.fetch_min(100), 600);
    assert_eq!(a.load(), 100);
}

#[test]
fn fetch_update_applies_the_function() {
    let mut a: Atomic<u16> = Atomic::new(7);
    assert_eq!(a.fetch_update(|v| Some(v + 1)), Ok(7));
    assert_eq!(a.load(), 8);
}

#[test]
fn fetch_update_noop_fails_and_keeps_value() {
    let mut a: Atomic<u8> = Atomic::new(42);
    assert_eq!(a.fetch_update(|_| None), Err(42));
    assert_eq!(a.load(), 42);
}
