use vanling::activation_pool::{ActivationPool, POOL_SIZE};

#[test]
fn init_marks_given_codes_only() {
    let pool = ActivationPool::init(&[5, 5, 123_456, 999_999, 1_000_000, 4_000_000_000]);
    assert!(pool.is_used(5));
    assert!(pool.is_used(123_456));
    assert!(pool.is_used(999_999));
    assert!(!pool.is_used(0));
    assert!(!pool.is_used(6));
    assert!(!pool.is_used(123_457));
}

#[test]
fn codes_outside_the_pool_count_as_used() {
    let pool = ActivationPool::init(&[]);
    assert!(pool.is_used(POOL_SIZE));
    assert!(pool.is_used(u32::MAX));
    assert!(!pool.is_used(POOL_SIZE - 1));
}

#[test]
fn discard_returns_a_code() {
    let mut pool = ActivationPool::init(&[42, 43]);
    pool.discard(42);
    assert!(!pool.is_used(42));
    assert!(pool.is_used(43));
    // Discarding a free code or one outside the pool changes nothing.
    pool.discard(42);
    pool.discard(2_000_000);
    assert!(!pool.is_used(42));
    assert!(pool.is_used(43));
}

#[test]
fn draw_hands_out_a_free_code_and_marks_it() {
    let mut pool = ActivationPool::init(&[1, 2, 3]);
    let code = pool.draw();
    assert!(code < POOL_SIZE);
    assert!(code != 1 && code != 2 && code != 3);
    assert!(pool.is_used(code));
}

#[test]
fn draw_finds_the_last_free_code() {
    let taken: Vec<u32> = (0..POOL_SIZE).filter(|&c| c != 777_777).collect();
    let mut pool = ActivationPool::init(&taken);
    assert!(!pool.is_used(777_777));
    assert_eq!(pool.draw(), 777_777);
    assert!(pool.is_used(777_777));
}

#[test]
fn draw_then_discard_restores_the_pool() {
    let taken: Vec<u32> = (0..POOL_SIZE).filter(|&c| c != 64 && c != 999_935).collect();
    let mut pool = ActivationPool::init(&taken);
    let first = pool.draw();
    assert!(first == 64 || first == 999_935);
    pool.discard(first);
    assert!(!pool.is_used(first));
    let a = pool.draw();
    let b = pool.draw();
    assert!((a == 64 && b == 999_935) || (a == 999_935 && b == 64));
}

#[test]
fn the_free_count_is_the_number_of_unused_codes() {
    let mut pool = ActivationPool::init(&[1, 2, 3, 3, 2_000_000]);
    assert_eq!(pool.free(), POOL_SIZE - 3);
    let unused = (0..POOL_SIZE).filter(|&c| !pool.is_used(c)).count() as u32;
    assert_eq!(unused, pool.free());
    let code = pool.draw();
    pool.discard(2);
    assert_eq!(pool.free(), POOL_SIZE - 3);
    assert!(pool.is_used(code));
    assert!(!pool.is_used(2));
}

#[test]
fn select_zero_counts_free_codes_in_order() {
    let pool = ActivationPool::init(&[0, 1, 3, 64]);
    assert_eq!(pool.select_zero(0), 2);
    assert_eq!(pool.select_zero(1), 4);
    assert_eq!(pool.select_zero(60), 63);
    assert_eq!(pool.select_zero(61), 65);
}
