use visodom::rand::{choose_multiple, Rand};

#[test]
fn test_rand_deterministic() {
    let mut a = Rand::new_with_seed(2523523);
    let mut b = Rand::new_with_seed(2523523);
    for _ in 0..16 {
        assert_eq!(a.next(), b.next());
    }
    // The documented multiplicative step: state * 0x6C078965 + 1, modulo 2^64.
    let mut c = Rand::new_with_seed(1);
    assert_eq!(c.next(), 0x6C078965u64 + 1);
}

#[test]
fn test_next_max_bound() {
    let mut r = Rand::new_with_seed(7);
    for bound in 1..50usize {
        let v = r.next_max(bound);
        assert!(v < bound);
    }
}

#[test]
fn test_choose_multiple() {
    let items: Vec<u64> = vec![10, 20, 30, 40, 50];
    let mut r1 = Rand::new_with_seed(42);
    let mut r2 = Rand::new_with_seed(42);
    let c1 = choose_multiple(&items, &mut r1, 5);
    let c2 = choose_multiple(&items, &mut r2, 5);
    assert_eq!(c1, c2);
    assert_eq!(c1.len(), 5);
    // Drawing without replacement exhausts the pool: the draw of all five
    // items is a permutation.
    let mut sorted = c1.clone();
    sorted.sort();
    assert_eq!(sorted, items);
    // A partial draw picks distinct items.
    let mut r3 = Rand::new_with_seed(42);
    let c3 = choose_multiple(&items, &mut r3, 2);
    assert_eq!(c3.len(), 2);
    assert_ne!(c3[0], c3[1]);
    assert_eq!(c3[0], c1[0]);
    assert_eq!(c3[1], c1[1]);
}
