use enet::time::{ENET_TIME_DIFFERENCE, ENET_TIME_GREATER, ENET_TIME_LESS};
use enet::utility::{ENET_DIFFERENCE, ENET_MAX, ENET_MIN};

#[test]
fn max_min_difference_on_plain_values() {
    assert_eq!(ENET_MAX(3, 9), 9);
    assert_eq!(ENET_MAX(9, 3), 9);
    assert_eq!(ENET_MIN(3, 9), 3);
    assert_eq!(ENET_MIN(9, 3), 3);
    assert_eq!(ENET_DIFFERENCE(3, 9), 6);
    assert_eq!(ENET_DIFFERENCE(9, 3), 6);
    assert_eq!(ENET_DIFFERENCE(7, 7), 0);
}

#[test]
fn time_comparison_wraps() {
    assert!(ENET_TIME_LESS(10, 20));
    assert!(!ENET_TIME_LESS(20, 10));
    assert!(ENET_TIME_GREATER(20, 10));
    assert!(ENET_TIME_LESS(0xFFFF_FFF0, 5));
    assert_eq!(ENET_TIME_DIFFERENCE(0xFFFF_FFF0, 5), 21);
    assert_eq!(ENET_TIME_DIFFERENCE(5, 0xFFFF_FFF0), 21);
}
