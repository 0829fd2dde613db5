use blackjack::get_hand_sum_legacy;

#[test]
fn test_get_hand_sum() {
    assert_eq!(get_hand_sum_legacy(&vec![10, 10]), 20);
    assert_eq!(get_hand_sum_legacy(&vec![10, 10, 10]), 30);
    assert_eq!(get_hand_sum_legacy(&vec![5, 6]), 11);
    assert_eq!(get_hand_sum_legacy(&vec![6, 10]), 16);
    assert_eq!(get_hand_sum_legacy(&vec![1, 10]), 21);
    assert_eq!(get_hand_sum_legacy(&vec![4, 5]), 9);
    assert_eq!(get_hand_sum_legacy(&vec![4, 5, 1]), 20);
    assert_eq!(get_hand_sum_legacy(&vec![4, 5, 1, 1]), 21);
    assert_eq!(get_hand_sum_legacy(&vec![4, 5, 1, 1, 1]), 12);
    assert_eq!(get_hand_sum_legacy(&vec![10, 10, 1]), 21);
    assert_eq!(get_hand_sum_legacy(&vec![10, 8]), 18);
    assert_eq!(get_hand_sum_legacy(&vec![10, 8, 1]), 19);
    assert_eq!(get_hand_sum_legacy(&vec![10, 8, 1, 1]), 20);
    assert_eq!(get_hand_sum_legacy(&vec![]), 0);
    assert_eq!(get_hand_sum_legacy(&vec![1]), 11);
    assert_eq!(get_hand_sum_legacy(&vec![1, 1]), 12);
    assert_eq!(get_hand_sum_legacy(&vec![1, 1, 1, 1, 1, 1, 1, 1, 1]), 19);
    assert_eq!(get_hand_sum_legacy(&vec![1, 1, 1, 1, 1, 1, 1, 1, 1, 1]), 20);
    assert_eq!(
        get_hand_sum_legacy(&vec![1, 1, 1, 1, 1, 1, 1, 1, 1, 1, 1]),
        21
    );
    assert_eq!(
        get_hand_sum_legacy(&vec![1, 1, 1, 1, 1, 1, 1, 1, 1, 1, 1, 1]),
        12
    );
    assert_eq!(get_hand_sum_legacy(&vec![4]), 4);
}

#[test]
fn test_sum_without_aces_is_arithmetic() {
    assert_eq!(get_hand_sum_legacy(&vec![2, 3, 4]), 9);
    assert_eq!(get_hand_sum_legacy(&vec![7, 9]), 16);
    assert_eq!(get_hand_sum_legacy(&vec![10, 10, 5]), 25);
}
