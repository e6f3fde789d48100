use blackjack::engine::BlackJack;

#[test]
fn test_compute_scoress() {
    assert_eq!(BlackJack::compute_score(&[1, 2, 3]), 16);
    assert_eq!(BlackJack::compute_score(&[1, 2, 1, 3]), 17);
    assert_eq!(BlackJack::compute_score(&[1, 2, 3, 4, 10]), 20);
    assert_eq!(BlackJack::compute_score(&[1, 2, 8, 3, 4, 10]), 28);
}

#[test]
fn lib_test_compute_scoress() {
    assert_eq!(BlackJack::compute_score(&[1, 2, 3]), 16);
    assert_eq!(BlackJack::compute_score(&[1, 2, 1, 3]), 17);
    assert_eq!(BlackJack::compute_score(&[1, 2, 3, 4, 10]), 20);
    assert_eq!(BlackJack::compute_score(&[1, 2, 8, 3, 4, 10]), 28);
}

#[test]
fn empty_hand_scores_nothing() {
    assert_eq!(BlackJack::compute_score(&[]), 0);
}

#[test]
fn faces_count_ten() {
    assert_eq!(BlackJack::compute_score(&[11]), 10);
    assert_eq!(BlackJack::compute_score(&[12]), 10);
    assert_eq!(BlackJack::compute_score(&[13]), 10);
    assert_eq!(BlackJack::compute_score(&[11, 12]), 20);
    assert_eq!(BlackJack::compute_score(&[11, 12, 13]), 30);
}

#[test]
fn ranks_above_thirteen_count_ten() {
    assert_eq!(BlackJack::compute_score(&[14]), 10);
    assert_eq!(BlackJack::compute_score(&[4_000_000_000, 5]), 15);
}

#[test]
fn ace_and_ten_is_twenty_one() {
    assert_eq!(BlackJack::compute_score(&[1, 10]), 21);
    assert_eq!(BlackJack::compute_score(&[13, 1]), 21);
}

#[test]
fn aces_are_lifted_while_they_fit() {
    assert_eq!(BlackJack::compute_score(&[1]), 11);
    assert_eq!(BlackJack::compute_score(&[1, 1]), 12);
    assert_eq!(BlackJack::compute_score(&[1, 1, 1]), 13);
    assert_eq!(BlackJack::compute_score(&[1, 1, 9]), 21);
    assert_eq!(BlackJack::compute_score(&[1, 1, 10]), 12);
    assert_eq!(BlackJack::compute_score(&[1, 10, 10]), 21);
    assert_eq!(BlackJack::compute_score(&[1, 10, 10, 1]), 22);
}

#[test]
fn score_ignores_the_order_of_the_cards() {
    assert_eq!(BlackJack::compute_score(&[1, 2, 3]), BlackJack::compute_score(&[3, 2, 1]));
    assert_eq!(BlackJack::compute_score(&[3, 2, 1]), 16);
    assert_eq!(BlackJack::compute_score(&[2, 1, 3]), 16);
    assert_eq!(BlackJack::compute_score(&[10, 4, 3, 2, 1]), 20);
    assert_eq!(BlackJack::compute_score(&[10, 4, 3, 8, 2, 1]), 28);
    assert_eq!(BlackJack::compute_score(&[3, 1, 2, 1]), 17);
}

#[test]
fn many_aces_stay_cheap() {
    let hand = vec![1u32; 40];
    assert_eq!(BlackJack::compute_score(&hand), 40);
    let hand = vec![1u32; 12];
    assert_eq!(BlackJack::compute_score(&hand), 12);
    let hand = vec![1u32; 11];
    assert_eq!(BlackJack::compute_score(&hand), 21);
}
