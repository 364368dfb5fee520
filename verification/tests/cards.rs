use hit::cards::{Card, Hand, Rank, Suit, Total};

fn add(hand: &mut Hand, rank: Rank) {
    hand.push(Card { suit: Suit::Spades, rank });
}

#[test]
fn total_values_aces_as_11_unless_total_would_exceed_21() {
    let mut hand = Hand::new();
    add(&mut hand, Rank::Ace);
    add(&mut hand, Rank::Five);
    assert_eq!(
        hand.total(),
        Total {
            value: 16,
            soft: true
        }
    );
    add(&mut hand, Rank::Ten);
    assert_eq!(
        hand.total(),
        Total {
            value: 16,
            soft: false
        }
    );
}

#[test]
fn empty_hand_totals_zero_and_is_not_bust() {
    let hand = Hand::new();
    let t = hand.total();
    assert_eq!(t.value, 0);
    assert!(!t.soft);
    assert!(!hand.is_bust());
}

#[test]
fn rank_values_follow_face_values() {
    assert_eq!(Rank::Ace.value(), 1);
    assert_eq!(Rank::Two.value(), 2);
    assert_eq!(Rank::Nine.value(), 9);
    assert_eq!(Rank::Ten.value(), 10);
    assert_eq!(Rank::Jack.value(), 10);
    assert_eq!(Rank::Queen.value(), 10);
    assert_eq!(Rank::King.value(), 10);
}

#[test]
fn bust_exactly_above_twenty_one() {
    let mut hand = Hand::new();
    add(&mut hand, Rank::Ten);
    add(&mut hand, Rank::King);
    assert!(!hand.is_bust());
    add(&mut hand, Rank::Ace);
    // Ten + King + Ace is a hard 21: still not bust.
    assert_eq!(hand.total().value, 21);
    assert!(!hand.is_bust());
    add(&mut hand, Rank::Two);
    assert_eq!(hand.total().value, 23);
    assert!(hand.is_bust());
}

#[test]
fn two_aces_make_a_soft_twelve() {
    let mut hand = Hand::new();
    add(&mut hand, Rank::Ace);
    add(&mut hand, Rank::Ace);
    assert_eq!(
        hand.total(),
        Total {
            value: 12,
            soft: true
        }
    );
}

#[test]
fn natural_needs_two_cards_totalling_twenty_one() {
    let mut hand = Hand::new();
    add(&mut hand, Rank::Ace);
    add(&mut hand, Rank::Queen);
    assert!(hand.is_natural());

    let mut three_card_21 = Hand::new();
    add(&mut three_card_21, Rank::Seven);
    add(&mut three_card_21, Rank::Seven);
    add(&mut three_card_21, Rank::Seven);
    assert_eq!(three_card_21.total().value, 21);
    assert!(!three_card_21.is_natural());

    let mut twenty = Hand::new();
    add(&mut twenty, Rank::Ten);
    add(&mut twenty, Rank::King);
    assert!(!twenty.is_natural());
}

#[test]
fn card_text_shows_rank_symbol_and_suit() {
    let ace = Card {
        suit: Suit::Spades,
        rank: Rank::Ace,
    };
    assert_eq!(ace.text(), "A\u{2660} ");
    let ten = Card {
        suit: Suit::Diamonds,
        rank: Rank::Ten,
    };
    assert_eq!(ten.text(), "10\u{2666} ");
    let queen = Card {
        suit: Suit::Hearts,
        rank: Rank::Queen,
    };
    assert_eq!(queen.text(), "Q\u{2665} ");
}

#[test]
fn hand_text_concatenates_cards_and_total() {
    let mut hand = Hand::new();
    hand.push(Card {
        suit: Suit::Spades,
        rank: Rank::Ace,
    });
    hand.push(Card {
        suit: Suit::Diamonds,
        rank: Rank::Ten,
    });
    // An Ace counted as 11 keeps the total soft, so a natural reads `soft 21`.
    assert_eq!(hand.text(), "A\u{2660} 10\u{2666} (soft 21)");

    let mut soft = Hand::new();
    soft.push(Card {
        suit: Suit::Spades,
        rank: Rank::Ace,
    });
    soft.push(Card {
        suit: Suit::Clubs,
        rank: Rank::Five,
    });
    assert_eq!(soft.text(), "A\u{2660} 5\u{2663} (soft 16)");
}

#[test]
fn total_text_renders_multi_digit_values() {
    let t = Total {
        value: 305,
        soft: false,
    };
    assert_eq!(t.text(), "total 305");
    let s = Total {
        value: 17,
        soft: true,
    };
    assert_eq!(s.text(), "soft 17");
}
