use hit::cards::{Card, Hand, Rank, Suit};
use hit::error::GameError;
use hit::game::{Game, RoundResult};
use hit::shoe::Shoe;

fn card(rank: Rank) -> Card {
    Card {
        suit: Suit::Spades,
        rank,
    }
}

/// A shoe that will yield the given ranks in order.
fn rigged(draw_order: &[Rank]) -> Shoe {
    let mut cards: Vec<Card> = draw_order.iter().rev().map(|r| card(*r)).collect();
    Shoe::stacked(cards)
}

fn hand_of(ranks: &[Rank]) -> Hand {
    let mut h = Hand::new();
    for r in ranks {
        h.push(card(*r));
    }
    h
}

fn finished_game(player: &[Rank], dealer: &[Rank]) -> Game {
    Game {
        money: 95,
        bet: 5,
        player: hand_of(player),
        dealer: hand_of(dealer),
        hand_done: true,
        shoe: Shoe::stacked(Vec::new()),
    }
}

#[test]
fn initial_deal_deducts_wager_and_deals_two_cards_each() {
    let mut game = Game::new(
        rigged(&[Rank::Ten, Rank::Seven, Rank::Ten, Rank::Nine]),
        100,
        5,
    );
    assert_eq!(game.new_deal(), Ok(()));
    assert_eq!(game.money, 95);
    assert!(!game.hand_done);
    assert_eq!(game.player.len(), 2);
    assert_eq!(game.dealer.len(), 2);
    assert_eq!(game.player.total().value, 17);
    assert_eq!(game.dealer.total().value, 19);
}

#[test]
fn dealer_draws_to_seventeen_or_more() {
    let mut game = Game::new(
        rigged(&[
            Rank::Ten,
            Rank::Ten,
            Rank::Two,
            Rank::Three,
            Rank::Two,
            Rank::Two,
            Rank::Ten,
        ]),
        100,
        5,
    );
    assert_eq!(game.new_deal(), Ok(()));
    assert_eq!(game.stand(), Ok(()));
    assert!(game.hand_done);
    assert!(game.dealer.total().value >= 17);
    assert_eq!(game.dealer.total().value, 19);
    assert_eq!(game.round_result(), RoundResult::PlayerWins);
}

#[test]
fn player_bust_checked_before_dealer_bust() {
    let game = finished_game(
        &[Rank::Ten, Rank::Ten, Rank::Two],
        &[Rank::Ten, Rank::Ten, Rank::Five],
    );
    assert_eq!(game.player.total().value, 22);
    assert_eq!(game.dealer.total().value, 25);
    assert_eq!(game.round_result(), RoundResult::PlayerBust);
}

#[test]
fn round_result_covers_all_orderings() {
    let push = finished_game(&[Rank::Ten, Rank::Ten], &[Rank::Ten, Rank::Ten]);
    assert_eq!(push.round_result(), RoundResult::Tie);
    let dealer_wins = finished_game(&[Rank::Ten, Rank::Eight], &[Rank::Ten, Rank::Ten]);
    assert_eq!(dealer_wins.round_result(), RoundResult::DealerWins);
    let player_wins = finished_game(&[Rank::Ten, Rank::Ten], &[Rank::Ten, Rank::Eight]);
    assert_eq!(player_wins.round_result(), RoundResult::PlayerWins);
    let dealer_bust = finished_game(&[Rank::Ten, Rank::Ten], &[Rank::Ten, Rank::Six, Rank::Six]);
    assert_eq!(dealer_bust.round_result(), RoundResult::DealerBust);
}

#[test]
fn hit_stands_automatically_at_twenty_one() {
    let mut game = Game::new(
        rigged(&[Rank::Ten, Rank::Five, Rank::Ten, Rank::Seven, Rank::Six]),
        100,
        5,
    );
    assert_eq!(game.new_deal(), Ok(()));
    assert!(!game.hand_done);
    assert_eq!(game.hit(), Ok(()));
    assert!(game.hand_done);
    assert_eq!(game.player.total().value, 21);
    assert_eq!(game.dealer.total().value, 17);
    assert_eq!(game.round_result(), RoundResult::PlayerWins);
}

#[test]
fn hit_into_a_bust_freezes_the_dealer() {
    let mut game = Game::new(
        rigged(&[Rank::Ten, Rank::Five, Rank::Two, Rank::Three, Rank::Ten]),
        100,
        5,
    );
    assert_eq!(game.new_deal(), Ok(()));
    assert_eq!(game.hit(), Ok(()));
    assert!(game.hand_done);
    assert_eq!(game.player.total().value, 25);
    // The dealer's hand is frozen as dealt: two cards, total 5.
    assert_eq!(game.dealer.len(), 2);
    assert_eq!(game.dealer.total().value, 5);
    assert_eq!(game.round_result(), RoundResult::PlayerBust);
}

#[test]
fn push_returns_the_wager() {
    let mut game = Game::new(
        rigged(&[Rank::Ten, Rank::Ten, Rank::Ten, Rank::Ten]),
        100,
        5,
    );
    assert_eq!(game.new_deal(), Ok(()));
    assert_eq!(game.stand(), Ok(()));
    assert_eq!(game.round_result(), RoundResult::Tie);
    game.update_money();
    assert_eq!(game.money, 100);
}

#[test]
fn ordinary_win_pays_the_wager_once() {
    let mut game = Game::new(
        rigged(&[Rank::Ten, Rank::Ten, Rank::Ten, Rank::Eight]),
        100,
        5,
    );
    assert_eq!(game.new_deal(), Ok(()));
    assert_eq!(game.stand(), Ok(()));
    assert_eq!(game.round_result(), RoundResult::PlayerWins);
    game.update_money();
    assert_eq!(game.money, 105);
}

#[test]
fn twenty_one_win_pays_the_wager_twice() {
    let mut game = Game::new(
        rigged(&[Rank::Ace, Rank::Ten, Rank::Ten, Rank::Seven]),
        100,
        5,
    );
    assert_eq!(game.new_deal(), Ok(()));
    // A 21 on the initial deal resolves the round without player input.
    assert!(game.hand_done);
    assert_eq!(game.round_result(), RoundResult::PlayerWins);
    game.update_money();
    assert_eq!(game.money, 110);
}

#[test]
fn loss_pays_nothing() {
    let mut game = Game::new(
        rigged(&[Rank::Ten, Rank::Eight, Rank::Ten, Rank::Ten]),
        100,
        5,
    );
    assert_eq!(game.new_deal(), Ok(()));
    assert_eq!(game.stand(), Ok(()));
    assert_eq!(game.round_result(), RoundResult::DealerWins);
    game.update_money();
    assert_eq!(game.money, 95);
}

#[test]
fn rigged_deal_auto_stands_and_player_wins() {
    let mut game = Game::new(
        rigged(&[Rank::Ace, Rank::Ten, Rank::Seven, Rank::Nine, Rank::Two]),
        100,
        5,
    );
    assert_eq!(game.new_deal(), Ok(()));
    assert!(game.hand_done);
    assert_eq!(game.player.total().value, 21);
    // The dealer held 16 and was forced to draw once more.
    assert_eq!(game.dealer.len(), 3);
    assert_eq!(game.dealer.total().value, 18);
    assert_eq!(game.round_result(), RoundResult::PlayerWins);
}

#[test]
fn rigged_deal_auto_stands_and_dealer_busts() {
    let mut game = Game::new(
        rigged(&[Rank::Ace, Rank::Ten, Rank::Seven, Rank::Nine, Rank::Ten]),
        100,
        5,
    );
    assert_eq!(game.new_deal(), Ok(()));
    assert!(game.hand_done);
    assert_eq!(game.player.total().value, 21);
    assert_eq!(game.dealer.total().value, 26);
    assert_eq!(game.round_result(), RoundResult::DealerBust);
}

#[test]
fn insufficient_funds_leaves_the_game_unchanged() {
    let mut game = Game::new(rigged(&[Rank::Ten, Rank::Ten, Rank::Ten, Rank::Ten]), 3, 5);
    assert_eq!(game.new_deal(), Err(GameError::InsufficientFunds));
    assert_eq!(game.money, 3);
    assert_eq!(game.player.len(), 0);
    assert_eq!(game.dealer.len(), 0);
    assert!(!game.hand_done);
}

#[test]
fn exhausted_shoe_aborts_the_deal() {
    let mut game = Game::new(Shoe::stacked(Vec::new()), 100, 5);
    assert_eq!(game.new_deal(), Err(GameError::ShoeExhausted));
    assert_eq!(game.money, 95);
    assert!(game.hand_done);
}

#[test]
fn default_game_plays_from_an_unlimited_shoe() {
    let mut game = Game::default();
    assert_eq!(game.money, 100);
    assert_eq!(game.bet, 5);
    assert_eq!(game.new_deal(), Ok(()));
    assert_eq!(game.money, 95);
    assert_eq!(game.player.len(), 2);
}

#[test]
fn round_result_text_announces_each_outcome() {
    assert_eq!(RoundResult::PlayerBust.text(), "Bust!");
    assert_eq!(RoundResult::DealerBust.text(), "Dealer bust, you win!");
    assert_eq!(RoundResult::PlayerWins.text(), "You win!");
    assert_eq!(RoundResult::DealerWins.text(), "Dealer wins!");
    assert_eq!(RoundResult::Tie.text(), "It's a tie!");
}
