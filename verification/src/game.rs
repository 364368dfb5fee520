//! The round state machine: dealing, the player's hit/stand decisions, the
//! fixed dealer policy, outcome classification, and wager settlement.

use vstd::prelude::*;
use crate::cards::{hard_points, total_value, Card, Hand};
use crate::error::GameError;
use crate::shoe::{
    lemma_shoe_stepped_one, lemma_shoe_stepped_refl, lemma_shoe_stepped_same,
    lemma_shoe_stepped_trans, shoe_stepped, Shoe,
};

verus! {

/// The driver-level phases around a round; the engine itself only
/// distinguishes a running round (`hand_done` false) from a finished one.
#[derive(Clone, Copy, PartialEq, Eq, Structural, Debug)]
pub enum Phase {
    Starting,
    Playing,
    Quitting,
}

/// How a finished round came out, from the player's side.
#[derive(Clone, Copy, PartialEq, Eq, Structural, Debug)]
pub enum RoundResult {
    PlayerBust,
    DealerWins,
    DealerBust,
    PlayerWins,
    Tie,
}

/// The outcome of a round as a function of the two final totals, decided
/// in this order: a player bust loses outright (even against a dealer
/// bust), then a dealer bust wins for the player, then the higher total
/// wins, and equal totals push.
pub open spec fn spec_round_result(p: int, d: int) -> RoundResult {
    if p > 21 {
        RoundResult::PlayerBust
    } else if d > 21 {
        RoundResult::DealerBust
    } else if p > d {
        RoundResult::PlayerWins
    } else if d > p {
        RoundResult::DealerWins
    } else {
        RoundResult::Tie
    }
}

/// The bankroll after settling a finished round, given the bankroll as it
/// stands after the wager was already deducted at deal time: a push
/// returns the wager; a win pays double, or triple when the player's final
/// total is exactly 21; a loss pays nothing.
pub open spec fn settled(money: int, bet: int, outcome: RoundResult, player_total: int) -> int {
    match outcome {
        RoundResult::Tie => money + bet,
        RoundResult::PlayerWins | RoundResult::DealerBust => if player_total == 21 {
            money + 3 * bet
        } else {
            money + 2 * bet
        },
        RoundResult::PlayerBust | RoundResult::DealerWins => money,
    }
}

/// Wager conservation over one round that started with bankroll `money`:
/// the wager leaves the bankroll at deal time, so after settlement a push
/// restores the bankroll exactly, an ordinary win adds one wager, a win
/// with a final total of 21 adds two, and a loss costs one.
pub proof fn lemma_wager_conservation(money: int, bet: int, outcome: RoundResult, player_total: int)
    ensures
        outcome is Tie ==> settled(money - bet, bet, outcome, player_total) == money,
        (outcome is PlayerWins || outcome is DealerBust) && player_total != 21 ==> settled(
            money - bet,
            bet,
            outcome,
            player_total,
        ) == money + bet,
        (outcome is PlayerWins || outcome is DealerBust) && player_total == 21 ==> settled(
            money - bet,
            bet,
            outcome,
            player_total,
        ) == money + 2 * bet,
        (outcome is PlayerBust || outcome is DealerWins) ==> settled(
            money - bet,
            bet,
            outcome,
            player_total,
        ) == money - bet,
{
}

/// The dealer's hand grew from `old_d` to `new_d` under the fixed dealer
/// policy: `old_d` is kept, and a card was added only while the total
/// stood at 16 or less.
pub open spec fn dealer_extended(old_d: Seq<Card>, new_d: Seq<Card>) -> bool {
    &&& old_d.is_prefix_of(new_d)
    &&& forall|k: int| old_d.len() <= k < new_d.len() ==> total_value(new_d.take(k)) <= 16
}

/// How far the dealer's hard total still is from 17; the dealer must keep
/// drawing until this reaches 0.
spec fn dealer_deficit(d: Seq<Card>) -> int {
    if hard_points(d) >= 17 {
        0
    } else {
        17 - hard_points(d)
    }
}

/// One blackjack game: a bankroll with a fixed wager per round, the two
/// hands of the current round, the flag that marks the round finished, and
/// the shoe the cards come from.
pub struct Game {
    pub money: usize,
    pub bet: usize,
    pub player: Hand,
    pub dealer: Hand,
    pub hand_done: bool,
    pub shoe: Shoe,
}

impl Game {
    /// Both hands stay small: the rules never let a hand grow once its
    /// total passed 21, so the hard totals keep within fixed bounds and
    /// all arithmetic on them fits comfortably.
    pub open spec fn hands_bounded(self) -> bool {
        &&& hard_points(self.player@) <= 30
        &&& hard_points(self.dealer@) <= 26
    }

    /// The states the engine keeps itself in: hand totals stay bounded,
    /// and while the round is running the player's total is at most 20 (a
    /// total of 21 or more ends the round at once).
    pub open spec fn wf(self) -> bool {
        &&& self.hands_bounded()
        &&& (!self.hand_done ==> total_value(self.player@) <= 20)
    }

    /// A game over the given shoe, with empty hands and no round running.
    pub fn new(shoe: Shoe, money: usize, bet: usize) -> (g: Game)
        ensures
            g.money == money,
            g.bet == bet,
            g.player@ == Seq::<Card>::empty(),
            g.dealer@ == Seq::<Card>::empty(),
            !g.hand_done,
            g.shoe == shoe,
            g.wf(),
    {
        Game {
            money,
            bet,
            player: Hand::new(),
            dealer: Hand::new(),
            hand_done: false,
            shoe,
        }
    }

    /// Finishes the round under the fixed dealer policy: the dealer draws
    /// while its total is 16 or less and stands on any 17, hard or soft;
    /// then the round is marked done. This fails with `ShoeExhausted`
    /// exactly when a finite shoe runs out while the dealer still owes a
    /// draw; the round counts as done either way.
    pub fn stand(&mut self) -> (r: Result<(), GameError>)
        requires
            old(self).hands_bounded(),
        ensures
            final(self).wf(),
            final(self).hand_done,
            final(self).money == old(self).money,
            final(self).bet == old(self).bet,
            final(self).player == old(self).player,
            dealer_extended(old(self).dealer@, final(self).dealer@),
            shoe_stepped(
                old(self).shoe,
                final(self).shoe,
                final(self).dealer@.skip(old(self).dealer@.len() as int),
            ),
            old(self).shoe is Infinite ==> r is Ok,
            r is Ok ==> total_value(final(self).dealer@) >= 17,
            r is Err ==> (r == Err::<(), GameError>(GameError::ShoeExhausted)
                && final(self).shoe is Finite
                && final(self).shoe.remaining().len() == 0
                && total_value(final(self).dealer@) <= 16),
    {
        let ghost g0 = *self;
        proof {
            lemma_shoe_stepped_refl(g0.shoe);
            assert(self.dealer@.skip(g0.dealer@.len() as int) =~= Seq::<Card>::empty());
        }
        loop
            invariant
                g0 == *old(self),
                self.money == g0.money,
                self.bet == g0.bet,
                self.player == g0.player,
                self.shoe is Infinite == g0.shoe is Infinite,
                g0.hands_bounded(),
                hard_points(self.dealer@) <= 26,
                dealer_extended(g0.dealer@, self.dealer@),
                shoe_stepped(g0.shoe, self.shoe, self.dealer@.skip(g0.dealer@.len() as int)),
            ensures
                self.money == g0.money,
                self.bet == g0.bet,
                self.player == g0.player,
                self.shoe is Infinite == g0.shoe is Infinite,
                hard_points(self.dealer@) <= 26,
                dealer_extended(g0.dealer@, self.dealer@),
                shoe_stepped(g0.shoe, self.shoe, self.dealer@.skip(g0.dealer@.len() as int)),
                total_value(self.dealer@) >= 17,
            decreases dealer_deficit(self.dealer@),
        {
            let t = self.dealer.total();
            if t.value > 16 {
                break;
            }
            let ghost pre = *self;
            match self.shoe.draw() {
                Ok(c) => {
                    self.dealer.push(c);
                    proof {
                        crate::cards::lemma_hand_push(pre.dealer@, c);
                        crate::cards::lemma_rank_value_bounds(c.rank);
                        assert(self.dealer@ == pre.dealer@.push(c));
                        assert forall|k: int|
                            g0.dealer@.len() <= k < self.dealer@.len() implies total_value(
                            self.dealer@.take(k),
                        ) <= 16 by {
                            assert(self.dealer@.take(k) =~= pre.dealer@.take(k));
                            if k == pre.dealer@.len() {
                                assert(pre.dealer@.take(k) =~= pre.dealer@);
                            }
                        }
                        lemma_shoe_stepped_one(pre.shoe, self.shoe, c);
                        lemma_shoe_stepped_trans(
                            g0.shoe,
                            pre.shoe,
                            self.shoe,
                            pre.dealer@.skip(g0.dealer@.len() as int),
                            seq![c],
                        );
                        assert(self.dealer@.skip(g0.dealer@.len() as int) =~= pre.dealer@.skip(
                            g0.dealer@.len() as int,
                        ) + seq![c]);
                    }
                },
                Err(e) => {
                    self.hand_done = true;
                    return Err(e);
                },
            }
        }
        self.hand_done = true;
        Ok(())
    }

    /// Starts a round: deducts the wager, clears both hands, and deals
    /// two cards to the player and two to the dealer, in that order. If
    /// the player's total is already 21 or more, the round resolves at
    /// once through `stand`. Fails with `InsufficientFunds`, changing
    /// nothing, when the bankroll cannot cover the wager; fails with
    /// `ShoeExhausted` when a finite shoe runs out mid-deal, the wager
    /// already spent and the round marked done.
    pub fn new_deal(&mut self) -> (r: Result<(), GameError>)
        requires
            old(self).wf(),
        ensures
            final(self).wf(),
            final(self).bet == old(self).bet,
            old(self).money < old(self).bet ==> (r
                == Err::<(), GameError>(GameError::InsufficientFunds)
                && *final(self) == *old(self)),
            old(self).money >= old(self).bet ==> final(self).money
                == old(self).money - old(self).bet,
            old(self).money >= old(self).bet && old(self).shoe is Infinite ==> r is Ok,
            old(self).money >= old(self).bet ==> shoe_stepped(
                old(self).shoe,
                final(self).shoe,
                final(self).player@ + final(self).dealer@,
            ),
            old(self).money >= old(self).bet && r is Err ==> (r
                == Err::<(), GameError>(GameError::ShoeExhausted)
                && final(self).shoe is Finite
                && final(self).shoe.remaining().len() == 0
                && final(self).hand_done
                && final(self).player@.len() <= 2),
            r is Ok ==> (final(self).player@.len() == 2
                && final(self).dealer@.len() >= 2
                && dealer_extended(final(self).dealer@.take(2), final(self).dealer@)
                && (final(self).hand_done <==> total_value(final(self).player@) >= 21)
                && (final(self).hand_done ==> total_value(final(self).dealer@) >= 17)
                && (!final(self).hand_done ==> final(self).dealer@.len() == 2)),
    {
        if self.money < self.bet {
            return Err(GameError::InsufficientFunds);
        }
        let ghost g0 = *self;
        self.hand_done = false;
        self.money = self.money - self.bet;
        self.player = Hand::new();
        self.dealer = Hand::new();
        let ghost s0 = self.shoe;
        let ghost pre1 = self.shoe;
        match self.player.deal(&mut self.shoe) {
            Err(e) => {
                self.hand_done = true;
                proof {
                    crate::cards::lemma_hard_points_bounds(self.player@);
                    crate::cards::lemma_hard_points_bounds(self.dealer@);
                    lemma_shoe_stepped_refl(s0);
                    lemma_shoe_stepped_same(s0, s0, self.shoe, Seq::<Card>::empty());
                    assert(self.player@ + self.dealer@ =~= Seq::<Card>::empty());
                }
                return Err(e);
            },
            Ok(()) => {},
        }
        proof {
            lemma_shoe_stepped_one(pre1, self.shoe, self.player@.last());
        }
        let ghost acc1 = seq![self.player@.last()];
        let ghost pre2 = self.shoe;
        match self.player.deal(&mut self.shoe) {
            Err(e) => {
                self.hand_done = true;
                proof {
                    crate::cards::lemma_hard_points_bounds(self.player@);
                    crate::cards::lemma_hard_points_bounds(self.dealer@);
                    lemma_shoe_stepped_same(s0, pre2, self.shoe, acc1);
                    assert(self.player@ + self.dealer@ =~= acc1);
                }
                return Err(e);
            },
            Ok(()) => {},
        }
        proof {
            lemma_shoe_stepped_one(pre2, self.shoe, self.player@.last());
            lemma_shoe_stepped_trans(s0, pre2, self.shoe, acc1, seq![self.player@.last()]);
        }
        let ghost acc2 = acc1 + seq![self.player@.last()];
        let ghost pre3 = self.shoe;
        match self.dealer.deal(&mut self.shoe) {
            Err(e) => {
                self.hand_done = true;
                proof {
                    crate::cards::lemma_hard_points_bounds(self.player@);
                    crate::cards::lemma_hard_points_bounds(self.dealer@);
                    lemma_shoe_stepped_same(s0, pre3, self.shoe, acc2);
                    assert(self.player@ + self.dealer@ =~= acc2);
                }
                return Err(e);
            },
            Ok(()) => {},
        }
        proof {
            lemma_shoe_stepped_one(pre3, self.shoe, self.dealer@.last());
            lemma_shoe_stepped_trans(s0, pre3, self.shoe, acc2, seq![self.dealer@.last()]);
        }
        let ghost acc3 = acc2 + seq![self.dealer@.last()];
        let ghost pre4 = self.shoe;
        match self.dealer.deal(&mut self.shoe) {
            Err(e) => {
                self.hand_done = true;
                proof {
                    crate::cards::lemma_hard_points_bounds(self.player@);
                    crate::cards::lemma_hard_points_bounds(self.dealer@);
                    lemma_shoe_stepped_same(s0, pre4, self.shoe, acc3);
                    assert(self.player@ + self.dealer@ =~= acc3);
                }
                return Err(e);
            },
            Ok(()) => {},
        }
        proof {
            lemma_shoe_stepped_one(pre4, self.shoe, self.dealer@.last());
            lemma_shoe_stepped_trans(s0, pre4, self.shoe, acc3, seq![self.dealer@.last()]);
            assert(acc3 + seq![self.dealer@.last()] =~= self.player@ + self.dealer@);
            crate::cards::lemma_hard_points_bounds(self.player@);
            crate::cards::lemma_hard_points_bounds(self.dealer@);
        }
        let t = self.player.total();
        if t.value >= 21 {
            let ghost pre5 = *self;
            let res = self.stand();
            proof {
                lemma_shoe_stepped_trans(
                    s0,
                    pre5.shoe,
                    self.shoe,
                    pre5.player@ + pre5.dealer@,
                    self.dealer@.skip(2),
                );
                assert((pre5.player@ + pre5.dealer@) + self.dealer@.skip(2) =~= self.player@
                    + self.dealer@);
                assert(self.dealer@.take(2) =~= pre5.dealer@);
            }
            res
        } else {
            proof {
                assert(dealer_extended(self.dealer@.take(2), self.dealer@)) by {
                    assert(self.dealer@.take(2) =~= self.dealer@);
                }
            }
            Ok(())
        }
    }

    /// Draws one card into the player's hand. A resulting total of 21
    /// ends the round through `stand` (the dealer plays out); 22 or more
    /// is a bust and ends the round at once with the dealer's hand frozen
    /// as it stands; anything lower leaves the round running.
    pub fn hit(&mut self) -> (r: Result<(), GameError>)
        requires
            old(self).wf(),
            !old(self).hand_done,
        ensures
            final(self).wf(),
            final(self).money == old(self).money,
            final(self).bet == old(self).bet,
            dealer_extended(old(self).dealer@, final(self).dealer@),
            old(self).shoe is Infinite ==> r is Ok,
            r is Err ==> (r == Err::<(), GameError>(GameError::ShoeExhausted)
                && final(self).shoe is Finite
                && final(self).shoe.remaining().len() == 0
                && final(self).hand_done
                && (final(self).player@ == old(self).player@ || final(self).player@
                    == old(self).player@.push(final(self).player@.last()))
                && shoe_stepped(
                    old(self).shoe,
                    final(self).shoe,
                    final(self).player@.skip(old(self).player@.len() as int)
                        + final(self).dealer@.skip(old(self).dealer@.len() as int),
                )),
            r is Ok ==> final(self).player@ == old(self).player@.push(final(self).player@.last()),
            r is Ok && total_value(final(self).player@) < 21 ==> (!final(self).hand_done
                && final(self).dealer@ == old(self).dealer@
                && shoe_stepped(
                old(self).shoe,
                final(self).shoe,
                seq![final(self).player@.last()],
            )),
            r is Ok && total_value(final(self).player@) == 21 ==> (final(self).hand_done
                && total_value(final(self).dealer@) >= 17
                && shoe_stepped(
                old(self).shoe,
                final(self).shoe,
                seq![final(self).player@.last()] + final(self).dealer@.skip(
                    old(self).dealer@.len() as int,
                ),
            )),
            r is Ok && total_value(final(self).player@) > 21 ==> (final(self).hand_done
                && final(self).dealer@ == old(self).dealer@
                && shoe_stepped(
                old(self).shoe,
                final(self).shoe,
                seq![final(self).player@.last()],
            )),
    {
        let ghost g0 = *self;
        match self.shoe.draw() {
            Err(e) => {
                self.hand_done = true;
                proof {
                    assert(dealer_extended(g0.dealer@, self.dealer@));
                    lemma_shoe_stepped_refl(g0.shoe);
                    lemma_shoe_stepped_same(
                        g0.shoe,
                        g0.shoe,
                        self.shoe,
                        Seq::<Card>::empty(),
                    );
                    assert(self.player@.skip(g0.player@.len() as int) + self.dealer@.skip(
                        g0.dealer@.len() as int,
                    ) =~= Seq::<Card>::empty());
                }
                Err(e)
            },
            Ok(c) => {
                self.player.push(c);
                proof {
                    crate::cards::lemma_hand_push(g0.player@, c);
                    crate::cards::lemma_rank_value_bounds(c.rank);
                    lemma_shoe_stepped_one(g0.shoe, self.shoe, c);
                }
                let t = self.player.total();
                if t.value == 21 {
                    let ghost pre = *self;
                    let res = self.stand();
                    proof {
                        lemma_shoe_stepped_trans(
                            g0.shoe,
                            pre.shoe,
                            self.shoe,
                            seq![c],
                            self.dealer@.skip(g0.dealer@.len() as int),
                        );
                        assert(self.player@.skip(g0.player@.len() as int) + self.dealer@.skip(
                            g0.dealer@.len() as int,
                        ) =~= seq![c] + self.dealer@.skip(g0.dealer@.len() as int));
                    }
                    res
                } else if t.value >= 22 {
                    self.hand_done = true;
                    Ok(())
                } else {
                    Ok(())
                }
            },
        }
    }

    /// Classifies the round from the two current totals; meaningful once
    /// the round is finished, but a pure function of the hands at any
    /// time.
    pub fn round_result(&self) -> (res: RoundResult)
        requires
            hard_points(self.player@) <= usize::MAX,
            hard_points(self.dealer@) <= usize::MAX,
        ensures
            res == spec_round_result(total_value(self.player@), total_value(self.dealer@)),
    {
        let p = self.player.total().value;
        let d = self.dealer.total().value;
        if p > 21 {
            RoundResult::PlayerBust
        } else if d > 21 {
            RoundResult::DealerBust
        } else if p > d {
            RoundResult::PlayerWins
        } else if d > p {
            RoundResult::DealerWins
        } else {
            RoundResult::Tie
        }
    }

    /// Credits the bankroll for the finished round: the wager back on a
    /// push, twice the wager on a win, three times on a win with a final
    /// total of exactly 21, nothing on a loss.
    pub fn update_money(&mut self)
        requires
            hard_points(old(self).player@) <= usize::MAX,
            hard_points(old(self).dealer@) <= usize::MAX,
            old(self).money + 3 * old(self).bet <= usize::MAX,
        ensures
            final(self).money == settled(
                old(self).money as int,
                old(self).bet as int,
                spec_round_result(
                    total_value(old(self).player@),
                    total_value(old(self).dealer@),
                ),
                total_value(old(self).player@),
            ),
            final(self).bet == old(self).bet,
            final(self).player == old(self).player,
            final(self).dealer == old(self).dealer,
            final(self).hand_done == old(self).hand_done,
            final(self).shoe == old(self).shoe,
    {
        match self.round_result() {
            RoundResult::Tie => {
                self.money = self.money + self.bet;
            },
            RoundResult::PlayerWins | RoundResult::DealerBust => {
                if self.player.total().value == 21 {
                    self.money = self.money + self.bet * 3;
                } else {
                    self.money = self.money + self.bet * 2;
                }
            },
            RoundResult::PlayerBust | RoundResult::DealerWins => {},
        }
    }
}

impl Default for Game {
    /// The game as it starts up: a bankroll of 100 with a wager of 5 per
    /// round, drawing from an unlimited shoe seeded from entropy.
    fn default() -> (g: Game)
        ensures
            g.money == 100,
            g.bet == 5,
            g.player@ == Seq::<Card>::empty(),
            g.dealer@ == Seq::<Card>::empty(),
            !g.hand_done,
            g.shoe is Infinite,
            g.wf(),
    {
        Game::new(Shoe::new_unlimited(), 100, 5)
    }
}

} // verus!
