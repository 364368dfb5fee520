//! Human-readable rendering of cards, hands, totals, and outcomes, each as
//! a plain `String` with an exact character-level specification.

use vstd::prelude::*;
use vstd::string::*;
use vstd::arithmetic::div_mod::{lemma_div_decreases, lemma_mod_division_less_than_divisor};
use crate::cards::{hard_points, is_soft, total_value, Card, Hand, Rank, Suit, Total};
use crate::game::RoundResult;

verus! {

/// The digit character for a value below ten.
pub open spec fn digit_char(d: int) -> char {
    if d == 0 {
        '0'
    } else if d == 1 {
        '1'
    } else if d == 2 {
        '2'
    } else if d == 3 {
        '3'
    } else if d == 4 {
        '4'
    } else if d == 5 {
        '5'
    } else if d == 6 {
        '6'
    } else if d == 7 {
        '7'
    } else if d == 8 {
        '8'
    } else {
        '9'
    }
}

/// The decimal digits of `n`, most significant first.
pub open spec fn dec_digits(n: int) -> Seq<char>
    recommends
        n >= 0,
    decreases n,
    when n >= 0
    via dec_digits_decreases
{
    if n < 10 {
        seq![digit_char(n)]
    } else {
        dec_digits(n / 10).push(digit_char(n % 10))
    }
}

#[via_fn]
proof fn dec_digits_decreases(n: int) {
    if n >= 10 {
        lemma_div_decreases(n, 10);
        lemma_mod_division_less_than_divisor(n, 10);
    }
}

fn digit_str(d: usize) -> (r: &'static str)
    requires
        d < 10,
    ensures
        r@ =~= seq![digit_char(d as int)],
{
    let r: &'static str = if d == 0 {
        "0"
    } else if d == 1 {
        "1"
    } else if d == 2 {
        "2"
    } else if d == 3 {
        "3"
    } else if d == 4 {
        "4"
    } else if d == 5 {
        "5"
    } else if d == 6 {
        "6"
    } else if d == 7 {
        "7"
    } else if d == 8 {
        "8"
    } else {
        "9"
    };
    proof {
        reveal_strlit("0");
        reveal_strlit("1");
        reveal_strlit("2");
        reveal_strlit("3");
        reveal_strlit("4");
        reveal_strlit("5");
        reveal_strlit("6");
        reveal_strlit("7");
        reveal_strlit("8");
        reveal_strlit("9");
    }
    r
}

/// Renders a number in decimal.
pub fn dec_string(n: usize) -> (r: String)
    ensures
        r@ == dec_digits(n as int),
    decreases n,
{
    if n < 10 {
        String::from_str(digit_str(n))
    } else {
        proof {
            lemma_div_decreases(n as int, 10);
            lemma_mod_division_less_than_divisor(n as int, 10);
        }
        let mut r = dec_string(n / 10);
        r.append(digit_str(n % 10));
        r
    }
}

/// The one-character symbol of a suit.
pub open spec fn suit_text_spec(s: Suit) -> Seq<char> {
    match s {
        Suit::Spades => "♠"@,
        Suit::Clubs => "♣"@,
        Suit::Diamonds => "♦"@,
        Suit::Hearts => "♥"@,
    }
}

/// The short symbol of a rank: `A`, the number, or `J`/`Q`/`K`.
pub open spec fn rank_text_spec(r: Rank) -> Seq<char> {
    match r {
        Rank::Ace => "A"@,
        Rank::Jack => "J"@,
        Rank::Queen => "Q"@,
        Rank::King => "K"@,
        _ => dec_digits(crate::cards::rank_value_spec(r)),
    }
}

/// A card rendered as its rank symbol, its suit symbol, and a trailing
/// space.
pub open spec fn card_text_spec(c: Card) -> Seq<char> {
    rank_text_spec(c.rank) + suit_text_spec(c.suit) + " "@
}

/// All cards of a hand rendered in deal order.
pub open spec fn cards_text_spec(s: Seq<Card>) -> Seq<char>
    decreases s.len(),
{
    if s.len() == 0 {
        Seq::<char>::empty()
    } else {
        cards_text_spec(s.drop_last()) + card_text_spec(s.last())
    }
}

/// A total rendered as `soft N` or `total N`.
pub open spec fn total_text_spec(t: Total) -> Seq<char> {
    (if t.soft {
        "soft "@
    } else {
        "total "@
    }) + dec_digits(t.value as int)
}

/// A hand rendered as its cards followed by the parenthesized total.
pub open spec fn hand_text_spec(s: Seq<Card>) -> Seq<char> {
    cards_text_spec(s) + "("@ + (if is_soft(s) {
        "soft "@
    } else {
        "total "@
    }) + dec_digits(total_value(s)) + ")"@
}

/// The announcement for each outcome.
pub open spec fn round_result_text_spec(r: RoundResult) -> Seq<char> {
    match r {
        RoundResult::PlayerBust => "Bust!"@,
        RoundResult::DealerBust => "Dealer bust, you win!"@,
        RoundResult::PlayerWins => "You win!"@,
        RoundResult::DealerWins => "Dealer wins!"@,
        RoundResult::Tie => "It's a tie!"@,
    }
}

impl Suit {
    /// The suit's one-character symbol.
    pub fn text(&self) -> (r: &'static str)
        ensures
            r@ == suit_text_spec(*self),
    {
        match self {
            Suit::Spades => "♠",
            Suit::Clubs => "♣",
            Suit::Diamonds => "♦",
            Suit::Hearts => "♥",
        }
    }
}

impl Rank {
    /// The rank's short symbol.
    pub fn text(&self) -> (r: String)
        ensures
            r@ == rank_text_spec(*self),
    {
        match self {
            Rank::Ace => String::from_str("A"),
            Rank::Jack => String::from_str("J"),
            Rank::Queen => String::from_str("Q"),
            Rank::King => String::from_str("K"),
            _ => dec_string(self.value()),
        }
    }
}

impl Card {
    /// The card as text, e.g. `A♠ ` or `10♦ `.
    pub fn text(&self) -> (r: String)
        ensures
            r@ == card_text_spec(*self),
    {
        let mut r = self.rank.text();
        r.append(self.suit.text());
        r.append(" ");
        r
    }
}

impl Total {
    /// The total as text, e.g. `total 18` or `soft 17`.
    pub fn text(&self) -> (r: String)
        ensures
            r@ == total_text_spec(*self),
    {
        let mut r = if self.soft {
            String::from_str("soft ")
        } else {
            String::from_str("total ")
        };
        r.append(dec_string(self.value).as_str());
        r
    }
}

impl Hand {
    /// The hand as text: its cards in deal order, then the parenthesized
    /// total, e.g. `A♠ 10♦ (total 21)`.
    pub fn text(&self) -> (r: String)
        requires
            hard_points(self@) <= usize::MAX,
        ensures
            r@ == hand_text_spec(self@),
    {
        let ghost all = self@;
        let mut r = String::new();
        let mut i: usize = 0;
        while i < self.len()
            invariant
                0 <= i <= all.len(),
                self@ == all,
                r@ == cards_text_spec(all.take(i as int)),
            decreases all.len() - i,
        {
            proof {
                assert(all.take(i + 1).drop_last() =~= all.take(i as int));
                assert(all.take(i + 1).last() == all[i as int]);
            }
            r.append(self.card_at(i).text().as_str());
            i = i + 1;
        }
        proof {
            assert(all.take(all.len() as int) =~= all);
        }
        r.append("(");
        let t = self.total();
        r.append(t.text().as_str());
        r.append(")");
        proof {
            assert(dec_digits(t.value as int) == dec_digits(total_value(all)));
        }
        r
    }
}

impl RoundResult {
    /// The outcome's announcement, e.g. `You win!`.
    pub fn text(&self) -> (r: &'static str)
        ensures
            r@ == round_result_text_spec(*self),
    {
        match self {
            RoundResult::PlayerBust => "Bust!",
            RoundResult::DealerBust => "Dealer bust, you win!",
            RoundResult::PlayerWins => "You win!",
            RoundResult::DealerWins => "Dealer wins!",
            RoundResult::Tie => "It's a tie!",
        }
    }
}

} // verus!
