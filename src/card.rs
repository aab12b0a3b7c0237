use vstd::prelude::*;

verus! {

/// The four suits of a card.
#[derive(Clone, Copy, Debug, PartialEq, Eq, Structural)]
pub enum CardSuit {
    Hearts,
    Diamonds,
    Clubs,
    Spades,
}

/// An immutable playing card: a suit and a rank.
#[derive(Clone, Copy, Debug, PartialEq, Eq, Structural)]
pub struct Card {
    suit: CardSuit,
    rank: u32,
}

/// Returned when a card is built from a rank outside `1..=13`.
#[derive(Debug, PartialEq, Eq, Structural)]
pub struct InvalideCardError;

/// Ranks that a card may carry.
pub open spec fn valid_rank(rank: u32) -> bool {
    1 <= rank <= 13
}

impl Card {
    pub closed spec fn spec_suit(&self) -> CardSuit {
        self.suit
    }

    pub closed spec fn spec_rank(&self) -> u32 {
        self.rank
    }

    /// A card whose rank lies in `1..=13`.
    pub open spec fn wf(&self) -> bool {
        valid_rank(self.spec_rank())
    }

    /// Builds a card; the rank must lie in `1..=13`.
    pub fn new(suit: CardSuit, rank: u32) -> (c: Card)
        requires
            valid_rank(rank),
        ensures
            c.spec_suit() == suit,
            c.spec_rank() == rank,
            c.wf(),
    {
        match Self::try_new(suit, rank) {
            Ok(t) => t,
            Err(_) => Card { suit, rank },
        }
    }

    /// Builds a card, or reports a rank outside `1..=13`.
    pub fn try_new(suit: CardSuit, rank: u32) -> (r: Result<Card, InvalideCardError>)
        ensures
            r is Ok <==> valid_rank(rank),
            r matches Ok(c) ==> c.spec_suit() == suit && c.spec_rank() == rank,
    {
        if !(1 <= rank && rank <= 13) {
            Err(InvalideCardError)
        } else {
            Ok(Self::new_unchecked(suit, rank))
        }
    }

    /// Builds a card without checking its rank.
    pub fn new_unchecked(suit: CardSuit, rank: u32) -> (c: Card)
        ensures
            c.spec_suit() == suit,
            c.spec_rank() == rank,
    {
        Card { suit, rank }
    }

    #[verifier::when_used_as_spec(spec_suit)]
    pub fn suit(&self) -> (s: CardSuit)
        ensures
            s == self.spec_suit(),
    {
        self.suit
    }

    #[verifier::when_used_as_spec(spec_rank)]
    pub fn rank(&self) -> (r: u32)
        ensures
            r == self.spec_rank(),
    {
        self.rank
    }
}

} // verus!
