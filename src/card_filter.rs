use vstd::prelude::*;

use crate::card::{Card, CardSuit};

verus! {

/// A set of suits, one flag per suit.
#[derive(Clone, Copy, Debug, PartialEq, Eq, Structural)]
struct SuitSet {
    hearts: bool,
    diamonds: bool,
    clubs: bool,
    spades: bool,
}

impl SuitSet {
    spec fn has(&self, s: CardSuit) -> bool {
        match s {
            CardSuit::Hearts => self.hearts,
            CardSuit::Diamonds => self.diamonds,
            CardSuit::Clubs => self.clubs,
            CardSuit::Spades => self.spades,
        }
    }

    fn contains(&self, s: CardSuit) -> (r: bool)
        ensures
            r == self.has(s),
    {
        match s {
            CardSuit::Hearts => self.hearts,
            CardSuit::Diamonds => self.diamonds,
            CardSuit::Clubs => self.clubs,
            CardSuit::Spades => self.spades,
        }
    }

    fn insert(&mut self, s: CardSuit)
        ensures
            forall|t: CardSuit| final(self).has(t) == (old(self).has(t) || t == s),
    {
        match s {
            CardSuit::Hearts => self.hearts = true,
            CardSuit::Diamonds => self.diamonds = true,
            CardSuit::Clubs => self.clubs = true,
            CardSuit::Spades => self.spades = true,
        }
    }
}

/// A predicate over cards: a set of accepted suits and an optional,
/// inclusive rank range.
#[derive(Clone, Copy, Debug, PartialEq, Eq, Structural)]
pub struct CardFilter {
    suits: SuitSet,
    /// included
    rank_min: Option<u32>,
    /// included
    rank_max: Option<u32>,
}

/// The filter that accepts the suits in `suits` within the given bounds.
pub closed spec fn filter_of(suits: Set<CardSuit>, min: Option<u32>, max: Option<u32>) -> CardFilter {
    CardFilter {
        suits: SuitSet {
            hearts: suits.contains(CardSuit::Hearts),
            diamonds: suits.contains(CardSuit::Diamonds),
            clubs: suits.contains(CardSuit::Clubs),
            spades: suits.contains(CardSuit::Spades),
        },
        rank_min: min,
        rank_max: max,
    }
}

/// [`filter_of`] has the suits and bounds it is given.
pub proof fn lemma_filter_of(suits: Set<CardSuit>, min: Option<u32>, max: Option<u32>)
    ensures
        filter_of(suits, min, max).suit_set() == suits,
        filter_of(suits, min, max).spec_rank_min() == min,
        filter_of(suits, min, max).spec_rank_max() == max,
{
    assert(filter_of(suits, min, max).suit_set() =~= suits);
}

/// Two filters with the same suits and bounds are the same filter.
pub proof fn lemma_filter_ext(f: CardFilter, g: CardFilter)
    requires
        f.suit_set() == g.suit_set(),
        f.spec_rank_min() == g.spec_rank_min(),
        f.spec_rank_max() == g.spec_rank_max(),
    ensures
        f == g,
{
    assert forall|t: CardSuit| f.suits.has(t) == g.suits.has(t) by {
        assert(f.suit_set().contains(t) == f.suits.has(t));
        assert(g.suit_set().contains(t) == g.suits.has(t));
    }
    assert(f.suits.has(CardSuit::Hearts) == g.suits.has(CardSuit::Hearts));
    assert(f.suits.has(CardSuit::Diamonds) == g.suits.has(CardSuit::Diamonds));
    assert(f.suits.has(CardSuit::Clubs) == g.suits.has(CardSuit::Clubs));
    assert(f.suits.has(CardSuit::Spades) == g.suits.has(CardSuit::Spades));
}

impl CardFilter {
    /// The suits that the filter accepts.
    pub closed spec fn suit_set(&self) -> Set<CardSuit> {
        Set::new(|s: CardSuit| self.suits.has(s))
    }

    pub closed spec fn spec_rank_min(&self) -> Option<u32> {
        self.rank_min
    }

    pub closed spec fn spec_rank_max(&self) -> Option<u32> {
        self.rank_max
    }

    /// Whether the filter lets `card` through: its suit is one of the
    /// filter's suits and its rank lies within the bounds that are set.
    pub open spec fn allows(&self, card: Card) -> bool {
        &&& self.suit_set().contains(card.spec_suit())
        &&& (self.spec_rank_min() matches Some(min) ==> min <= card.spec_rank())
        &&& (self.spec_rank_max() matches Some(max) ==> card.spec_rank() <= max)
    }

    /// Whether `card` passes the filter.
    pub fn check(&self, card: &Card) -> (r: bool)
        ensures
            r == self.allows(*card),
    {
        let suit_ok = self.suits.contains(card.suit());
        let min_ok = match self.rank_min {
            None => true,
            Some(min) => min <= card.rank(),
        };
        let max_ok = match self.rank_max {
            None => true,
            Some(max) => max >= card.rank(),
        };
        suit_ok && min_ok && max_ok
    }

    /// The filter with no suits and no rank bounds: it accepts no card.
    pub fn empty() -> (f: CardFilter)
        ensures
            f.suit_set() == Set::<CardSuit>::empty(),
            f.spec_rank_min() is None,
            f.spec_rank_max() is None,
    {
        let f = CardFilter {
            suits: SuitSet { hearts: false, diamonds: false, clubs: false, spades: false },
            rank_min: None,
            rank_max: None,
        };
        assert(f.suit_set() =~= Set::<CardSuit>::empty());
        f
    }

    /// The same filter, accepting exactly the suits listed.
    pub fn with_suit(self, suits: &[CardSuit]) -> (f: CardFilter)
        ensures
            f.suit_set() == suits@.to_set(),
            f.spec_rank_min() == self.spec_rank_min(),
            f.spec_rank_max() == self.spec_rank_max(),
    {
        let mut set = SuitSet { hearts: false, diamonds: false, clubs: false, spades: false };
        let mut i: usize = 0;
        while i < suits.len()
            invariant
                i <= suits@.len(),
                forall|t: CardSuit| set.has(t) <==> exists|j: int| 0 <= j < i && suits@[j] == t,
            decreases suits@.len() - i,
        {
            let s = suits[i];
            set.insert(s);
            assert forall|t: CardSuit| set.has(t) <==> exists|j: int|
                0 <= j < i + 1 && suits@[j] == t by {
                if t == s {
                    assert(suits@[i as int] == t);
                }
            }
            i = i + 1;
        }
        let f = CardFilter { suits: set, rank_min: self.rank_min, rank_max: self.rank_max };
        assert(f.suit_set() =~= suits@.to_set());
        f
    }

    /// The same filter with an inclusive lower rank bound.
    pub fn with_min_rank(self, min: u32) -> (f: CardFilter)
        ensures
            f.suit_set() == self.suit_set(),
            f.spec_rank_min() == Some(min),
            f.spec_rank_max() == self.spec_rank_max(),
    {
        CardFilter { rank_min: Some(min), ..self }
    }

    /// The same filter with an inclusive upper rank bound.
    pub fn with_max_rank(self, max: u32) -> (f: CardFilter)
        ensures
            f.suit_set() == self.suit_set(),
            f.spec_rank_min() == self.spec_rank_min(),
            f.spec_rank_max() == Some(max),
    {
        CardFilter { rank_max: Some(max), ..self }
    }

    /// The same filter, accepting one rank only.
    pub fn with_exact_rank(self, rank: u32) -> (f: CardFilter)
        ensures
            f.suit_set() == self.suit_set(),
            f.spec_rank_min() == Some(rank),
            f.spec_rank_max() == Some(rank),
    {
        CardFilter { rank_min: Some(rank), rank_max: Some(rank), ..self }
    }
}

} // verus!
