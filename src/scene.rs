use vstd::prelude::*;

use crate::board::{
    bar_of, board_wf, is_card, is_slot, live, occupied, placed_at, Board, CardSlot, CardSlotSprite,
    EntityData, SlotRole,
};
use crate::card::{Card, CardSuit};
use crate::card_filter::{filter_of, lemma_filter_of, CardFilter};
use crate::health::{health_of, Health, MaxHealth};
use crate::status_bar::{BarSize, StatusBar};

verus! {

/// The player's maximum health, and the health the player starts with.
pub const PLAYER_MAX_HEALTH: u32 = 20;

/// Width of the player's health bar.
pub const HEALTH_BAR_WIDTH: u32 = 145;

/// Height of the player's health bar.
pub const HEALTH_BAR_HEIGHT: u32 = 35;

/// The ids of the entities of the opening scene.
#[derive(Clone, Copy, Debug)]
pub struct Scene {
    pub player: usize,
    pub body: usize,
    pub weapon: usize,
    pub health_bar: usize,
    /// The four starting slots, each holding the card beside it.
    pub hand_slots: [usize; 4],
    pub hand_cards: [usize; 4],
}

/// The suits and ranks of the four starting cards, in order.
pub open spec fn hand_card(i: int) -> (CardSuit, u32) {
    if i == 0 {
        (CardSuit::Hearts, 11)
    } else if i == 1 {
        (CardSuit::Diamonds, 10)
    } else if i == 2 {
        (CardSuit::Diamonds, 13)
    } else {
        (CardSuit::Clubs, 10)
    }
}

/// A slot that takes cards from the starting hand.
pub open spec fn hand_slot() -> CardSlot {
    CardSlot {
        sprite: Some(CardSlotSprite::Empty),
        filter: None,
        show_when_occupied: true,
        role: SlotRole::Plain,
    }
}

/// What holds of the opening scene.
pub open spec fn scene_wf(s: Seq<EntityData>, sc: Scene) -> bool {
    &&& board_wf(s)
    &&& s.len() < 100
    &&& live(s, sc.player as int)
    &&& s[sc.player as int].max_health == Some(MaxHealth(PLAYER_MAX_HEALTH))
    &&& s[sc.player as int].health == Some(health_of(PLAYER_MAX_HEALTH))
    &&& is_slot(s, sc.body as int)
    &&& s[sc.body as int].slot.unwrap().role == SlotRole::Body {
        player: sc.player,
        weapon: sc.weapon,
    }
    &&& s[sc.body as int].slot.unwrap().filter is None
    &&& !occupied(s, sc.body as int)
    &&& is_slot(s, sc.weapon as int)
    &&& s[sc.weapon as int].slot.unwrap().role == SlotRole::Weapon { player: sc.player }
    &&& s[sc.weapon as int].slot.unwrap().filter == Some(
        filter_of(set![CardSuit::Diamonds], None, None),
    )
    &&& !occupied(s, sc.weapon as int)
    &&& bar_of(s, sc.health_bar as int, sc.player as int)
    &&& forall|i: int|
        0 <= i < 4 ==> {
            &&& is_card(s, sc.hand_cards[i] as int)
            &&& s[sc.hand_cards[i] as int].card.unwrap().spec_suit() == hand_card(i).0
            &&& s[sc.hand_cards[i] as int].card.unwrap().spec_rank() == hand_card(i).1
            &&& placed_at(s, sc.hand_cards[i] as int, sc.hand_slots[i] as int)
            &&& s[sc.hand_slots[i] as int].slot == Some(hand_slot())
            &&& !s[sc.hand_cards[i] as int].locked
        }
}

impl Board {
    /// Adds a slot of the starting hand with `card` on it.
    fn deal(&mut self, suit: CardSuit, rank: u32) -> (r: (usize, usize))
        requires
            old(self).wf(),
            old(self)@.len() < 90,
            1 <= rank <= 13,
        ensures
            final(self).wf(),
            final(self)@.len() == old(self)@.len() + 2,
            r.0 == old(self)@.len(),
            r.1 == old(self)@.len() + 1,
            forall|i: int| #![trigger final(self)@[i]] 0 <= i < old(self)@.len() ==> final(self)@[i] == old(self)@[i],
            is_card(final(self)@, r.1 as int),
            final(self)@[r.1 as int].card.unwrap().spec_suit() == suit,
            final(self)@[r.1 as int].card.unwrap().spec_rank() == rank,
            !final(self)@[r.1 as int].locked,
            placed_at(final(self)@, r.1 as int, r.0 as int),
            final(self)@[r.0 as int].slot == Some(hand_slot()),
    {
        let slot = self.spawn(
            EntityData::new_slot(
                CardSlot {
                    sprite: Some(CardSlotSprite::Empty),
                    filter: None,
                    show_when_occupied: true,
                    role: SlotRole::Plain,
                },
                None,
            ),
        );
        let card = self.spawn(EntityData::new_card(Card::new(suit, rank)));
        let ghost s = self@;
        proof {
            assert(!occupied(s, slot as int)) by {
                if occupied(s, slot as int) {
                    let o = choose|o: int| placed_at(s, o, slot as int);
                    assert(o != card);
                    assert(s[o] == old(self)@[o]);
                }
            }
        }
        self.place(card, slot);
        (slot, card)
    }
}

/// Builds the opening scene: a player at full health with a health bar, a
/// body slot and a weapon slot that takes diamonds, and four starting cards
/// (hearts 11, diamonds 10, diamonds 13, clubs 10), each on a slot of its own.
pub fn setup_scene() -> (r: (Board, Scene))
    ensures
        r.0.wf(),
        scene_wf(r.0@, r.1),
{
    let mut b = Board::new();
    let player = b.spawn(
        EntityData::new_combatant(MaxHealth(PLAYER_MAX_HEALTH), Some(Health::new(PLAYER_MAX_HEALTH))),
    );
    let (s0, c0) = b.deal(CardSuit::Hearts, 11);
    let ghost b0 = b@;
    let (s1, c1) = b.deal(CardSuit::Diamonds, 10);
    let ghost b1 = b@;
    let (s2, c2) = b.deal(CardSuit::Diamonds, 13);
    let ghost b2 = b@;
    let (s3, c3) = b.deal(CardSuit::Clubs, 10);
    let ghost b3 = b@;
    let weapon_suits = [CardSuit::Diamonds];
    let weapon_filter = CardFilter::empty().with_suit(&weapon_suits);
    proof {
        assert(weapon_suits@[0] == CardSuit::Diamonds);
        assert(weapon_suits@.to_set() =~= set![CardSuit::Diamonds]);
    }
    let weapon = b.spawn(
        EntityData::new_slot(
            CardSlot {
                sprite: Some(CardSlotSprite::Weapon),
                filter: Some(weapon_filter),
                show_when_occupied: true,
                role: SlotRole::Weapon { player },
            },
            None,
        ),
    );
    let body = b.spawn(
        EntityData::new_slot(
            CardSlot {
                sprite: Some(CardSlotSprite::Body),
                filter: None,
                show_when_occupied: true,
                role: SlotRole::Body { player, weapon },
            },
            None,
        ),
    );
    let health_bar = b.spawn_status_bar(
        player,
        StatusBar::new(BarSize { width: HEALTH_BAR_WIDTH, height: HEALTH_BAR_HEIGHT }),
    );
    let sc = Scene {
        player,
        body,
        weapon,
        health_bar,
        hand_slots: [s0, s1, s2, s3],
        hand_cards: [c0, c1, c2, c3],
    };
    proof {
        let s = b@;
        lemma_filter_of(set![CardSuit::Diamonds], None, None);
        crate::card_filter::lemma_filter_ext(
            weapon_filter,
            filter_of(set![CardSuit::Diamonds], None, None),
        );
        assert(!occupied(s, body as int)) by {
            if occupied(s, body as int) {
                let o = choose|o: int| placed_at(s, o, body as int);
                assert(is_slot(s, s[o].placed_on.unwrap().0 as int));
            }
        }
        assert(!occupied(s, weapon as int)) by {
            if occupied(s, weapon as int) {
                let o = choose|o: int| placed_at(s, o, weapon as int);
                assert(o < weapon);
                assert(is_slot(s, s[o].placed_on.unwrap().0 as int));
            }
        }
        assert(sc.hand_cards[0] == c0 && sc.hand_cards[1] == c1);
        assert(sc.hand_cards[2] == c2 && sc.hand_cards[3] == c3);
        assert(sc.hand_slots[0] == s0 && sc.hand_slots[1] == s1);
        assert(sc.hand_slots[2] == s2 && sc.hand_slots[3] == s3);
        assert(s[c0 as int] == b0[c0 as int]);
        assert(s[s0 as int] == b0[s0 as int]);
        assert(s[c1 as int] == b1[c1 as int]);
        assert(s[s1 as int] == b1[s1 as int]);
        assert(s[c2 as int] == b2[c2 as int]);
        assert(s[s2 as int] == b2[s2 as int]);
        assert(s[c3 as int] == b3[c3 as int]);
        assert(s[s3 as int] == b3[s3 as int]);
        assert(live(s, player as int));
        assert(s[player as int].health == Some(health_of(PLAYER_MAX_HEALTH)));
        assert(bar_of(s, health_bar as int, player as int));
        assert(forall|i: int|
            0 <= i < 4 ==> {
                &&& is_card(s, sc.hand_cards[i] as int)
                &&& s[sc.hand_cards[i] as int].card.unwrap().spec_suit() == hand_card(i).0
                &&& s[sc.hand_cards[i] as int].card.unwrap().spec_rank() == hand_card(i).1
                &&& placed_at(s, sc.hand_cards[i] as int, sc.hand_slots[i] as int)
                &&& s[sc.hand_slots[i] as int].slot == Some(hand_slot())
                &&& !s[sc.hand_cards[i] as int].locked
            });
    }
    (b, sc)
}

} // verus!
