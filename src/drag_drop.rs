use vstd::prelude::*;

use crate::board::{is_card, is_slot, live, occupied, Board, EntityData, SlotRole};
use crate::board::{board_wf, placed_at};
use crate::resolution::{
    enemy_suits, lemma_fight_keeps_card, lemma_threat_filter, placed, role_ready,
    spec_threat_filter,
};

verus! {

/// Entity `e` is a card that may be dragged.
pub open spec fn draggable(s: Seq<EntityData>, e: int) -> bool {
    is_card(s, e) && !s[e].locked
}

/// Card `c` dropped on `slot` is accepted: it may be dragged, `slot` is a
/// free slot other than the card whose role can react, and the slot's
/// filter, if any, lets the card through.
pub open spec fn can_drop(s: Seq<EntityData>, c: int, slot: int) -> bool {
    &&& draggable(s, c)
    &&& is_slot(s, slot)
    &&& c != slot
    &&& !occupied(s, slot)
    &&& role_ready(s, slot)
    &&& (s[slot].slot.unwrap().filter matches Some(f) ==> f.allows(s[c].card.unwrap()))
}

/// `s` after a drag of `e` starts: a draggable card stops being pickable and
/// keeps its start position; anything else is left alone.
pub open spec fn drag_started(s: Seq<EntityData>, e: int) -> Seq<EntityData> {
    if draggable(s, e) {
        s.update(e, EntityData { pickable: false, drag_origin: true, ..s[e] })
    } else {
        s
    }
}

/// `s` after card `c` is dropped on `slot`: an accepted drop forgets the
/// start position and places the card, with the slot's whole reaction; a
/// rejected one changes nothing. A board that has handed out every id it
/// can name refuses drops.
pub open spec fn dropped(s: Seq<EntityData>, c: int, slot: int) -> Seq<EntityData> {
    if can_drop(s, c, slot) && s.len() < usize::MAX {
        placed(s.update(c, EntityData { drag_origin: false, ..s[c] }), c, slot)
    } else {
        s
    }
}

/// `s` after a drag of `e` ends: a card, locked or not, is pickable again
/// and its start position is forgotten.
pub open spec fn drag_ended(s: Seq<EntityData>, e: int) -> Seq<EntityData> {
    if is_card(s, e) {
        s.update(e, EntityData { pickable: true, drag_origin: false, ..s[e] })
    } else {
        s
    }
}

/// Weapon stacking through a drop: on a free threat slot whose ceiling is
/// `r - 1`, left by a fight against an enemy of rank `r`, a draggable enemy
/// card is accepted and stays there exactly when its rank is below `r`; a
/// card of rank `r` or more is refused and the board is left as it was.
pub proof fn lemma_threat_drop(s: Seq<EntityData>, c: int, slot: int, r: u32)
    requires
        board_wf(s),
        draggable(s, c),
        is_slot(s, slot),
        c != slot,
        !occupied(s, slot),
        role_ready(s, slot),
        s[slot].slot.unwrap().role is Threat,
        s[slot].slot.unwrap().filter == Some(spec_threat_filter(Some((r - 1) as u32))),
        1 <= r,
        enemy_suits().contains(s[c].card.unwrap().spec_suit()),
        s.len() < usize::MAX,
    ensures
        can_drop(s, c, slot) <==> s[c].card.unwrap().spec_rank() < r,
        s[c].card.unwrap().spec_rank() >= r ==> dropped(s, c, slot) == s,
        s[c].card.unwrap().spec_rank() < r ==> placed_at(dropped(s, c, slot), c, slot),
{
    lemma_threat_filter(Some((r - 1) as u32), s[c].card.unwrap());
    if s[c].card.unwrap().spec_rank() < r {
        let s1 = s.update(c, EntityData { drag_origin: false, ..s[c] });
        assert(!occupied(s1, slot)) by {
            if occupied(s1, slot) {
                let o = choose|o: int| placed_at(s1, o, slot);
                assert(placed_at(s, o, slot));
            }
        }
        assert(board_wf(s1)) by {
            assert forall|i: int| #![trigger s1[i]] live(s1, i) <==> live(s, i) by {}
            assert forall|i: int| #![trigger s1[i]] is_slot(s1, i) <==> is_slot(s, i) by {}
        }
        lemma_fight_keeps_card(s1, c, slot);
    }
}

impl Board {
    /// Whether `e` is a card that may be dragged.
    pub fn is_draggable(&self, e: usize) -> (r: bool)
        ensures
            r == draggable(self@, e as int),
    {
        self.is_live(e) && self.entity(e).card.is_some() && !self.entity(e).locked
    }

    /// Starts a drag of `e`; returns whether a drag began, in which case the
    /// caller keeps the card's start position.
    pub fn drag_start(&mut self, e: usize) -> (started: bool)
        requires
            old(self).wf(),
        ensures
            final(self).wf(),
            started == draggable(old(self)@, e as int),
            final(self)@ == drag_started(old(self)@, e as int),
    {
        if self.is_draggable(e) {
            self.set_drag_flags(e, false, true);
            true
        } else {
            false
        }
    }

    /// Whether card `c` dropped on `slot` would be accepted.
    pub fn accepts_drop(&self, c: usize, slot: usize) -> (r: bool)
        requires
            self.wf(),
        ensures
            r == can_drop(self@, c as int, slot as int),
    {
        if !self.is_draggable(c) || c == slot {
            return false;
        }
        if !(self.is_live(slot) && self.entity(slot).slot.is_some()) {
            return false;
        }
        if self.placement_of(slot).is_some() {
            return false;
        }
        let ready = match self.entity(slot).slot.unwrap().role {
            SlotRole::Plain => true,
            SlotRole::Body { player, weapon: _ } => self.is_live(player) && self.entity(player).max_health.is_some(),
            SlotRole::Weapon { player } => self.is_live(player) && self.entity(player).max_health.is_some(),
            SlotRole::Threat { player, weapon_rank: _ } => self.is_live(player) && self.entity(player).max_health.is_some(),
        };
        if !ready {
            return false;
        }
        match self.entity(slot).slot.unwrap().filter {
            Some(f) => f.check(&self.entity(c).card.unwrap()),
            None => true,
        }
    }

    /// Drops card `c` on `slot`. Returns whether the drop was accepted; an
    /// accepted drop places the card and runs the slot's reaction, a
    /// rejected one changes nothing.
    pub fn drop_card(&mut self, c: usize, slot: usize) -> (accepted: bool)
        requires
            old(self).wf(),
        ensures
            final(self).wf(),
            accepted == (can_drop(old(self)@, c as int, slot as int) && old(self)@.len()
                < usize::MAX),
            final(self)@ == dropped(old(self)@, c as int, slot as int),
    {
        if self.len() == usize::MAX || !self.accepts_drop(c, slot) {
            return false;
        }
        let pickable = self.entity(c).pickable;
        self.set_drag_flags(c, pickable, false);
        let ghost s1 = self@;
        proof {
            assert(!occupied(s1, slot as int)) by {
                if occupied(s1, slot as int) {
                    let o = choose|o: int| crate::board::placed_at(s1, o, slot as int);
                    assert(crate::board::placed_at(old(self)@, o, slot as int));
                }
            }
            assert(s1 == old(self)@.update(
                c as int,
                EntityData { drag_origin: false, ..old(self)@[c as int] },
            ));
        }
        self.place(c, slot);
        true
    }

    /// Ends a drag of `e`. Returns whether the caller must put the card back
    /// at its start position: true when the drag was not ended by an
    /// accepted drop.
    pub fn drag_end(&mut self, e: usize) -> (restore: bool)
        requires
            old(self).wf(),
        ensures
            final(self).wf(),
            restore == (is_card(old(self)@, e as int) && old(self)@[e as int].drag_origin),
            final(self)@ == drag_ended(old(self)@, e as int),
    {
        if self.is_live(e) && self.entity(e).card.is_some() {
            let restore = self.entity(e).drag_origin;
            self.set_drag_flags(e, true, false);
            restore
        } else {
            false
        }
    }
}

} // verus!
