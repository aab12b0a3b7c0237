use vstd::prelude::*;

use crate::board::{
    attached, board_wf, lemma_attached_frame, lemma_detached_frame, detached, first_bar_from, health_adjusted, is_card, is_slot,
    lemma_first_bar, live, locked_at, marked, occupant, occupied, placed_at, slot_data, Board,
    CardSlot, CardSlotSprite, EntityData, RecievedCard, SlotRole,
};
use crate::health::{adjusted, AdjustHealth};
use crate::card::{Card, CardSuit};
use crate::card_filter::{filter_of, lemma_filter_ext, lemma_filter_of, CardFilter};

verus! {

/// The suits of enemies.
pub open spec fn enemy_suits() -> Set<CardSuit> {
    set![CardSuit::Clubs, CardSuit::Spades]
}

/// The filter of a threat slot: enemies only, up to `ceiling` if one is set.
pub open spec fn spec_threat_filter(ceiling: Option<u32>) -> CardFilter {
    filter_of(enemy_suits(), None, ceiling)
}

/// A threat slot hanging under card `parent`.
pub open spec fn threat_slot(
    parent: int,
    player: usize,
    weapon_rank: u32,
    ceiling: Option<u32>,
) -> EntityData {
    slot_data(
        CardSlot {
            sprite: Some(CardSlotSprite::Enemy),
            filter: Some(spec_threat_filter(ceiling)),
            show_when_occupied: false,
            role: SlotRole::Threat { player, weapon_rank },
        },
        Some(parent as usize),
    )
}

/// The rank of card `c`.
pub open spec fn rank_of(s: Seq<EntityData>, c: int) -> u32 {
    s[c].card.unwrap().spec_rank()
}

/// The damage an enemy of rank `enemy` deals to a player who fights it with
/// a weapon of rank `weapon`: what the enemy exceeds the weapon by.
pub open spec fn mitigated_damage(enemy: u32, weapon: u32) -> int {
    if enemy > weapon {
        enemy - weapon
    } else {
        0
    }
}

/// Slot `slot` can react: the player its role names, if any, is live and has
/// a maximum health.
pub open spec fn role_ready(s: Seq<EntityData>, slot: int) -> bool {
    match s[slot].slot.unwrap().role {
        SlotRole::Plain => true,
        SlotRole::Body { player, weapon } => live(s, player as int) && s[player as int].max_health is Some,
        SlotRole::Weapon { player } => live(s, player as int) && s[player as int].max_health is Some,
        SlotRole::Threat { player, weapon_rank } => live(s, player as int)
            && s[player as int].max_health is Some,
    }
}

/// Card `c` equipped as the weapon of `player`: it is locked, and an
/// unbounded threat slot hangs under it.
pub open spec fn armed(s: Seq<EntityData>, c: int, player: usize) -> Seq<EntityData> {
    locked_at(s, c).push(threat_slot(c, player, rank_of(s, c), None))
}

/// Enemy `c` fought with a weapon of rank `weapon_rank`: it is locked, a
/// threat slot for enemies of lower rank hangs under it, and the player
/// takes the mitigated damage.
pub open spec fn fought(
    s: Seq<EntityData>,
    c: int,
    player: usize,
    weapon_rank: u32,
) -> Seq<EntityData> {
    let r = rank_of(s, c);
    health_adjusted(
        locked_at(s, c).push(threat_slot(c, player, weapon_rank, Some((r - 1) as u32))),
        player as int,
        (0 - mitigated_damage(r, weapon_rank)) as i32,
    )
}

/// Card `c` moved to slot `weapon`: the card that lay there is taken off and
/// marked for despawn, `c` is put there and, when `weapon` is a weapon
/// slot, equipped.
pub open spec fn equipped(s: Seq<EntityData>, c: int, weapon: int) -> Seq<EntityData> {
    let s1 = if is_slot(s, weapon) && occupied(s, weapon) {
        marked(detached(s, occupant(s, weapon)), occupant(s, weapon))
    } else {
        s
    };
    if is_slot(s1, weapon) && c != weapon {
        let s2 = attached(s1, c, weapon);
        match s2[weapon].slot.unwrap().role {
            SlotRole::Weapon { player } => armed(s2, c, player),
            _ => s2,
        }
    } else {
        s1
    }
}

/// Card `c` received by the body of `player`: hearts heal, diamonds are
/// equipped, clubs and spades hurt; a card that heals or hurts is marked for
/// despawn.
pub open spec fn body_received(
    s: Seq<EntityData>,
    c: int,
    player: usize,
    weapon: usize,
) -> Seq<EntityData> {
    let r = rank_of(s, c);
    match s[c].card.unwrap().spec_suit() {
        CardSuit::Hearts => marked(health_adjusted(s, player as int, r as i32), c),
        CardSuit::Diamonds => equipped(s, c, weapon as int),
        _ => marked(health_adjusted(s, player as int, (0 - r) as i32), c),
    }
}

/// What slot `slot` does on receiving card `c`, by its role.
pub open spec fn received(s: Seq<EntityData>, slot: int, c: int) -> Seq<EntityData> {
    match s[slot].slot.unwrap().role {
        SlotRole::Plain => s,
        SlotRole::Body { player, weapon } => body_received(s, c, player, weapon),
        SlotRole::Weapon { player } => armed(s, c, player),
        SlotRole::Threat { player, weapon_rank } => fought(s, c, player, weapon_rank),
    }
}

/// Card `c` placed on `slot`, and the slot's reaction to it.
pub open spec fn placed(s: Seq<EntityData>, c: int, slot: int) -> Seq<EntityData> {
    received(attached(s, c, slot), slot, c)
}

/// The filter of a threat slot: clubs and spades, up to `ceiling` if set.
pub fn threat_filter(ceiling: Option<u32>) -> (f: CardFilter)
    ensures
        f == spec_threat_filter(ceiling),
{
    let suits = [CardSuit::Clubs, CardSuit::Spades];
    let f = CardFilter::empty().with_suit(&suits);
    let f = match ceiling {
        Some(m) => f.with_max_rank(m),
        None => f,
    };
    proof {
        assert(suits@.to_set() =~= enemy_suits()) by {
            assert(suits@[0] == CardSuit::Clubs);
            assert(suits@[1] == CardSuit::Spades);
        }
        lemma_filter_of(enemy_suits(), None, ceiling);
        lemma_filter_ext(f, spec_threat_filter(ceiling));
    }
    f
}

/// A threat slot with ceiling `Some(r - 1)` accepts exactly the enemies of
/// rank below `r`; one without a ceiling accepts every enemy.
pub proof fn lemma_threat_filter(ceiling: Option<u32>, next: Card)
    ensures
        spec_threat_filter(ceiling).allows(next) <==> (enemy_suits().contains(next.spec_suit())
            && (ceiling matches Some(m) ==> next.spec_rank() <= m)),
{
    lemma_filter_of(enemy_suits(), None, ceiling);
}

/// Adjusting a player's health touches neither a new entity that has no
/// health nor status bar, nor any placement.
proof fn lemma_harm_frame(s: Seq<EntityData>, p: int, delta: i32, n: int)
    requires
        0 <= n < s.len(),
        live(s, p),
        s[p].max_health is Some,
        s[n].max_health is None,
        s[n].status_bar is None,
    ensures
        health_adjusted(s, p, delta).len() == s.len(),
        health_adjusted(s, p, delta)[n] == s[n],
        forall|i: int|
            #![trigger health_adjusted(s, p, delta)[i]]
            0 <= i < s.len() ==> health_adjusted(s, p, delta)[i].placed_on == s[i].placed_on
                && health_adjusted(s, p, delta)[i].alive == s[i].alive,
{
    let h = adjusted(s[p].health, s[p].max_health.unwrap(), delta);
    let s1 = s.update(p, EntityData { health: h, ..s[p] });
    lemma_first_bar(s1, p, 0);
}

/// Weapon stacking: when a threat slot receives an enemy of rank `r`, a new
/// free threat slot hangs under that enemy, for the same weapon, and it
/// accepts exactly the enemies of rank below `r`.
pub proof fn lemma_weapon_stacking(s: Seq<EntityData>, c: int, slot: int, next: Card)
    requires
        board_wf(s),
        is_card(s, c),
        is_slot(s, slot),
        c != slot,
        !occupied(s, slot),
        s[slot].slot.unwrap().role is Threat,
        role_ready(s, slot),
        s.len() < usize::MAX,
    ensures
        ({
            let t = placed(s, c, slot);
            let n = s.len() as int;
            &&& is_slot(t, n)
            &&& !occupied(t, n)
            &&& t[n].parent == Some(c as usize)
            &&& t[n].slot.unwrap().role == s[slot].slot.unwrap().role
            &&& t[n].slot.unwrap().filter matches Some(f) && (f.allows(next) <==> (
            enemy_suits().contains(next.spec_suit()) && next.spec_rank() < rank_of(s, c)))
        }),
{
    lemma_new_threat_slot(s, c, slot);
    let r = rank_of(s, c);
    assert(s[c].card.unwrap().wf());
    lemma_threat_filter(Some((r - 1) as u32), next);
}

/// Equipping a weapon: when a weapon slot receives a card, a new free
/// threat slot hangs under it that accepts every enemy.
pub proof fn lemma_weapon_opens_threat(s: Seq<EntityData>, c: int, slot: int, next: Card)
    requires
        board_wf(s),
        is_card(s, c),
        is_slot(s, slot),
        c != slot,
        !occupied(s, slot),
        s[slot].slot.unwrap().role is Weapon,
        role_ready(s, slot),
        s.len() < usize::MAX,
    ensures
        ({
            let t = placed(s, c, slot);
            let n = s.len() as int;
            &&& is_slot(t, n)
            &&& !occupied(t, n)
            &&& t[n].parent == Some(c as usize)
            &&& t[n].slot.unwrap().filter matches Some(f) && (f.allows(next) <==> enemy_suits().contains(next.spec_suit()))
        }),
{
    lemma_new_threat_slot(s, c, slot);
    lemma_threat_filter(None, next);
}

/// Re-equipping: when the body receives a diamond while the weapon slot
/// holds another card, that card leaves the slot and is marked for despawn
/// but stays live until the sweep; the diamond moves to the weapon slot,
/// unmarked and locked, leaving the body free; no health changes; and a new
/// free threat slot without a ceiling hangs under the diamond.
pub proof fn lemma_reequip(
    s: Seq<EntityData>,
    c: int,
    body: int,
    ws: int,
    o: int,
    player: usize,
)
    requires
        board_wf(s),
        is_card(s, c),
        s[c].card.unwrap().spec_suit() == CardSuit::Diamonds,
        !s[c].despawn_pending,
        is_slot(s, body),
        s[body].slot.unwrap().role == (SlotRole::Body { player, weapon: ws as usize }),
        is_slot(s, ws),
        s[ws].slot.unwrap().role == (SlotRole::Weapon { player }),
        placed_at(s, c, body),
        placed_at(s, o, ws),
        c != ws,
        body != ws,
        s.len() < usize::MAX,
    ensures
        ({
            let t = received(s, body, c);
            let n = s.len() as int;
            &&& live(t, o) && t[o].placed_on is None && t[o].despawn_pending
            &&& placed_at(t, c, ws) && !t[c].despawn_pending && t[c].locked
            &&& !occupied(t, body)
            &&& forall|i: int| 0 <= i < n ==> #[trigger] t[i].health == s[i].health
            &&& is_slot(t, n) && t[n].parent == Some(c as usize)
            &&& t[n].slot.unwrap().filter == Some(spec_threat_filter(None))
            &&& !occupied(t, n)
        }),
{
    let n = s.len() as int;
    assert(o == occupant(s, ws)) by {
        let x = occupant(s, ws);
        assert(placed_at(s, x, ws));
        assert(s[x].placed_on == s[o].placed_on);
    }
    assert(o != c) by {
        assert(s[o].placed_on != s[c].placed_on);
    }
    let d = detached(s, o);
    lemma_detached_frame(s, o);
    let s1 = marked(d, o);
    assert(is_slot(s1, ws));
    assert(!occupied(s1, ws)) by {
        if occupied(s1, ws) {
            let x = choose|x: int| placed_at(s1, x, ws);
            assert(x != o);
            assert(placed_at(s, x, ws));
            assert(s[x].placed_on == s[o].placed_on);
        }
    }
    let s2 = attached(s1, c, ws);
    lemma_attached_frame(s1, c, ws);
    lemma_detached_frame(s1, c);
    assert(s2[ws].slot == s[ws].slot);
    let t = received(s, body, c);
    assert(t == armed(s2, c, player));
    assert(t[o] == s2[o]);
    assert(s2[o].placed_on == s1[o].placed_on);
    assert forall|i: int| 0 <= i < n implies #[trigger] t[i].health == s[i].health by {
        assert(t[i].health == s2[i].health);
        assert(s1[i].health == d[i].health);
    }
    // where cards lie in `t`
    assert forall|i: int| 0 <= i < n && i != c && i != o implies #[trigger] t[i].placed_on
        == s[i].placed_on by {
        assert(t[i].placed_on == s2[i].placed_on);
        assert(s2[i].placed_on == s1[i].placed_on);
    }
    assert(!occupied(t, body)) by {
        if occupied(t, body) {
            let x = choose|x: int| placed_at(t, x, body);
            if x < n && x != c && x != o {
                assert(placed_at(s, x, body));
                assert(s[x].placed_on == s[c].placed_on);
            }
        }
    }
    assert(!occupied(t, n)) by {
        if occupied(t, n) {
            let x = choose|x: int| placed_at(t, x, n);
            if x < n && x != c && x != o {
                assert(s[x].alive);
                assert(is_slot(s, s[x].placed_on.unwrap().0 as int));
            }
        }
    }
}

/// A card placed on a threat slot stays on it, live, once the fight is over.
pub proof fn lemma_fight_keeps_card(s: Seq<EntityData>, c: int, slot: int)
    requires
        board_wf(s),
        is_card(s, c),
        is_slot(s, slot),
        c != slot,
        !occupied(s, slot),
        s[slot].slot.unwrap().role is Threat,
        role_ready(s, slot),
        s.len() < usize::MAX,
    ensures
        placed_at(placed(s, c, slot), c, slot),
{
    let s2 = attached(s, c, slot);
    lemma_attached_frame(s, c, slot);
    let n = s.len() as int;
    let r = rank_of(s2, c);
    match s[slot].slot.unwrap().role {
        SlotRole::Threat { player, weapon_rank } => {
            let s3 = locked_at(s2, c).push(threat_slot(c, player, weapon_rank, Some((r - 1) as u32)));
            lemma_harm_frame(s3, player as int, (0 - mitigated_damage(r, weapon_rank)) as i32, n);
            assert(s3[c].placed_on == Some(crate::board::PlacedOnSlot(slot as usize)));
        },
        _ => {},
    }
}

/// What placing a card on a weapon or threat slot spawns.
proof fn lemma_new_threat_slot(s: Seq<EntityData>, c: int, slot: int)
    requires
        board_wf(s),
        is_card(s, c),
        is_slot(s, slot),
        c != slot,
        !occupied(s, slot),
        s[slot].slot.unwrap().role is Threat || s[slot].slot.unwrap().role is Weapon,
        role_ready(s, slot),
        s.len() < usize::MAX,
    ensures
        ({
            let t = placed(s, c, slot);
            let n = s.len() as int;
            &&& t.len() == n + 1
            &&& t[n] == match s[slot].slot.unwrap().role {
                SlotRole::Threat { player, weapon_rank } => threat_slot(
                    c,
                    player,
                    weapon_rank,
                    Some((rank_of(s, c) - 1) as u32),
                ),
                SlotRole::Weapon { player } => threat_slot(c, player, rank_of(s, c), None),
                _ => t[n],
            }
            &&& !occupied(t, n)
        }),
{
    let s2 = attached(s, c, slot);
    let n = s.len() as int;
    let t = placed(s, c, slot);
    assert(s2.len() == n);
    assert(s2[slot].slot == s[slot].slot);
    assert(s2[c].card == s[c].card);
    // every placement on `s2` points below `n`
    assert forall|i: int| 0 <= i < n && s2[i].alive && s2[i].placed_on is Some implies s2[
        i
    ].placed_on.unwrap().0 < n by {
        if i != c {
            let s1 = detached(s, c);
            assert(s1[i].placed_on == s[i].placed_on || s1[i].placed_on is None);
            if s[i].placed_on is Some && s[i].alive {
                assert(is_slot(s, s[i].placed_on.unwrap().0 as int));
            }
        }
    }
    match s[slot].slot.unwrap().role {
        SlotRole::Threat { player, weapon_rank } => {
            let r = rank_of(s2, c);
            let s3 = locked_at(s2, c).push(threat_slot(c, player, weapon_rank, Some((r - 1) as u32)));
            lemma_harm_frame(s3, player as int, (0 - mitigated_damage(r, weapon_rank)) as i32, n);
            assert forall|i: int| !placed_at(t, i, n) by {
                if 0 <= i < n {
                    assert(t[i].placed_on == s3[i].placed_on);
                }
            }
        },
        SlotRole::Weapon { player } => {
            let s3 = locked_at(s2, c).push(threat_slot(c, player, rank_of(s2, c), None));
            assert forall|i: int| !placed_at(t, i, n) by {
                if 0 <= i < n {
                    assert(t[i].placed_on == s3[i].placed_on);
                }
            }
        },
        _ => {},
    }
}

impl Board {
    /// Spawns a threat slot under card `parent`.
    fn spawn_threat_slot(
        &mut self,
        parent: usize,
        player: usize,
        weapon_rank: u32,
        ceiling: Option<u32>,
    ) -> (id: usize)
        requires
            old(self).wf(),
            live(old(self)@, parent as int),
            old(self)@.len() < usize::MAX,
        ensures
            final(self).wf(),
            final(self)@ == old(self)@.push(
                threat_slot(parent as int, player, weapon_rank, ceiling),
            ),
    {
        let slot = CardSlot {
            sprite: Some(CardSlotSprite::Enemy),
            filter: Some(threat_filter(ceiling)),
            show_when_occupied: false,
            role: SlotRole::Threat { player, weapon_rank },
        };
        self.spawn(EntityData::new_slot(slot, Some(parent)))
    }

    /// Equips card `c` for `player`.
    fn arm(&mut self, c: usize, player: usize)
        requires
            old(self).wf(),
            is_card(old(self)@, c as int),
            old(self)@.len() < usize::MAX,
        ensures
            final(self).wf(),
            final(self)@ == armed(old(self)@, c as int, player),
    {
        let rank = self.entity(c).card.unwrap().rank();
        self.lock(c);
        self.spawn_threat_slot(c, player, rank, None);
    }

    /// Fights enemy card `c` with a weapon of rank `weapon_rank`.
    fn fight(&mut self, c: usize, player: usize, weapon_rank: u32)
        requires
            old(self).wf(),
            is_card(old(self)@, c as int),
            live(old(self)@, player as int),
            old(self)@[player as int].max_health is Some,
            old(self)@.len() < usize::MAX,
        ensures
            final(self).wf(),
            final(self)@ == fought(old(self)@, c as int, player, weapon_rank),
    {
        let rank = self.entity(c).card.unwrap().rank();
        proof {
            assert(old(self)@[c as int].card.unwrap().wf());
        }
        self.lock(c);
        self.spawn_threat_slot(c, player, weapon_rank, Some(rank - 1));
        let damage: i32 = if rank > weapon_rank {
            (rank - weapon_rank) as i32
        } else {
            0
        };
        self.adjust_health(player, AdjustHealth(-damage));
    }

    /// Moves card `c` to slot `weapon`, unequipping what lay there.
    #[verifier::rlimit(40)]
    fn equip(&mut self, c: usize, weapon: usize)
        requires
            old(self).wf(),
            is_card(old(self)@, c as int),
            old(self)@.len() < usize::MAX,
        ensures
            final(self).wf(),
            final(self)@ == equipped(old(self)@, c as int, weapon as int),
    {
        let ghost s = self@;
        let weapon_is_slot = self.is_live(weapon) && self.entity(weapon).slot.is_some();
        if weapon_is_slot {
            match self.placement_of(weapon) {
                Some(p) => {
                    let o = p.get();
                    proof {
                        assert(placed_at(s, o as int, weapon as int));
                    }
                    self.detach_card(o);
                    self.request_despawn(o);
                },
                None => {},
            }
        }
        let ghost s1 = self@;
        proof {
            if weapon_is_slot && occupied(s, weapon as int) {
                let o = occupant(s, weapon as int);
                lemma_detached_frame(s, o);
            }
            assert(is_card(s1, c as int));
            assert(!occupied(s1, weapon as int)) by {
                if occupied(s1, weapon as int) {
                    let o2 = occupant(s1, weapon as int);
                    assert(placed_at(s1, o2, weapon as int));
                    if occupied(s, weapon as int) {
                        let o = occupant(s, weapon as int);
                        assert(placed_at(s, o, weapon as int));
                        assert(o2 != o);
                        assert(placed_at(s, o2, weapon as int));
                        assert(s[o2].placed_on == s[o].placed_on);
                    } else {
                        assert(placed_at(s, o2, weapon as int));
                    }
                }
            }
        }
        if self.is_live(weapon) && self.entity(weapon).slot.is_some() && c != weapon {
            self.attach_card(c, weapon);
            match self.entity(weapon).slot.unwrap().role {
                SlotRole::Weapon { player } => {
                    self.arm(c, player);
                },
                _ => {},
            }
        }
    }

    /// Runs the reaction of slot `slot` to the card that the notification
    /// names. The player that the slot's role names must be live with a
    /// maximum health.
    pub fn receive(&mut self, slot: usize, event: RecievedCard)
        requires
            old(self).wf(),
            is_card(old(self)@, event.0 as int),
            is_slot(old(self)@, slot as int),
            role_ready(old(self)@, slot as int),
            old(self)@.len() < usize::MAX,
        ensures
            final(self).wf(),
            final(self)@ == received(old(self)@, slot as int, event.0 as int),
    {
        let c = event.0;
        let card = self.entity(c).card.unwrap();
        proof {
            assert(old(self)@[c as int].card.unwrap().wf());
        }
        match self.entity(slot).slot.unwrap().role {
            SlotRole::Plain => {},
            SlotRole::Body { player, weapon } => {
                match card.suit() {
                    CardSuit::Hearts => {
                        self.adjust_health(player, AdjustHealth(card.rank() as i32));
                        self.request_despawn(c);
                    },
                    CardSuit::Diamonds => {
                        self.equip(c, weapon);
                    },
                    _ => {
                        self.adjust_health(player, AdjustHealth(-(card.rank() as i32)));
                        self.request_despawn(c);
                    },
                }
            },
            SlotRole::Weapon { player } => {
                self.arm(c, player);
            },
            SlotRole::Threat { player, weapon_rank } => {
                self.fight(c, player, weapon_rank);
            },
        }
    }

    /// Puts card `c` on the free slot `slot` and runs the slot's reaction:
    /// the whole cascade completes before this returns.
    pub fn place(&mut self, c: usize, slot: usize)
        requires
            old(self).wf(),
            is_card(old(self)@, c as int),
            is_slot(old(self)@, slot as int),
            c != slot,
            !occupied(old(self)@, slot as int),
            role_ready(old(self)@, slot as int),
            old(self)@.len() < usize::MAX,
        ensures
            final(self).wf(),
            final(self)@ == placed(old(self)@, c as int, slot as int),
    {
        self.attach_card(c, slot);
        proof {
            lemma_attached_frame(old(self)@, c as int, slot as int);
        }
        self.receive(slot, RecievedCard(c));
    }
}

} // verus!
