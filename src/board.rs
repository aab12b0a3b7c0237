use vstd::prelude::*;

use crate::card::Card;
use crate::card_filter::CardFilter;
use crate::health::{adjust_health, adjusted, health_value, AdjustHealth, Health, MaxHealth};
use crate::status_bar::{
    length_along, lemma_fill_empty_iff_zero, BarSize, StatusBar, StatusBarOf,
};

verus! {

/// The picture a slot shows while it is empty.
#[derive(Clone, Copy, Debug, PartialEq, Eq, Structural)]
pub enum CardSlotSprite {
    Empty,
    Weapon,
    Body,
    Enemy,
}

/// What a slot does with a card that it receives.
#[derive(Clone, Copy, Debug, PartialEq, Eq, Structural)]
pub enum SlotRole {
    /// Holds the card and does nothing more.
    Plain,
    /// The player's body: the card's suit decides the effect.
    Body { player: usize, weapon: usize },
    /// The player's weapon: a card placed here is equipped.
    Weapon { player: usize },
    /// The next enemy that an equipped weapon of rank `weapon_rank` fights.
    Threat { player: usize, weapon_rank: u32 },
}

/// The slot attribute of an entity.
#[derive(Clone, Copy, Debug, PartialEq, Eq, Structural)]
pub struct CardSlot {
    pub sprite: Option<CardSlotSprite>,
    /// `None`: the slot takes any card; `Some(f)`: only those that pass `f`.
    pub filter: Option<CardFilter>,
    /// When false, the slot hides its own picture while it holds a card.
    pub show_when_occupied: bool,
    pub role: SlotRole,
}

/// The notification a slot gets when a card is placed on it: the card's id.
#[derive(Clone, Copy, Debug, PartialEq, Eq, Structural)]
pub struct RecievedCard(pub usize);

/// The status bars that show a resource of one entity, in id order.
#[derive(Debug)]
pub struct StatusBarRef(Vec<usize>);

impl StatusBarRef {
    pub closed spec fn spec_bars(&self) -> Seq<usize> {
        self.0@
    }

    /// The ids of the bars.
    pub fn bars(&self) -> (r: &Vec<usize>)
        ensures
            r@ == self.spec_bars(),
    {
        &self.0
    }
}

/// Links a card to the slot that holds it.
#[derive(Clone, Copy, Debug, PartialEq, Eq, Structural)]
pub struct PlacedOnSlot(pub usize);

/// The card that a slot holds: the inverse of [`PlacedOnSlot`].
#[derive(Clone, Copy, Debug, PartialEq, Eq, Structural)]
pub struct PlacementOfCard(usize);

impl PlacementOfCard {
    pub closed spec fn spec_get(&self) -> usize {
        self.0
    }

    pub fn get(&self) -> (r: usize)
        ensures
            r == self.spec_get(),
    {
        self.0
    }
}

/// Everything the engine knows of one entity. Ids are indices into the
/// board and are never reused: a despawned entity keeps its record with
/// `alive` false.
#[derive(Clone, Copy, Debug, PartialEq, Eq, Structural)]
pub struct EntityData {
    pub alive: bool,
    /// The entity this one hangs under; despawning a parent despawns it.
    pub parent: Option<usize>,
    pub card: Option<Card>,
    pub slot: Option<CardSlot>,
    /// Whether the entity's own picture is shown.
    pub visible: bool,
    pub placed_on: Option<PlacedOnSlot>,
    /// A locked card cannot be dragged.
    pub locked: bool,
    /// Whether pointer gestures may pick the entity.
    pub pickable: bool,
    /// A drag is under way and its start position is kept for a restore.
    pub drag_origin: bool,
    pub despawn_pending: bool,
    pub health: Option<Health>,
    pub max_health: Option<MaxHealth>,
    pub status_bar: Option<StatusBar>,
    pub bar_of: Option<StatusBarOf>,
    /// The size the status bar's fill currently has.
    pub bar_fill: BarSize,
}

/// A record with every attribute absent.
pub open spec fn blank() -> EntityData {
    EntityData {
        alive: true,
        parent: None,
        card: None,
        slot: None,
        visible: true,
        placed_on: None,
        locked: false,
        pickable: true,
        drag_origin: false,
        despawn_pending: false,
        health: None,
        max_health: None,
        status_bar: None,
        bar_of: None,
        bar_fill: BarSize { width: 0, height: 0 },
    }
}

/// A card lying on no slot.
pub open spec fn card_data(card: Card) -> EntityData {
    EntityData { card: Some(card), ..blank() }
}

/// A slot, hanging under `parent` if one is given.
pub open spec fn slot_data(slot: CardSlot, parent: Option<usize>) -> EntityData {
    EntityData { slot: Some(slot), parent, ..blank() }
}

/// A combatant with a maximum health and, possibly, some health left.
pub open spec fn combatant_data(max: MaxHealth, health: Option<Health>) -> EntityData {
    EntityData { max_health: Some(max), health, pickable: false, ..blank() }
}

impl EntityData {
    /// A card lying on no slot.
    pub fn new_card(card: Card) -> (d: EntityData)
        ensures
            d == card_data(card),
    {
        EntityData { card: Some(card), ..EntityData::new_blank() }
    }

    /// A slot, hanging under `parent` if one is given.
    pub fn new_slot(slot: CardSlot, parent: Option<usize>) -> (d: EntityData)
        ensures
            d == slot_data(slot, parent),
    {
        EntityData { slot: Some(slot), parent, ..EntityData::new_blank() }
    }

    /// A combatant with a maximum health and, possibly, some health left.
    pub fn new_combatant(max: MaxHealth, health: Option<Health>) -> (d: EntityData)
        ensures
            d == combatant_data(max, health),
    {
        EntityData { max_health: Some(max), health, pickable: false, ..EntityData::new_blank() }
    }

    /// A record with every attribute absent.
    pub fn new_blank() -> (d: EntityData)
        ensures
            d == blank(),
    {
        EntityData {
            alive: true,
            parent: None,
            card: None,
            slot: None,
            visible: true,
            placed_on: None,
            locked: false,
            pickable: true,
            drag_origin: false,
            despawn_pending: false,
            health: None,
            max_health: None,
            status_bar: None,
            bar_of: None,
            bar_fill: BarSize { width: 0, height: 0 },
        }
    }
}

/// Entity `i` exists and has not been despawned.
pub open spec fn live(s: Seq<EntityData>, i: int) -> bool {
    0 <= i < s.len() && s[i].alive
}

pub open spec fn is_card(s: Seq<EntityData>, i: int) -> bool {
    live(s, i) && s[i].card is Some
}

pub open spec fn is_slot(s: Seq<EntityData>, i: int) -> bool {
    live(s, i) && s[i].slot is Some
}

/// Card `c` lies on slot `slot`.
pub open spec fn placed_at(s: Seq<EntityData>, c: int, slot: int) -> bool {
    live(s, c) && (s[c].placed_on matches Some(p) && p.0 == slot)
}

pub open spec fn occupied(s: Seq<EntityData>, slot: int) -> bool {
    exists|c: int| placed_at(s, c, slot)
}

/// The card that lies on `slot`, when one does.
pub open spec fn occupant(s: Seq<EntityData>, slot: int) -> int {
    choose|c: int| placed_at(s, c, slot)
}

/// The invariants of the board.
pub open spec fn board_wf(s: Seq<EntityData>) -> bool {
    &&& forall|i: int|
        #![trigger s[i]]
        live(s, i) && s[i].parent is Some ==> live(s, s[i].parent.unwrap() as int)
    &&& forall|i: int|
        #![trigger s[i]]
        live(s, i) && s[i].placed_on is Some ==> {
            &&& s[i].card is Some
            &&& is_slot(s, s[i].placed_on.unwrap().0 as int)
            &&& s[i].parent == Some(s[i].placed_on.unwrap().0)
        }
    &&& forall|i: int, j: int|
        #![trigger s[i], s[j]]
        live(s, i) && live(s, j) && s[i].placed_on is Some && s[i].placed_on == s[j].placed_on
            ==> i == j
    &&& forall|i: int|
        #![trigger s[i]]
        live(s, i) && s[i].card is Some ==> s[i].card.unwrap().wf()
    &&& forall|i: int|
        #![trigger s[i]]
        live(s, i) && s[i].health is Some ==> {
            &&& s[i].max_health is Some
            &&& 0 < s[i].health.unwrap().spec_get() <= s[i].max_health.unwrap().0
        }
    &&& forall|i: int|
        #![trigger s[i]]
        live(s, i) && s[i].max_health is Some ==> 0 < s[i].max_health.unwrap().0
}

/// `d` may join board `s` as a new entity.
pub open spec fn spawnable(s: Seq<EntityData>, d: EntityData) -> bool {
    &&& d.alive
    &&& d.parent matches Some(p) ==> live(s, p as int)
    &&& d.placed_on is None
    &&& d.card matches Some(c) ==> c.wf()
    &&& d.health matches Some(h) ==> (d.max_health matches Some(m) && 0 < h.spec_get() <= m.0)
    &&& d.max_health matches Some(m) ==> 0 < m.0
}

/// `s` with entity `e` marked for despawn; a stale id changes nothing.
pub open spec fn marked(s: Seq<EntityData>, e: int) -> Seq<EntityData> {
    if live(s, e) {
        s.update(e, EntityData { despawn_pending: true, ..s[e] })
    } else {
        s
    }
}

/// `s` with card `c` locked against dragging.
pub open spec fn locked_at(s: Seq<EntityData>, c: int) -> Seq<EntityData> {
    if live(s, c) {
        s.update(c, EntityData { locked: true, ..s[c] })
    } else {
        s
    }
}

/// `s` with card `c` taken off the slot it lies on. A slot that hides its
/// picture while occupied shows it again once it holds no card. A card that
/// is gone keeps its record, and its slot is still shown again.
pub open spec fn detached(s: Seq<EntityData>, c: int) -> Seq<EntityData> {
    if 0 <= c < s.len() && s[c].placed_on is Some {
        let t = s[c].placed_on.unwrap().0 as int;
        let s1 = if live(s, c) {
            s.update(c, EntityData { placed_on: None, parent: None, ..s[c] })
        } else {
            s
        };
        if is_slot(s1, t) && !s1[t].slot.unwrap().show_when_occupied && !occupied(s1, t) {
            s1.update(t, EntityData { visible: true, ..s1[t] })
        } else {
            s1
        }
    } else {
        s
    }
}

/// `s` with card `c` put on `slot`, after leaving any slot it lay on: the
/// card hangs under the slot, and a slot that does not show while occupied
/// hides its picture.
pub open spec fn attached(s: Seq<EntityData>, c: int, slot: int) -> Seq<EntityData> {
    let s1 = detached(s, c);
    let s2 = s1.update(
        c,
        EntityData {
            placed_on: Some(PlacedOnSlot(slot as usize)),
            parent: Some(slot as usize),
            ..s1[c]
        },
    );
    if s2[slot].slot.unwrap().show_when_occupied {
        s2
    } else {
        s2.update(slot, EntityData { visible: false, ..s2[slot] })
    }
}

/// Entity `i` is a status bar that shows a resource of `target`.
pub open spec fn bar_of(s: Seq<EntityData>, i: int, target: int) -> bool {
    live(s, i) && s[i].status_bar is Some && (s[i].bar_of matches Some(b) && b.0 == target)
}

/// The first status bar of `target` at index `k` or later.
pub open spec fn first_bar_from(s: Seq<EntityData>, target: int, k: int) -> Option<int>
    decreases s.len() - k,
{
    if k < 0 || k >= s.len() {
        None
    } else if bar_of(s, k, target) {
        Some(k)
    } else {
        first_bar_from(s, target, k + 1)
    }
}

/// `s` with the health of `e` set to `h`, and the first live status bar of
/// `e` refilled from it; an absent health gives an empty fill.
pub open spec fn with_health(s: Seq<EntityData>, e: int, h: Option<Health>) -> Seq<EntityData> {
    let s1 = s.update(e, EntityData { health: h, ..s[e] });
    match first_bar_from(s1, e, 0) {
        Some(b) => s1.update(
            b,
            EntityData {
                bar_fill: s1[b].status_bar.unwrap().spec_fill(
                    health_value(h) as u32,
                    s[e].max_health.unwrap().0,
                ),
                ..s1[b]
            },
        ),
        None => s1,
    }
}

/// `s` after the health of `e` is adjusted by `delta`.
pub open spec fn health_adjusted(s: Seq<EntityData>, e: int, delta: i32) -> Seq<EntityData> {
    with_health(s, e, adjusted(s[e].health, s[e].max_health.unwrap(), delta))
}

/// Entity `i` survives a sweep of `s`: it is live and not marked for
/// despawn, and so is each of its ancestors, up to one without a parent
/// reached within `fuel` steps. An entity on a cycle of parents never
/// reaches one, and goes.
pub open spec fn survives(s: Seq<EntityData>, i: int, fuel: nat) -> bool
    decreases fuel,
{
    live(s, i) && !s[i].despawn_pending && match s[i].parent {
        None => true,
        Some(p) => fuel > 0 && survives(s, p as int, (fuel - 1) as nat),
    }
}

/// Record `d` after a sweep: a slot that hides its picture while occupied
/// shows it when it holds no card.
pub open spec fn shown_again(d: EntityData, occupied: bool) -> EntityData {
    if d.slot matches Some(sl) && !sl.show_when_occupied && !occupied {
        EntityData { visible: true, ..d }
    } else {
        d
    }
}

/// `b` is `a` after a sweep: exactly the entities that survive stay live,
/// with their records, but for slots shown again; removed ones keep their
/// records with `alive` false.
pub open spec fn swept(a: Seq<EntityData>, b: Seq<EntityData>) -> bool {
    &&& b.len() == a.len()
    &&& forall|i: int| #![trigger b[i]] 0 <= i < a.len() ==> (b[i].alive <==> survives(a, i, a.len()))
    &&& forall|i: int| #![trigger b[i]] live(b, i) ==> b[i] == shown_again(a[i], occupied(b, i))
    &&& forall|i: int|
        #![trigger b[i]]
        0 <= i < a.len() && !b[i].alive ==> b[i] == (EntityData { alive: false, ..a[i] })
}

/// `k` is `a` with exactly its surviving entities left live.
spec fn culled(a: Seq<EntityData>, k: Seq<EntityData>) -> bool {
    &&& k.len() == a.len()
    &&& forall|i: int| #![trigger k[i]] 0 <= i < a.len() ==> (k[i].alive <==> survives(a, i, a.len()))
    &&& forall|i: int| #![trigger k[i]] live(k, i) ==> k[i] == a[i]
    &&& forall|i: int|
        #![trigger k[i]]
        0 <= i < a.len() && !k[i].alive ==> k[i] == (EntityData { alive: false, ..a[i] })
}

/// The record of a status bar of `target`, filled from the target's health.
pub open spec fn bar_data(s: Seq<EntityData>, target: int, bar: StatusBar) -> EntityData {
    EntityData {
        status_bar: Some(bar),
        bar_of: Some(StatusBarOf(target as usize)),
        bar_fill: bar.spec_fill(
            health_value(s[target].health) as u32,
            s[target].max_health.unwrap().0,
        ),
        pickable: false,
        ..blank()
    }
}

/// The entities of an encounter, with the relationships between them.
pub struct Board {
    entities: Vec<EntityData>,
}

impl View for Board {
    type V = Seq<EntityData>;

    closed spec fn view(&self) -> Seq<EntityData> {
        self.entities@
    }
}

impl Board {
    pub open spec fn wf(&self) -> bool {
        board_wf(self@)
    }

    /// A board with no entities.
    pub fn new() -> (b: Board)
        ensures
            b.wf(),
            b@ == Seq::<EntityData>::empty(),
    {
        Board { entities: Vec::new() }
    }

    /// The number of ids handed out so far, despawned entities included.
    pub fn len(&self) -> (r: usize)
        ensures
            r == self@.len(),
    {
        self.entities.len()
    }

    /// The record of entity `e`.
    pub fn entity(&self, e: usize) -> (r: &EntityData)
        requires
            e < self@.len(),
        ensures
            *r == self@[e as int],
    {
        &self.entities[e]
    }

    /// Whether `e` is a live entity.
    pub fn is_live(&self, e: usize) -> (r: bool)
        ensures
            r == live(self@, e as int),
    {
        e < self.entities.len() && self.entities[e].alive
    }

    /// Adds an entity and returns its id.
    pub fn spawn(&mut self, d: EntityData) -> (id: usize)
        requires
            old(self).wf(),
            spawnable(old(self)@, d),
            old(self)@.len() < usize::MAX,
        ensures
            final(self).wf(),
            id == old(self)@.len(),
            final(self)@ == old(self)@.push(d),
    {
        let id = self.entities.len();
        self.entities.push(d);
        let ghost s = self@;
        assert(forall|i: int| 0 <= i < id ==> s[i] == old(self)@[i]);
        id
    }

    /// Marks `e` for removal by the next sweep; its attributes stay readable
    /// until then. A stale id, or one already marked, is no error.
    pub fn request_despawn(&mut self, e: usize)
        requires
            old(self).wf(),
        ensures
            final(self).wf(),
            final(self)@ == marked(old(self)@, e as int),
    {
        if e < self.entities.len() && self.entities[e].alive {
            let mut d = self.entities[e];
            d.despawn_pending = true;
            self.entities.set(e, d);
            proof {
                assert_board_wf_update(old(self)@, e as int, d);
            }
        }
    }

    /// Locks card `c` against dragging.
    pub fn lock(&mut self, c: usize)
        requires
            old(self).wf(),
        ensures
            final(self).wf(),
            final(self)@ == locked_at(old(self)@, c as int),
    {
        if c < self.entities.len() && self.entities[c].alive {
            let mut d = self.entities[c];
            d.locked = true;
            self.entities.set(c, d);
            proof {
                assert_board_wf_update(old(self)@, c as int, d);
            }
        }
    }

    /// The card that lies on `slot`, if any.
    pub fn placement_of(&self, slot: usize) -> (r: Option<PlacementOfCard>)
        requires
            self.wf(),
        ensures
            r is Some <==> occupied(self@, slot as int),
            r matches Some(p) ==> p.spec_get() == occupant(self@, slot as int),
    {
        let ghost s = self@;
        let mut i: usize = 0;
        while i < self.entities.len()
            invariant
                s == self@,
                board_wf(s),
                i <= s.len(),
                forall|j: int| 0 <= j < i ==> !placed_at(s, j, slot as int),
            decreases s.len() - i,
        {
            let d = &self.entities[i];
            if d.alive {
                match d.placed_on {
                    Some(p) => {
                        if p.0 == slot {
                            proof {
                                assert(placed_at(s, i as int, slot as int));
                                let o = occupant(s, slot as int);
                                assert(placed_at(s, o, slot as int));
                                assert(s[o].placed_on == s[i as int].placed_on);
                            }
                            return Some(PlacementOfCard(i));
                        }
                    },
                    None => {},
                }
            }
            i = i + 1;
        }
        None
    }

    /// Takes card `c` off the slot it lies on, and shows the slot's picture
    /// again if it hides it while occupied. When `c` is already gone only the
    /// slot is restored; an id out of range, or a card on no slot, changes
    /// nothing.
    pub fn detach_card(&mut self, c: usize)
        requires
            old(self).wf(),
        ensures
            final(self).wf(),
            final(self)@ == detached(old(self)@, c as int),
    {
        if c < self.entities.len() {
            match self.entities[c].placed_on {
                Some(p) => {
                    let t = p.0;
                    if self.entities[c].alive {
                        let mut d = self.entities[c];
                        d.placed_on = None;
                        d.parent = None;
                        self.entities.set(c, d);
                        proof {
                            lemma_wf_unplace(old(self)@, c as int);
                        }
                    }
                    if t < self.entities.len() && self.entities[t].alive {
                        match self.entities[t].slot {
                            Some(sl) => {
                                if !sl.show_when_occupied && self.placement_of(t).is_none() {
                                    let mut td = self.entities[t];
                                    td.visible = true;
                                    proof {
                                        assert_board_wf_update(self@, t as int, td);
                                    }
                                    self.entities.set(t, td);
                                }
                            },
                            None => {},
                        }
                    }
                },
                None => {},
            }
        }
    }

    /// Puts card `c` on the free slot `slot`, taking it off any slot it
    /// lay on before.
    pub fn attach_card(&mut self, c: usize, slot: usize)
        requires
            old(self).wf(),
            is_card(old(self)@, c as int),
            is_slot(old(self)@, slot as int),
            c != slot,
            !occupied(old(self)@, slot as int),
        ensures
            final(self).wf(),
            final(self)@ == attached(old(self)@, c as int, slot as int),
    {
        self.detach_card(c);
        let ghost s1 = self@;
        proof {
            assert(!occupied(s1, slot as int)) by {
                if occupied(s1, slot as int) {
                    let o = occupant(s1, slot as int);
                    assert(placed_at(s1, o, slot as int));
                    assert(placed_at(old(self)@, o, slot as int));
                }
            }
            lemma_wf_place(s1, c as int, slot as int);
        }
        let mut d = self.entities[c];
        d.placed_on = Some(PlacedOnSlot(slot));
        d.parent = Some(slot);
        self.entities.set(c, d);
        let sl = self.entities[slot].slot.unwrap();
        if !sl.show_when_occupied {
            let mut sd = self.entities[slot];
            sd.visible = false;
            proof {
                assert_board_wf_update(self@, slot as int, sd);
            }
            self.entities.set(slot, sd);
        }
    }

    /// Adds a status bar that shows the health of `target` and fills it
    /// from the current value.
    pub fn spawn_status_bar(&mut self, target: usize, bar: StatusBar) -> (id: usize)
        requires
            old(self).wf(),
            live(old(self)@, target as int),
            old(self)@[target as int].max_health is Some,
            old(self)@.len() < usize::MAX,
        ensures
            final(self).wf(),
            id == old(self)@.len(),
            final(self)@ == old(self)@.push(bar_data(old(self)@, target as int, bar)),
    {
        let t = self.entities[target];
        let m = t.max_health.unwrap();
        let v: u32 = match t.health {
            Some(h) => h.get(),
            None => 0,
        };
        let d = EntityData {
            status_bar: Some(bar),
            bar_of: Some(StatusBarOf(target)),
            bar_fill: bar.fill(v, m.0),
            pickable: false,
            ..EntityData::new_blank()
        };
        self.spawn(d)
    }

    /// Sets the drag bookkeeping of entity `e`.
    pub fn set_drag_flags(&mut self, e: usize, pickable: bool, drag_origin: bool)
        requires
            old(self).wf(),
            live(old(self)@, e as int),
        ensures
            final(self).wf(),
            final(self)@ == old(self)@.update(
                e as int,
                EntityData { pickable, drag_origin, ..old(self)@[e as int] },
            ),
    {
        let mut d = self.entities[e];
        d.pickable = pickable;
        d.drag_origin = drag_origin;
        proof {
            assert_board_wf_update(old(self)@, e as int, d);
        }
        self.entities.set(e, d);
    }

    /// Removes entity `i`, keeping its record.
    fn kill(&mut self, i: usize)
        requires
            i < old(self)@.len(),
        ensures
            final(self)@ == old(self)@.update(
                i as int,
                EntityData { alive: false, ..old(self)@[i as int] },
            ),
    {
        let mut d = self.entities[i];
        d.alive = false;
        self.entities.set(i, d);
    }

    /// Whether entity `i` survives a sweep.
    fn survives_sweep(&self, i: usize) -> (r: bool)
        ensures
            r == survives(self@, i as int, self@.len()),
    {
        let n = self.entities.len();
        let mut cur = i;
        let mut fuel = n;
        loop
            invariant
                n == self@.len(),
                survives(self@, i as int, n as nat) == survives(self@, cur as int, fuel as nat),
            decreases fuel,
        {
            if !(cur < n && self.entities[cur].alive && !self.entities[cur].despawn_pending) {
                return false;
            }
            match self.entities[cur].parent {
                None => {
                    return true;
                },
                Some(p) => {
                    if fuel == 0 {
                        return false;
                    }
                    cur = p;
                    fuel = fuel - 1;
                },
            }
        }
    }

    /// Removes every entity marked for despawn, and with it every entity
    /// that hangs under a removed one; a slot that hides its picture while
    /// occupied and has lost its card shows it again.
    pub fn sweep(&mut self)
        requires
            old(self).wf(),
        ensures
            final(self).wf(),
            swept(old(self)@, final(self)@),
    {
        let ghost a = self@;
        let n = self.entities.len();
        let mut keep: Vec<bool> = Vec::new();
        let mut i: usize = 0;
        while i < n
            invariant
                n == a.len(),
                self@ == a,
                i <= n,
                keep@.len() == i,
                forall|j: int| 0 <= j < i ==> keep@[j] == survives(a, j, a.len()),
            decreases n - i,
        {
            let k = self.survives_sweep(i);
            keep.push(k);
            i = i + 1;
        }
        i = 0;
        while i < n
            invariant
                n == a.len(),
                i <= n,
                keep@.len() == n,
                forall|j: int| 0 <= j < n ==> keep@[j] == survives(a, j, a.len()),
                self@.len() == n,
                forall|j: int| #![trigger self@[j]] i <= j < n ==> self@[j] == a[j],
                forall|j: int|
                    #![trigger self@[j]]
                    0 <= j < i ==> (self@[j].alive <==> survives(a, j, a.len())),
                forall|j: int| #![trigger self@[j]] 0 <= j < i && self@[j].alive ==> self@[j] == a[j],
                forall|j: int|
                    #![trigger self@[j]]
                    0 <= j < i && !self@[j].alive ==> self@[j] == (EntityData {
                        alive: false,
                        ..a[j]
                    }),
            decreases n - i,
        {
            if !keep[i] {
                self.kill(i);
            }
            i = i + 1;
        }
        let ghost k = self@;
        proof {
            lemma_culled_wf(a, k);
        }
        i = 0;
        while i < n
            invariant
                n == a.len(),
                i <= n,
                culled(a, k),
                board_wf(self@),
                self@.len() == n,
                forall|j: int|
                    #![trigger self@[j]]
                    0 <= j < n ==> self@[j].alive == k[j].alive && self@[j].placed_on == k[j].placed_on,
                forall|j: int| #![trigger self@[j]] i <= j < n ==> self@[j] == k[j],
                forall|j: int|
                    #![trigger self@[j]]
                    0 <= j < i && live(k, j) ==> self@[j] == shown_again(k[j], occupied(k, j)),
                forall|j: int| #![trigger self@[j]] 0 <= j < i && !k[j].alive ==> self@[j] == k[j],
            decreases n - i,
        {
            proof {
                lemma_occupied_same(k, self@);
            }
            if self.entities[i].alive {
                match self.entities[i].slot {
                    Some(sl) => {
                        if !sl.show_when_occupied && self.placement_of(i).is_none() {
                            let mut d = self.entities[i];
                            d.visible = true;
                            proof {
                                assert_board_wf_update(self@, i as int, d);
                            }
                            self.entities.set(i, d);
                        }
                    },
                    None => {},
                }
            }
            i = i + 1;
        }
        proof {
            lemma_occupied_same(k, self@);
        }
    }

    /// All live status bars of `target`, in id order.
    pub fn status_bar_ref(&self, target: usize) -> (r: StatusBarRef)
        ensures
            forall|k: int|
                0 <= k < r.spec_bars().len() ==> bar_of(self@, r.spec_bars()[k] as int, target as int),
            forall|k: int, l: int|
                0 <= k < l < r.spec_bars().len() ==> r.spec_bars()[k] < r.spec_bars()[l],
            forall|i: int| bar_of(self@, i, target as int) ==> r.spec_bars().contains(i as usize),
    {
        let ghost s = self@;
        let mut bars: Vec<usize> = Vec::new();
        let mut i: usize = 0;
        while i < self.entities.len()
            invariant
                s == self@,
                i <= s.len(),
                forall|k: int| 0 <= k < bars@.len() ==> bar_of(s, bars@[k] as int, target as int),
                forall|k: int| 0 <= k < bars@.len() ==> bars@[k] < i,
                forall|k: int, l: int| 0 <= k < l < bars@.len() ==> bars@[k] < bars@[l],
                forall|j: int| 0 <= j < i && bar_of(s, j, target as int) ==> bars@.contains(j as usize),
            decreases s.len() - i,
        {
            let d = &self.entities[i];
            let is_bar = d.alive && d.status_bar.is_some() && match d.bar_of {
                Some(b) => b.0 == target,
                None => false,
            };
            if is_bar {
                let ghost before = bars@;
                bars.push(i);
                proof {
                    assert forall|j: int| 0 <= j < i + 1 && bar_of(s, j, target as int) implies bars@.contains(j as usize) by {
                        if j < i {
                            let k = choose|k: int| 0 <= k < before.len() && before[k] == j as usize;
                            assert(bars@[k] == j as usize);
                        } else {
                            assert(bars@[before.len() as int] == j as usize);
                        }
                    }
                }
            }
            i = i + 1;
        }
        StatusBarRef(bars)
    }

    /// The first live status bar of `target`.
    fn find_bar(&self, target: usize) -> (r: Option<usize>)
        ensures
            r matches Some(b) ==> first_bar_from(self@, target as int, 0) == Some(b as int),
            r is None ==> first_bar_from(self@, target as int, 0) is None,
    {
        let ghost s = self@;
        let mut i: usize = 0;
        while i < self.entities.len()
            invariant
                s == self@,
                i <= s.len(),
                first_bar_from(s, target as int, 0) == first_bar_from(s, target as int, i as int),
            decreases s.len() - i,
        {
            let d = &self.entities[i];
            let is_bar = d.alive && d.status_bar.is_some() && match d.bar_of {
                Some(b) => b.0 == target,
                None => false,
            };
            if is_bar {
                return Some(i);
            }
            i = i + 1;
        }
        None
    }

    /// Sets the health of `e` to `h` and refills its first status bar.
    fn set_health(&mut self, e: usize, h: Option<Health>)
        requires
            old(self).wf(),
            live(old(self)@, e as int),
            old(self)@[e as int].max_health is Some,
            h matches Some(v) ==> 0 < v.spec_get() <= old(self)@[e as int].max_health.unwrap().0,
        ensures
            final(self).wf(),
            final(self)@ == with_health(old(self)@, e as int, h),
    {
        let mut d = self.entities[e];
        let m = d.max_health.unwrap();
        d.health = h;
        proof {
            assert_board_wf_update_health(old(self)@, e as int, d);
        }
        self.entities.set(e, d);
        match self.find_bar(e) {
            Some(b) => {
                proof {
                    lemma_first_bar(self@, e as int, 0);
                }
                let mut bd = self.entities[b];
                let bar = bd.status_bar.unwrap();
                let v: u32 = match h {
                    Some(v) => v.get(),
                    None => 0,
                };
                bd.bar_fill = bar.fill(v, m.0);
                proof {
                    assert_board_wf_update(self@, b as int, bd);
                }
                self.entities.set(b, bd);
            },
            None => {},
        }
    }

    /// Adjusts the health of `e` by `delta`, clamped into `[0, max]`; the
    /// health attribute is removed when nothing is left. The first live
    /// status bar of `e` is refilled from the result.
    pub fn adjust_health(&mut self, e: usize, event: AdjustHealth)
        requires
            old(self).wf(),
            live(old(self)@, e as int),
            old(self)@[e as int].max_health is Some,
        ensures
            final(self).wf(),
            final(self)@ == health_adjusted(old(self)@, e as int, event.0),
    {
        let d = self.entities[e];
        let h = adjust_health(d.health, d.max_health.unwrap(), event.0);
        self.set_health(e, h);
    }
}

/// What the search for a status bar finds is one.
pub proof fn lemma_first_bar(s: Seq<EntityData>, target: int, k: int)
    ensures
        first_bar_from(s, target, k) matches Some(b) ==> k <= b < s.len() && bar_of(s, b, target),
    decreases s.len() - k,
{
    if 0 <= k < s.len() && !bar_of(s, k, target) {
        lemma_first_bar(s, target, k + 1);
    }
}

/// `b` agrees with `a` on every entity's life, health, slot and card.
pub open spec fn same_core(a: Seq<EntityData>, b: Seq<EntityData>) -> bool {
    &&& b.len() == a.len()
    &&& forall|i: int|
        #![trigger b[i]]
        0 <= i < a.len() ==> {
            &&& b[i].alive == a[i].alive
            &&& b[i].max_health == a[i].max_health
            &&& b[i].health == a[i].health
            &&& b[i].slot == a[i].slot
            &&& b[i].card == a[i].card
            &&& b[i].locked == a[i].locked
            &&& b[i].despawn_pending == a[i].despawn_pending
        }
}

/// Taking a card off its slot changes no entity's core, and no placement
/// but that card's.
pub proof fn lemma_detached_frame(s: Seq<EntityData>, c: int)
    ensures
        same_core(s, detached(s, c)),
        forall|i: int|
            #![trigger detached(s, c)[i]]
            0 <= i < s.len() && i != c ==> detached(s, c)[i].placed_on == s[i].placed_on,
        0 <= c < s.len() ==> detached(s, c)[c].placed_on == if live(s, c) {
            None
        } else {
            s[c].placed_on
        },
{
}

/// Putting a card on a slot changes no entity's core.
pub proof fn lemma_attached_frame(s: Seq<EntityData>, c: int, slot: int)
    requires
        0 <= c < s.len(),
        0 <= slot < s.len(),
    ensures
        same_core(s, attached(s, c, slot)),
{
    lemma_detached_frame(s, c);
    let s1 = detached(s, c);
    let s2 = s1.update(
        c,
        EntityData {
            placed_on: Some(PlacedOnSlot(slot as usize)),
            parent: Some(slot as usize),
            ..s1[c]
        },
    );
    assert(same_core(s, s2));
}

/// On a well-formed board a slot holds at most one card, and a card lies on
/// at most one slot.
pub proof fn lemma_one_card_per_slot(s: Seq<EntityData>, slot: int, c1: int, c2: int)
    requires
        board_wf(s),
        placed_at(s, c1, slot),
        placed_at(s, c2, slot),
    ensures
        c1 == c2,
{
    assert(s[c1].placed_on == s[c2].placed_on);
}

/// A status bar mirrors removal: the fill of the first bar of `e`, when its
/// container is not empty, is empty after an adjustment exactly when the
/// health attribute is removed.
pub proof fn lemma_bar_empty_iff_health_removed(s: Seq<EntityData>, e: int, delta: i32, b: int)
    requires
        board_wf(s),
        live(s, e),
        s[e].max_health is Some,
        first_bar_from(s, e, 0) == Some(b),
        0 < length_along(s[b].status_bar.unwrap().spec_size(), s[b].status_bar.unwrap().spec_axis()),
    ensures
        ({
            let t = health_adjusted(s, e, delta);
            let bar = s[b].status_bar.unwrap();
            &&& t[b].status_bar == s[b].status_bar
            &&& (length_along(t[b].bar_fill, bar.spec_axis()) == 0 <==> t[e].health is None)
        }),
{
    let m = s[e].max_health.unwrap();
    let h = adjusted(s[e].health, m, delta);
    let s1 = s.update(e, EntityData { health: h, ..s[e] });
    lemma_first_bar(s, e, 0);
    lemma_first_bar_same(s, s1, e, 0);
    crate::health::lemma_health_of(crate::health::clamped_health(s[e].health, m, delta) as u32);
    lemma_fill_empty_iff_zero(s[b].status_bar.unwrap(), health_value(h) as u32, m.0);
}

/// The search for a bar of `e` gives the same answer on two boards that
/// agree on which entities are its bars.
proof fn lemma_first_bar_same(s: Seq<EntityData>, t: Seq<EntityData>, e: int, k: int)
    requires
        s.len() == t.len(),
        forall|i: int| 0 <= i < s.len() ==> (bar_of(s, i, e) <==> bar_of(t, i, e)),
    ensures
        first_bar_from(s, e, k) == first_bar_from(t, e, k),
    decreases s.len() - k,
{
    if 0 <= k < s.len() {
        lemma_first_bar_same(s, t, e, k + 1);
    }
}

/// Despawning is deferred: an entity marked for despawn stays live, with
/// all its attributes, until the next sweep; marking it again changes
/// nothing; and a sweep removes it.
pub proof fn lemma_despawn_deferred(s: Seq<EntityData>, e: int, after: Seq<EntityData>)
    requires
        board_wf(s),
        live(s, e),
    ensures
        live(marked(s, e), e),
        marked(s, e)[e] == (EntityData { despawn_pending: true, ..s[e] }),
        marked(marked(s, e), e) == marked(s, e),
        swept(marked(s, e), after) ==> !after[e].alive,
{
    let m = marked(s, e);
    assert(m.update(e, EntityData { despawn_pending: true, ..m[e] }) =~= m);
    if swept(m, after) {
        assert(after[e].alive ==> !m[e].despawn_pending);
    }
}

/// A second sweep, with nothing marked in between, changes nothing.
pub proof fn lemma_sweep_idempotent(a: Seq<EntityData>, b: Seq<EntityData>, c: Seq<EntityData>)
    requires
        board_wf(a),
        swept(a, b),
        swept(b, c),
    ensures
        c == b,
{
    let n = a.len();
    assert forall|i: int| 0 <= i < n implies (b[i].alive <==> survives(b, i, n)) by {
        if b[i].alive {
            lemma_survives_kept(a, b, i, n);
        }
    }
    assert forall|j: int|
        #![trigger c[j]]
        0 <= j < n implies c[j].alive == b[j].alive && c[j].placed_on == b[j].placed_on by {
        assert(c[j].alive == survives(b, j, n));
    }
    lemma_occupied_same(b, c);
    assert forall|i: int| 0 <= i < n implies c[i] == b[i] by {
        if c[i].alive {
            assert(b[i] == shown_again(a[i], occupied(b, i)));
        }
    }
    assert(c =~= b);
}

/// What survives one sweep survives on the board that the sweep left.
proof fn lemma_survives_kept(a: Seq<EntityData>, b: Seq<EntityData>, i: int, f: nat)
    requires
        swept(a, b),
        survives(a, i, f),
        f <= a.len(),
    ensures
        survives(b, i, f),
    decreases f,
{
    lemma_survives_more_fuel(a, i, f, a.len());
    assert(b[i].alive);
    assert(b[i] == shown_again(a[i], occupied(b, i)));
    if let Some(p) = a[i].parent {
        lemma_survives_kept(a, b, p as int, (f - 1) as nat);
    }
}

/// More fuel never stops an entity from surviving.
proof fn lemma_survives_more_fuel(s: Seq<EntityData>, i: int, f: nat, g: nat)
    requires
        survives(s, i, f),
        f <= g,
    ensures
        survives(s, i, g),
    decreases f,
{
    if let Some(p) = s[i].parent {
        lemma_survives_more_fuel(s, p as int, (f - 1) as nat, (g - 1) as nat);
    }
}

/// Two boards that agree on which entities are live and where cards lie
/// agree on which slots are occupied.
proof fn lemma_occupied_same(a: Seq<EntityData>, b: Seq<EntityData>)
    requires
        a.len() == b.len(),
        forall|j: int|
            #![trigger b[j]]
            0 <= j < a.len() ==> b[j].alive == a[j].alive && b[j].placed_on == a[j].placed_on,
    ensures
        forall|t: int| occupied(a, t) == occupied(b, t),
{
    assert forall|t: int| occupied(a, t) == occupied(b, t) by {
        if occupied(a, t) {
            let c = choose|c: int| placed_at(a, c, t);
            assert(b[c].alive == a[c].alive);
            assert(placed_at(b, c, t));
        }
        if occupied(b, t) {
            let c = choose|c: int| placed_at(b, c, t);
            assert(b[c].alive == a[c].alive);
            assert(placed_at(a, c, t));
        }
    }
}

/// Removing what does not survive leaves a well-formed board.
proof fn lemma_culled_wf(a: Seq<EntityData>, b: Seq<EntityData>)
    requires
        board_wf(a),
        culled(a, b),
    ensures
        board_wf(b),
{
    assert forall|i: int| #![trigger b[i]] live(b, i) && b[i].parent is Some implies live(
        b,
        b[i].parent.unwrap() as int,
    ) by {
        let p = b[i].parent.unwrap() as int;
        assert(b[i] == a[i]);
        assert(survives(a, i, a.len()));
        lemma_survives_more_fuel(a, p, (a.len() - 1) as nat, a.len());
        assert(b[p].alive);
    }
    assert forall|i: int| #![trigger b[i]] live(b, i) && b[i].placed_on is Some implies {
        &&& b[i].card is Some
        &&& is_slot(b, b[i].placed_on.unwrap().0 as int)
        &&& b[i].parent == Some(b[i].placed_on.unwrap().0)
    } by {
        assert(b[i] == a[i]);
        let t = b[i].placed_on.unwrap().0 as int;
        assert(survives(a, i, a.len()));
        lemma_survives_more_fuel(a, t, (a.len() - 1) as nat, a.len());
        assert(b[t].alive);
        assert(b[t] == a[t]);
    }
    assert forall|i: int, j: int|
        #![trigger b[i], b[j]]
        live(b, i) && live(b, j) && b[i].placed_on is Some && b[i].placed_on == b[j].placed_on
            implies i == j by {
        assert(b[i] == a[i]);
        assert(b[j] == a[j]);
    }
    assert forall|i: int| #![trigger b[i]] live(b, i) && b[i].card is Some implies b[i].card.unwrap().wf() by {
        assert(b[i] == a[i]);
    }
    assert forall|i: int| #![trigger b[i]] live(b, i) && b[i].health is Some implies {
        &&& b[i].max_health is Some
        &&& 0 < b[i].health.unwrap().spec_get() <= b[i].max_health.unwrap().0
    } by {
        assert(b[i] == a[i]);
    }
    assert forall|i: int| #![trigger b[i]] live(b, i) && b[i].max_health is Some implies 0
        < b[i].max_health.unwrap().0 by {
        assert(b[i] == a[i]);
    }
}

/// Taking a card off its slot keeps the invariants.
proof fn lemma_wf_unplace(s: Seq<EntityData>, c: int)
    requires
        board_wf(s),
        live(s, c),
    ensures
        board_wf(s.update(c, EntityData { placed_on: None, parent: None, ..s[c] })),
{
    let t = s.update(c, EntityData { placed_on: None, parent: None, ..s[c] });
    assert forall|i: int| #![trigger t[i]] live(t, i) <==> live(s, i) by {}
    assert forall|i: int| #![trigger t[i]] is_slot(t, i) <==> is_slot(s, i) by {}
}

/// Putting a card on a free slot keeps the invariants.
proof fn lemma_wf_place(s: Seq<EntityData>, c: int, slot: int)
    requires
        board_wf(s),
        is_card(s, c),
        is_slot(s, slot),
        c != slot,
        slot <= usize::MAX,
        !occupied(s, slot),
    ensures
        board_wf(
            s.update(
                c,
                EntityData {
                    placed_on: Some(PlacedOnSlot(slot as usize)),
                    parent: Some(slot as usize),
                    ..s[c]
                },
            ),
        ),
{
    let t = s.update(
        c,
        EntityData {
            placed_on: Some(PlacedOnSlot(slot as usize)),
            parent: Some(slot as usize),
            ..s[c]
        },
    );
    assert forall|i: int| #![trigger t[i]] live(t, i) <==> live(s, i) by {}
    assert forall|i: int| #![trigger t[i]] is_slot(t, i) <==> is_slot(s, i) by {}
    assert forall|i: int, j: int|
        #![trigger t[i], t[j]]
        live(t, i) && live(t, j) && t[i].placed_on is Some && t[i].placed_on == t[j].placed_on
            implies i == j by {
        if i != j && (i == c || j == c) {
            let o = if i == c { j } else { i };
            assert(placed_at(s, o, slot));
        }
    }
}

/// Changing an entity's flags, and nothing that the invariants speak of,
/// keeps them.
proof fn assert_board_wf_update(s: Seq<EntityData>, e: int, d: EntityData)
    requires
        board_wf(s),
        0 <= e < s.len(),
        d.alive == s[e].alive,
        d.parent == s[e].parent,
        d.card == s[e].card,
        d.slot is Some == s[e].slot is Some,
        d.placed_on == s[e].placed_on,
        d.health == s[e].health,
        d.max_health == s[e].max_health,
    ensures
        board_wf(s.update(e, d)),
{
    let t = s.update(e, d);
    assert forall|i: int| #![trigger t[i]] live(t, i) <==> live(s, i) by {}
    assert forall|i: int| #![trigger t[i]] is_slot(t, i) <==> is_slot(s, i) by {}
}

/// Changing the health of an entity that has a maximum, within its bounds,
/// keeps the invariants.
proof fn assert_board_wf_update_health(s: Seq<EntityData>, e: int, d: EntityData)
    requires
        board_wf(s),
        0 <= e < s.len(),
        d == (EntityData { health: d.health, ..s[e] }),
        s[e].max_health is Some,
        d.health matches Some(v) ==> 0 < v.spec_get() <= s[e].max_health.unwrap().0,
    ensures
        board_wf(s.update(e, d)),
{
    let t = s.update(e, d);
    assert forall|i: int| #![trigger t[i]] live(t, i) <==> live(s, i) by {}
    assert forall|i: int| #![trigger t[i]] is_slot(t, i) <==> is_slot(s, i) by {}
}

} // verus!
