use card_dungeon::board::{Board, CardSlot, CardSlotSprite, EntityData, RecievedCard, SlotRole};
use card_dungeon::card::{Card, CardSuit};
use card_dungeon::card_filter::CardFilter;
use card_dungeon::health::{AdjustHealth, Health, MaxHealth};
use card_dungeon::resolution::threat_filter;
use card_dungeon::scene::{setup_scene, Scene};
use card_dungeon::status_bar::{BarSize, StatusBar};

fn plain_slot(filter: Option<CardFilter>) -> EntityData {
    EntityData::new_slot(
        CardSlot {
            sprite: Some(CardSlotSprite::Empty),
            filter,
            show_when_occupied: false,
            role: SlotRole::Plain,
        },
        None,
    )
}

fn card(b: &mut Board, suit: CardSuit, rank: u32) -> usize {
    b.spawn(EntityData::new_card(Card::new(suit, rank)))
}

fn health(b: &Board, e: usize) -> Option<u32> {
    b.entity(e).health.map(|h| h.get())
}

/// The threat slot hanging under `parent`, if a live one does.
fn threat_under(b: &Board, parent: usize) -> Option<usize> {
    (0..b.len()).find(|&i| {
        let d = b.entity(i);
        d.alive && d.parent == Some(parent) && d.slot.map(|s| s.role)
            .is_some_and(|r| matches!(r, SlotRole::Threat { .. }))
    })
}

fn scene() -> (Board, Scene) {
    setup_scene()
}

#[test]
fn second_drop_on_same_slot_is_rejected() {
    let mut b = Board::new();
    let slot = b.spawn(plain_slot(None));
    let c1 = card(&mut b, CardSuit::Hearts, 2);
    let c2 = card(&mut b, CardSuit::Spades, 3);
    assert!(b.drop_card(c1, slot));
    assert!(!b.drop_card(c2, slot));
    assert_eq!(b.placement_of(slot).map(|p| p.get()), Some(c1));
    assert_eq!(b.entity(c1).placed_on.map(|p| p.0), Some(slot));
    assert_eq!(b.entity(c2).placed_on, None);
}

#[test]
fn drop_respects_filter() {
    let mut b = Board::new();
    let f = CardFilter::empty().with_suit(&[CardSuit::Diamonds]);
    let slot = b.spawn(plain_slot(Some(f)));
    let h = card(&mut b, CardSuit::Hearts, 5);
    let d = card(&mut b, CardSuit::Diamonds, 13);
    assert!(!b.drop_card(h, slot));
    assert!(b.placement_of(slot).is_none());
    assert!(b.drop_card(d, slot));
}

#[test]
fn drop_on_non_slot_or_stale_id_is_rejected() {
    let mut b = Board::new();
    let c1 = card(&mut b, CardSuit::Hearts, 2);
    let c2 = card(&mut b, CardSuit::Hearts, 3);
    assert!(!b.drop_card(c1, c2));
    assert!(!b.drop_card(c1, 99));
    assert!(!b.drop_card(99, c1));
}

#[test]
fn moving_a_card_frees_its_old_slot() {
    let mut b = Board::new();
    let s1 = b.spawn(plain_slot(None));
    let s2 = b.spawn(plain_slot(None));
    let c = card(&mut b, CardSuit::Clubs, 4);
    assert!(b.drop_card(c, s1));
    assert!(!b.entity(s1).visible);
    assert!(b.drop_card(c, s2));
    assert!(b.placement_of(s1).is_none());
    assert!(b.entity(s1).visible);
    assert_eq!(b.placement_of(s2).map(|p| p.get()), Some(c));
    assert_eq!(b.entity(c).parent, Some(s2));
}

#[test]
fn drag_gestures() {
    let mut b = Board::new();
    let slot = b.spawn(plain_slot(Some(CardFilter::empty())));
    let c = card(&mut b, CardSuit::Hearts, 2);
    assert!(b.drag_start(c));
    assert!(!b.entity(c).pickable);
    assert!(b.is_draggable(c));
    // rejected drop: the card goes back
    assert!(!b.drop_card(c, slot));
    assert!(b.drag_end(c));
    assert!(b.entity(c).pickable);
    // slots are not dragged
    assert!(!b.drag_start(slot));
    assert!(!b.drag_end(slot));
}

#[test]
fn accepted_drop_keeps_position() {
    let mut b = Board::new();
    let slot = b.spawn(plain_slot(None));
    let c = card(&mut b, CardSuit::Hearts, 2);
    assert!(b.drag_start(c));
    assert!(b.drop_card(c, slot));
    assert!(!b.drag_end(c));
    assert!(b.entity(c).pickable);
}

#[test]
fn locked_card_does_not_drag() {
    let mut b = Board::new();
    let c = card(&mut b, CardSuit::Hearts, 2);
    let slot = b.spawn(plain_slot(None));
    b.lock(c);
    assert!(!b.drag_start(c));
    assert!(!b.is_draggable(c));
    assert!(!b.drop_card(c, slot));
    assert!(!b.drag_end(c));
}

#[test]
fn adjust_health_on_board_updates_bar() {
    let mut b = Board::new();
    let p = b.spawn(EntityData::new_combatant(MaxHealth(20), Some(Health::new(15))));
    let bar = b.spawn_status_bar(p, StatusBar::new(BarSize { width: 200, height: 10 }));
    assert_eq!(b.entity(bar).bar_fill, BarSize { width: 150, height: 10 });
    b.adjust_health(p, AdjustHealth(10));
    assert_eq!(health(&b, p), Some(20));
    assert_eq!(b.entity(bar).bar_fill, BarSize { width: 200, height: 10 });
    b.adjust_health(p, AdjustHealth(-25));
    assert_eq!(health(&b, p), None);
    assert_eq!(b.entity(bar).bar_fill, BarSize { width: 0, height: 10 });
    b.adjust_health(p, AdjustHealth(3));
    assert_eq!(health(&b, p), Some(3));
    assert_eq!(b.entity(bar).bar_fill, BarSize { width: 30, height: 10 });
}

#[test]
fn only_the_first_live_bar_is_refilled() {
    let mut b = Board::new();
    let p = b.spawn(EntityData::new_combatant(MaxHealth(10), Some(Health::new(10))));
    let first = b.spawn_status_bar(p, StatusBar::new(BarSize { width: 100, height: 1 }));
    let second = b.spawn_status_bar(p, StatusBar::new(BarSize { width: 50, height: 1 }));
    b.adjust_health(p, AdjustHealth(-5));
    assert_eq!(b.entity(first).bar_fill.width, 50);
    assert_eq!(b.entity(second).bar_fill.width, 50);
    b.request_despawn(first);
    b.sweep();
    b.adjust_health(p, AdjustHealth(-4));
    assert_eq!(b.entity(second).bar_fill.width, 5);
}

#[test]
fn despawn_is_deferred_to_sweep() {
    let mut b = Board::new();
    let c = card(&mut b, CardSuit::Spades, 8);
    b.request_despawn(c);
    b.request_despawn(c);
    assert!(b.is_live(c));
    assert_eq!(b.entity(c).card, Some(Card::new(CardSuit::Spades, 8)));
    assert!(b.entity(c).despawn_pending);
    b.sweep();
    assert!(!b.is_live(c));
    b.request_despawn(c);
    b.sweep();
    assert!(!b.is_live(c));
    b.request_despawn(1234);
}

#[test]
fn sweep_removes_children_and_placements() {
    let mut b = Board::new();
    let slot = b.spawn(plain_slot(None));
    let c = card(&mut b, CardSuit::Hearts, 1);
    let other = card(&mut b, CardSuit::Hearts, 2);
    assert!(b.drop_card(c, slot));
    b.request_despawn(slot);
    b.sweep();
    assert!(!b.is_live(slot));
    assert!(!b.is_live(c));
    assert!(b.is_live(other));
}

#[test]
fn threat_filter_bounds() {
    let f = threat_filter(Some(4));
    assert!(f.check(&Card::new(CardSuit::Clubs, 4)));
    assert!(!f.check(&Card::new(CardSuit::Clubs, 5)));
    assert!(!f.check(&Card::new(CardSuit::Diamonds, 2)));
    let g = threat_filter(None);
    assert!(g.check(&Card::new(CardSuit::Spades, 13)));
    assert!(!g.check(&Card::new(CardSuit::Hearts, 1)));
}

#[test]
fn scene_is_set_up() {
    let (b, sc) = scene();
    assert_eq!(health(&b, sc.player), Some(20));
    assert_eq!(b.entity(sc.player).max_health, Some(MaxHealth(20)));
    assert_eq!(b.entity(sc.health_bar).bar_fill, BarSize { width: 145, height: 35 });
    let expected = [
        (CardSuit::Hearts, 11),
        (CardSuit::Diamonds, 10),
        (CardSuit::Diamonds, 13),
        (CardSuit::Clubs, 10),
    ];
    for i in 0..4 {
        let (suit, rank) = expected[i];
        assert_eq!(b.entity(sc.hand_cards[i]).card, Some(Card::new(suit, rank)));
        assert_eq!(b.placement_of(sc.hand_slots[i]).map(|p| p.get()), Some(sc.hand_cards[i]));
    }
    assert!(b.placement_of(sc.body).is_none());
    assert!(b.placement_of(sc.weapon).is_none());
}

#[test]
fn hearts_heal_and_are_consumed() {
    let (mut b, sc) = scene();
    b.adjust_health(sc.player, AdjustHealth(-15));
    assert_eq!(health(&b, sc.player), Some(5));
    let h = sc.hand_cards[0];
    assert!(b.drop_card(h, sc.body));
    assert_eq!(health(&b, sc.player), Some(16));
    assert_eq!(b.entity(sc.health_bar).bar_fill.width, 145 * 16 / 20);
    assert!(b.entity(h).despawn_pending);
    assert!(b.is_live(h));
    b.sweep();
    assert!(!b.is_live(h));
    assert!(b.placement_of(sc.body).is_none());
}

#[test]
fn clubs_hurt_directly() {
    let (mut b, sc) = scene();
    let c = sc.hand_cards[3];
    assert!(b.drop_card(c, sc.body));
    assert_eq!(health(&b, sc.player), Some(10));
    assert_eq!(b.entity(sc.health_bar).bar_fill.width, 73);
    assert!(b.entity(c).despawn_pending);
}

#[test]
fn lethal_damage_removes_health_and_empties_bar() {
    let mut b = Board::new();
    let p = b.spawn(EntityData::new_combatant(MaxHealth(20), Some(Health::new(3))));
    let bar = b.spawn_status_bar(p, StatusBar::new(BarSize { width: 200, height: 5 }));
    let w = b.spawn(EntityData::new_slot(
        CardSlot { sprite: None, filter: None, show_when_occupied: true, role: SlotRole::Weapon { player: p } },
        None,
    ));
    let body = b.spawn(EntityData::new_slot(
        CardSlot { sprite: None, filter: None, show_when_occupied: true, role: SlotRole::Body { player: p, weapon: w } },
        None,
    ));
    let c = card(&mut b, CardSuit::Spades, 5);
    assert!(b.drop_card(c, body));
    assert_eq!(health(&b, p), None);
    assert_eq!(b.entity(bar).bar_fill, BarSize { width: 0, height: 5 });
}

#[test]
fn weapon_stacking_strictly_decreasing() {
    let (mut b, sc) = scene();
    let weapon_card = sc.hand_cards[1];
    assert!(b.drag_start(weapon_card));
    assert!(b.drop_card(weapon_card, sc.weapon));
    assert!(b.entity(weapon_card).locked);
    assert!(!b.drag_end(weapon_card));
    assert!(b.entity(weapon_card).pickable);
    let mut threat = threat_under(&b, weapon_card).unwrap();
    let ranks = [12, 9, 5, 2];
    for (k, &r) in ranks.iter().enumerate() {
        let suit = if k % 2 == 0 { CardSuit::Clubs } else { CardSuit::Spades };
        let e = card(&mut b, suit, r);
        assert!(b.drop_card(e, threat), "rank {} rejected", r);
        assert!(b.entity(e).locked);
        threat = threat_under(&b, e).unwrap();
    }
    // the last enemy had rank 2: equal and higher ranks are refused
    let same = card(&mut b, CardSuit::Clubs, 2);
    assert!(!b.drop_card(same, threat));
    let higher = card(&mut b, CardSuit::Spades, 7);
    assert!(!b.drop_card(higher, threat));
    let lower = card(&mut b, CardSuit::Spades, 1);
    assert!(b.drop_card(lower, threat));
}

#[test]
fn weapon_mitigates_enemy_damage() {
    let (mut b, sc) = scene();
    let weapon_card = sc.hand_cards[1];
    assert!(b.drop_card(weapon_card, sc.weapon));
    let threat = threat_under(&b, weapon_card).unwrap();
    let e = card(&mut b, CardSuit::Clubs, 13);
    assert!(b.drop_card(e, threat));
    assert_eq!(health(&b, sc.player), Some(17));
    let next = threat_under(&b, e).unwrap();
    let weak = card(&mut b, CardSuit::Spades, 4);
    assert!(b.drop_card(weak, next));
    assert_eq!(health(&b, sc.player), Some(17));
}

#[test]
fn diamonds_reequip_scenario() {
    let (mut b, sc) = scene();
    let d9 = card(&mut b, CardSuit::Diamonds, 9);
    assert!(b.drop_card(d9, sc.body));
    assert_eq!(b.placement_of(sc.weapon).map(|p| p.get()), Some(d9));
    assert!(b.placement_of(sc.body).is_none());
    let old_threat = threat_under(&b, d9).unwrap();
    let enemy = card(&mut b, CardSuit::Clubs, 8);
    assert!(b.drop_card(enemy, old_threat));

    let d13 = sc.hand_cards[2];
    assert!(b.drop_card(d13, sc.body));
    assert_eq!(b.entity(d9).placed_on, None);
    assert!(b.entity(d9).despawn_pending);
    assert_eq!(b.placement_of(sc.weapon).map(|p| p.get()), Some(d13));
    assert!(b.entity(d13).locked);
    assert_eq!(health(&b, sc.player), Some(20));
    let fresh = threat_under(&b, d13).unwrap();
    let big = card(&mut b, CardSuit::Spades, 13);
    assert!(b.accepts_drop(big, fresh));

    b.sweep();
    assert!(!b.is_live(d9));
    assert!(!b.is_live(old_threat));
    assert!(!b.is_live(enemy));
    assert!(b.is_live(d13));
    assert!(b.is_live(fresh));
}

#[test]
fn receive_notification_runs_reaction() {
    let (mut b, sc) = scene();
    let e = card(&mut b, CardSuit::Spades, 6);
    b.attach_card(e, sc.body);
    b.receive(sc.body, RecievedCard(e));
    assert_eq!(health(&b, sc.player), Some(14));
}

#[test]
fn status_bar_ref_lists_live_bars() {
    let mut b = Board::new();
    let p = b.spawn(EntityData::new_combatant(MaxHealth(10), None));
    let q = b.spawn(EntityData::new_combatant(MaxHealth(10), Some(Health::new(4))));
    let first = b.spawn_status_bar(p, StatusBar::new(BarSize { width: 10, height: 1 }));
    let other = b.spawn_status_bar(q, StatusBar::new(BarSize { width: 10, height: 1 }));
    let second = b.spawn_status_bar(p, StatusBar::new(BarSize { width: 10, height: 1 }));
    assert_eq!(b.entity(first).bar_fill.width, 0);
    assert_eq!(b.entity(other).bar_fill.width, 4);
    assert_eq!(b.status_bar_ref(p).bars(), &vec![first, second]);
    b.request_despawn(first);
    b.sweep();
    assert_eq!(b.status_bar_ref(p).bars(), &vec![second]);
    assert_eq!(b.status_bar_ref(q).bars(), &vec![other]);
}

#[test]
fn hiding_slot_shows_again_when_its_card_is_swept() {
    let mut b = Board::new();
    let slot = b.spawn(plain_slot(None));
    let c = card(&mut b, CardSuit::Hearts, 1);
    assert!(b.drop_card(c, slot));
    assert!(!b.entity(slot).visible);
    b.request_despawn(c);
    b.sweep();
    assert!(!b.is_live(c));
    assert!(b.is_live(slot));
    assert!(b.entity(slot).visible);
    b.detach_card(c);
    assert!(b.entity(slot).visible);
    let d = card(&mut b, CardSuit::Hearts, 2);
    assert!(b.drop_card(d, slot));
    assert!(!b.entity(slot).visible);
    // a stale card that still names the slot leaves the new occupant alone
    b.detach_card(c);
    assert!(!b.entity(slot).visible);
}

#[test]
fn second_sweep_changes_nothing() {
    let (mut b, sc) = scene();
    assert!(b.drop_card(sc.hand_cards[1], sc.weapon));
    assert!(b.drop_card(sc.hand_cards[2], sc.body));
    b.sweep();
    let once: Vec<EntityData> = (0..b.len()).map(|i| *b.entity(i)).collect();
    b.sweep();
    let twice: Vec<EntityData> = (0..b.len()).map(|i| *b.entity(i)).collect();
    assert_eq!(once, twice);
}

#[test]
fn sweep_removes_a_parent_cycle() {
    let mut b = Board::new();
    let c = card(&mut b, CardSuit::Hearts, 3);
    let slot = b.spawn(EntityData::new_slot(
        CardSlot { sprite: None, filter: None, show_when_occupied: true, role: SlotRole::Plain },
        Some(c),
    ));
    assert!(b.drop_card(c, slot));
    b.sweep();
    assert!(!b.is_live(c));
    assert!(!b.is_live(slot));
}

#[test]
fn drop_on_slot_of_missing_player_is_rejected() {
    let mut b = Board::new();
    let p = b.spawn(EntityData::new_combatant(MaxHealth(20), Some(Health::new(20))));
    let body = b.spawn(EntityData::new_slot(
        CardSlot { sprite: None, filter: None, show_when_occupied: true, role: SlotRole::Body { player: p, weapon: 99 } },
        None,
    ));
    let stray = b.spawn(EntityData::new_slot(
        CardSlot { sprite: None, filter: None, show_when_occupied: true, role: SlotRole::Body { player: body, weapon: 99 } },
        None,
    ));
    let c = card(&mut b, CardSuit::Clubs, 2);
    assert!(!b.drop_card(c, stray));
    b.request_despawn(p);
    b.sweep();
    assert!(!b.drop_card(c, body));
    assert!(b.placement_of(body).is_none());
}
