use card_dungeon::card::{Card, CardSuit, InvalideCardError};
use card_dungeon::card_filter::CardFilter;
use card_dungeon::health::{adjust_health, AdjustHealth, Health, MaxHealth};
use card_dungeon::status_bar::{BarAxis, BarSize, StatusBar};

#[test]
fn card_accepts_ranks_one_to_thirteen() {
    for rank in 1..=13 {
        let c = Card::try_new(CardSuit::Spades, rank).unwrap();
        assert_eq!(c.suit(), CardSuit::Spades);
        assert_eq!(c.rank(), rank);
    }
}

#[test]
fn card_rejects_rank_out_of_range() {
    assert_eq!(Card::try_new(CardSuit::Hearts, 0), Err(InvalideCardError));
    assert_eq!(Card::try_new(CardSuit::Hearts, 14), Err(InvalideCardError));
    assert_eq!(Card::try_new(CardSuit::Hearts, u32::MAX), Err(InvalideCardError));
}

#[test]
fn card_new_and_unchecked() {
    let c = Card::new(CardSuit::Diamonds, 7);
    assert_eq!(c, Card::new_unchecked(CardSuit::Diamonds, 7));
    assert_eq!(Card::new_unchecked(CardSuit::Clubs, 40).rank(), 40);
}

#[test]
fn filter_example_diamonds() {
    let f = CardFilter::empty().with_suit(&[CardSuit::Diamonds]);
    assert!(!f.check(&Card::new(CardSuit::Hearts, 5)));
    assert!(f.check(&Card::new(CardSuit::Diamonds, 13)));
}

#[test]
fn empty_filter_matches_nothing() {
    let f = CardFilter::empty();
    for suit in [CardSuit::Hearts, CardSuit::Diamonds, CardSuit::Clubs, CardSuit::Spades] {
        for rank in 1..=13 {
            assert!(!f.check(&Card::new(suit, rank)));
        }
    }
}

#[test]
fn filter_rank_bounds_are_inclusive() {
    let f = CardFilter::empty()
        .with_suit(&[CardSuit::Clubs, CardSuit::Spades])
        .with_min_rank(3)
        .with_max_rank(9);
    assert!(!f.check(&Card::new(CardSuit::Clubs, 2)));
    assert!(f.check(&Card::new(CardSuit::Clubs, 3)));
    assert!(f.check(&Card::new(CardSuit::Spades, 9)));
    assert!(!f.check(&Card::new(CardSuit::Spades, 10)));
    assert!(!f.check(&Card::new(CardSuit::Hearts, 5)));
}

#[test]
fn filter_exact_rank() {
    let f = CardFilter::empty()
        .with_suit(&[CardSuit::Hearts])
        .with_exact_rank(4);
    assert!(f.check(&Card::new(CardSuit::Hearts, 4)));
    assert!(!f.check(&Card::new(CardSuit::Hearts, 3)));
    assert!(!f.check(&Card::new(CardSuit::Hearts, 5)));
}

#[test]
fn filter_with_suit_replaces_suits() {
    let f = CardFilter::empty()
        .with_suit(&[CardSuit::Hearts])
        .with_suit(&[CardSuit::Spades]);
    assert!(!f.check(&Card::new(CardSuit::Hearts, 1)));
    assert!(f.check(&Card::new(CardSuit::Spades, 1)));
}

#[test]
fn health_clamps_at_max() {
    let r = adjust_health(Some(Health::new(15)), MaxHealth(20), AdjustHealth(10).0);
    assert_eq!(r.map(|h| h.get()), Some(20));
}

#[test]
fn health_removed_at_zero() {
    assert_eq!(adjust_health(Some(Health::new(3)), MaxHealth(20), -5), None);
    assert_eq!(adjust_health(Some(Health::new(3)), MaxHealth(20), -3), None);
}

#[test]
fn health_absent_counts_as_zero() {
    assert_eq!(adjust_health(None, MaxHealth(20), 5).map(|h| h.get()), Some(5));
    assert_eq!(adjust_health(None, MaxHealth(20), -5), None);
    assert_eq!(adjust_health(None, MaxHealth(20), 0), None);
}

#[test]
fn health_extreme_deltas() {
    assert_eq!(
        adjust_health(Some(Health::new(1)), MaxHealth(u32::MAX), i32::MAX).map(|h| h.get()),
        Some(1 + i32::MAX as u32)
    );
    assert_eq!(adjust_health(Some(Health::new(u32::MAX)), MaxHealth(u32::MAX), i32::MIN).map(|h| h.get()),
        Some(u32::MAX - 2147483648));
    assert_eq!(MaxHealth(7).get(), 7);
}

#[test]
fn status_bar_projection_example() {
    let bar = StatusBar::new(BarSize { width: 200, height: 30 });
    assert_eq!(bar.fill(15, 20), BarSize { width: 150, height: 30 });
    assert_eq!(bar.fill(0, 20), BarSize { width: 0, height: 30 });
    assert_eq!(bar.fill(20, 20), BarSize { width: 200, height: 30 });
}

#[test]
fn status_bar_vertical_axis() {
    let bar = StatusBar::new(BarSize { width: 10, height: 100 }).with_axis(BarAxis::Vertical);
    assert_eq!(bar.axis(), BarAxis::Vertical);
    assert_eq!(bar.size(), BarSize { width: 10, height: 100 });
    assert_eq!(bar.fill(1, 3), BarSize { width: 10, height: 34 });
}

#[test]
fn status_bar_shows_any_health() {
    let bar = StatusBar::new(BarSize { width: 10, height: 3 });
    assert_eq!(bar.fill(1, 20), BarSize { width: 1, height: 3 });
    assert_eq!(bar.fill(0, 20), BarSize { width: 0, height: 3 });
    let wide = StatusBar::new(BarSize { width: 145, height: 35 });
    assert_eq!(wide.fill(10, 20).width, 73);
}
