//! Rule engine of a card-based dungeon-crawl encounter.
//!
//! Cards carry a suit and a rank; they are dropped into slots that may
//! filter what they accept; a card entering a slot triggers an effect
//! chosen by its suit (healing, equipping a weapon, fighting); health is
//! clamped and mirrored into status bars; consumed entities are removed by
//! a deferred sweep.
pub mod card;
pub mod card_filter;
pub mod health;
pub mod status_bar;
pub mod board;
pub mod resolution;
pub mod drag_drop;
pub mod scene;
