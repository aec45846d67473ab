//! Combat bookkeeping for a game master who runs many monsters at once.
//!
//! Monster templates are spawned into a roster of combatants, each under a
//! name of its own. The roster follows their hit points and their deaths,
//! and can be reconciled with a new composition without losing what is
//! already there. Attacks and saves are resolved with dice and reported in a
//! log that keeps the most recent lines. A snapshot of the roster can be
//! taken and resumed from.

pub mod template;
pub mod text;
pub mod roster;
pub mod identity;
pub mod reconcile;
pub mod reconcile_laws;
pub mod event_log;
pub mod dice;
pub mod resolution;
pub mod encounter;
