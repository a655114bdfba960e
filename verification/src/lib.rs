//! Relic bookkeeping, loadout handling and live-export logic of an in-game
//! relic exporter, stated and proved with Verus.
#![allow(non_camel_case_types)]
#![allow(non_snake_case)]

pub mod dictionary;
pub mod live;
pub mod loadouts;
pub mod messages;
pub mod models;
pub mod plans;
pub mod relic_sync;
pub mod rolls;
pub mod scan;
pub mod store;
pub mod text;
pub mod updater;
