//! Editing the save file of a character.
//!
//! A save file is text: tags that open collections and records, and between the
//! tags of a record its payload, which is JSON. This library finds the payloads
//! of the character sheet, the item store and the gold, reads them, lets gold,
//! levels, skills and inventory be changed, and writes the payloads back into
//! the text without touching any other byte.

pub mod decimal;
pub mod exp_table;
pub mod game_data;
pub mod inventory;
pub mod json;
pub mod locale;
pub mod locator;
pub mod round_trip;
pub mod search;
pub mod skills;
pub mod splicing;
pub mod tables;
pub mod util;
