//! Ryuuji's verified core: the anime filename reader, matching a title
//! against the library, the watch session that decides when an episode has
//! been watched, and the pure half of player detection.

pub mod city;
pub mod diagnostics;
pub mod element;
pub mod engine;
pub mod gate;
pub mod gecko;
pub mod history;
pub mod keyword;
pub mod library;
pub mod matching;
pub mod numbering;
pub mod playback;
pub mod players;
pub mod reading;
pub mod rule;
pub mod rules;
pub mod session;
pub mod settings;
pub mod smtc;
pub mod state;
pub mod store;
pub mod tape;
pub mod text;
pub mod user_file;
pub mod watch;
pub mod words;
pub mod worker;
