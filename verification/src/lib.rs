//! The decisions of a simulated trading venue: what its configuration may say,
//! how an order, a history request or a control request is answered, what an
//! account's risk policy costs it, which boats carry which passengers, and how
//! the bundled reference text is shown on a terminal.

pub mod accounts;
pub mod ansi;
pub mod asof;
pub mod bars;
pub mod boatyard;
pub mod calendar;
pub mod config;
pub mod control;
pub mod decimal;
pub mod desk;
pub mod duration;
pub mod elements;
pub mod fills;
pub mod generate;
pub mod havoc;
pub mod history;
pub mod horizons;
pub mod instrument;
pub mod legible;
pub mod man;
pub mod markdown;
pub mod orders;
pub mod page;
pub mod parents;
pub mod passenger;
pub mod presets;
pub mod provenance;
pub mod ranked;
pub mod render;
pub mod risk;
pub mod roll;
pub mod run;
pub mod serve;
pub mod source;
pub mod summary;
pub mod tally;
pub mod text;
pub mod ticks;
pub mod tree;
