//! The rules of a portfolio tracker.
//!
//! The library decides everything about a portfolio that can be decided without adding up
//! amounts: which records count, in what order they take effect, what each of them does to
//! a holding or to a balance, what a form accepts, what a page shows and how it is worded.
//! A record keeps the facts about its amounts that these decisions rest on. Whoever calls
//! the library keeps the amounts themselves, and applies to them the steps it is given;
//! records are named by their positions in the lists that were handed in.
//!
//! - [`model`] holds the records; [`text`], [`numbers`], [`calendar`], [`order`] and
//!   [`json`] are what the rest is built from.
//! - [`ledger`], [`cost_basis`], [`holdings`], [`history`], [`session`] and [`rates`] put
//!   trades, splits and movements of cash in order and say what they do.
//! - [`activity_rules`] says which changes keep a ledger sound.
//! - [`projection`] and [`dividends`] deal with distributions, past and to come.
//! - [`reports`], [`symbols`] and [`backup`] prepare what leaves the program.
//! - The other modules are the pages, the forms, and the refreshing of what they show.

pub mod accounts;
pub mod activity;
pub mod activity_rules;
pub mod allocation;
pub mod backup;
pub mod calendar;
pub mod charts;
pub mod cost_basis;
pub mod details;
pub mod dividends;
pub mod forms;
pub mod history;
pub mod holdings;
pub mod json;
pub mod ledger;
pub mod model;
pub mod navigation;
pub mod numbers;
pub mod order;
pub mod overview;
pub mod projection;
pub mod rates;
pub mod refresh;
pub mod reports;
pub mod search;
pub mod session;
pub mod settings;
pub mod symbols;
pub mod text;
pub mod toasts;
pub mod watchlist;
pub mod wording;
