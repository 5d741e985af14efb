//! A fuzzy tab switcher: a filter/rank/select state machine over a snapshot of
//! open tabs, driven one event at a time.

pub mod matcher;
pub mod rank;
pub mod switcher;
pub mod laws;
pub mod style;
