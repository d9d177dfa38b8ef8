//! Competitor overview reports for cubing competitions.
//!
//! The library holds the data model of competitors, events and personal
//! records, reads and writes times as text, reads the roster of a
//! competition, looks records up in one of three sources, ranks the
//! participants of an event and counts their records by whole seconds for a
//! histogram. Fetching pages, drawing and writing files are left to the
//! program around it.

pub mod text;
pub mod wcoerror;
pub mod duration;
pub mod event;
pub mod competitor;
pub mod roster;
pub mod json_source;
pub mod html_source;
pub mod synthetic_source;
pub mod source;
pub mod aggregator;
pub mod ranking;
pub mod histogram;
pub mod overview;
pub mod folder;
