//! Background pipeline of a reconnaissance tool: search terms are read from
//! a file, looked up page by page at a remote data source, and the records
//! found are appended to a CSV file. The library holds the decisions of each
//! stage; the caller performs the file, network and process work.

pub mod checker;
pub mod client;
pub mod config;
pub mod fuzzy;
pub mod input_state;
pub mod pulse;
pub mod reader;
pub mod record;
pub mod run_state;
pub mod scroll;
pub mod session;
pub mod statistic;
pub mod term;
pub mod text;
pub mod ui;
pub mod utf8_pos;
pub mod writer;
