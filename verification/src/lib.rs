//! Distilling a recording into a report.
//!
//! A workflow transcribes a recording, analyses the transcript segment by segment and
//! compiles a report. This library holds what is decided along the way:
//!
//! - `chunker` splits a transcript into segments of bounded size; `chunker_size` and
//!   `chunker_content` prove what the segments are.
//! - `sentiment` and `entities` combine what the analysis found in each segment;
//!   `sentiment_laws` and `entity_laws` prove what the combination keeps.
//! - `sections` draws summaries and topics from the replies of the model.
//! - `report` combines all of it into one analysis and prints the report.
//! - `submit`, `status`, `lookup` and `artifacts` are the decisions of the client that
//!   submits a recording, waits for its run, finds a run again and reads what it left.
//! - `display` prepares what the command line shows, `json`, `text` and `confidence` are
//!   shared tools, `error` names the failures of the client.
//!
//! Nothing here talks to a service or reads the clock: callers hand in what they have read
//! and carry out what is decided. A confidence is a whole number of millionths.

pub mod artifacts;
pub mod chunker;
pub mod chunker_content;
pub mod chunker_size;
pub mod confidence;
pub mod display;
pub mod entities;
pub mod entity_laws;
pub mod error;
pub mod json;
pub mod lookup;
pub mod report;
pub mod sections;
pub mod sentiment;
pub mod sentiment_laws;
pub mod status;
pub mod submit;
pub mod text;
