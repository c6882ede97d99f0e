//! Verified core of a local course runner: course manifests, the JSON
//! assertion engine used by chapter tests, request templating, database
//! assertion evaluation, progress bookkeeping and server supervision.

pub mod error;
pub mod json;
pub mod path;
pub mod text;
pub mod assertion;
pub mod template;
pub mod runner;
pub mod course;
pub mod environment;
pub mod server;
pub mod db;
pub mod progress;
pub mod http;
