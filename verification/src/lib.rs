//! Review a git diff in the browser and hand the feedback back: the library
//! holds the command line, the diff model, the classification and parsing
//! rules, the review state transitions, the API's guards and the report
//! renderers.

pub mod text;
pub mod model;
pub mod args;
pub mod classify;
pub mod scope;
pub mod changes;
pub mod hunks;
pub mod unified;
pub mod report;
pub mod validate;
pub mod server;
pub mod session;
pub mod cli;
pub mod assets;
pub mod skill;
pub mod wait;
pub mod browser;
