//! A multi-language workflow orchestrator core: step records, a dependency
//! resolver that topologically sorts steps with cycle detection, a runner
//! registry that routes each step to a language executor, a result store
//! that threads JSON-shaped outputs between steps, and the configuration
//! those parts are driven by.


pub mod config;
pub mod engine;
pub mod json;
pub mod loader;
pub mod outcome;
pub mod parallel;
pub mod render;
pub mod modules;
pub mod native;
pub mod resolve;
pub mod runner;
pub mod script;
pub mod step;
pub mod store;
pub mod text;
pub mod wasm;

