//! runkernel: a code-native task graph engine for build, ops and deployment workflows, with
//! its command line and the protocol its workflow binaries answer.
pub mod cache;
pub mod cli;
pub mod digest;
pub mod execute;
pub mod fmt;
pub mod graph;
pub mod outputs;
pub mod paths;
pub mod pipeline;
pub mod protocol;
pub mod render;
pub mod rote;
pub mod run;
pub mod task;
pub mod text;
