//! A coding-agent runtime: providers and their wire formats, the agent run,
//! search tools, sandbox back ends and workflows.

#![allow(unused_imports)]

pub mod text;
pub mod json;
pub mod types;
pub mod stream;
pub mod wire;
pub mod framing;
pub mod anthropic;
pub mod anthropic_vertex;
pub mod openai;
pub mod tool_results;
pub mod keyed;
pub mod agent;
pub mod benchmark;
pub mod runner;
pub mod sort;
pub mod paths;
pub mod search;
pub mod glob_tool;
pub mod sandbox;
pub mod sprites;
pub mod ndjson;
pub mod vercel;
pub mod vercel_runtime;
pub mod memo;
pub mod workflow;
pub mod workflow_builder;
pub mod executor;
