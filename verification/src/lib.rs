pub mod json;
pub mod text;
pub mod path;
pub mod content;
pub mod event;
pub mod strmap;
pub mod convert;
pub mod stream;
pub mod subagent;
pub mod runner;
pub mod tool_loop;
pub mod tools;
pub mod workspace;
pub mod core_tools;
pub mod model;
pub mod presets;
pub mod config;
pub mod sort;
pub mod profile;
pub mod client;
pub mod files;
