//! Report and upgrade planning for the dependencies of a `package.json`.

pub mod text;
pub mod types;
pub mod version;
pub mod time;
pub mod resolve;
pub mod strmap;
pub mod npm_config;
pub mod logger;
pub mod report;
pub mod upgrade;
pub mod colors;
pub mod table;
pub mod cells;
pub mod render;
