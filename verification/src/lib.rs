pub mod text;
pub mod png;
pub mod comfy;
pub mod version;
pub mod pipelines;
pub mod paths;
pub mod project;
pub mod config;
pub mod lore;
pub mod convert;
pub mod catalog;
pub mod release;
pub mod worker;
pub mod ui;
pub mod wfgraph;
pub mod runtime;
pub mod apirecipe;
pub mod a1111;
