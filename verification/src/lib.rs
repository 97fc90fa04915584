pub mod bundle;
pub mod cli;
pub mod client;
pub mod concept;
pub mod date;
pub mod dto;
pub mod front_matter;
pub mod json;
pub mod launcher;
pub mod live;
pub mod ranking;
pub mod render;
pub mod search;
pub mod skills;
pub mod text;
pub mod view;
pub mod yaml;
