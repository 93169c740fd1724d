pub mod anchor;
pub mod cli;
pub mod db;
pub mod dto;
pub mod entity;
pub mod errors;
pub mod filter;
pub mod names;
pub mod output;
pub mod service;
pub mod tep_tag;
pub mod text;
pub mod utils;
