//! Host facts for a terminal banner: install age from package logs, a small
//! time-bounded fact cache, and the formatting of uptime and memory figures.

pub mod text;
pub mod age;
pub mod cache;
pub mod facts;
