//! Letter-block design library: spellability of words on a set of cubes,
//! Hall-deficiency certificates, corpus heuristics and constraint bookkeeping.

pub mod bits;
pub mod alphabet;
pub mod text;
pub mod types;
pub mod hall;
pub mod verify;
pub mod pareto;
pub mod sorting;
pub mod stats;
pub mod assign;
pub mod lexorder;
pub mod noise;
pub mod glyph_db;
pub mod bundles;
pub mod catalog;
pub mod filters;
pub mod tokenizer;
pub mod conf;
pub mod cubes;
pub mod session;
pub mod corpus;
pub mod rule_order;
pub mod token_set;
pub mod bridge_tables;
pub mod bridges;
pub mod blockers;
pub mod report;
pub mod misses;
