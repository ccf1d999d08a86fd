//! Verified core of a portable UCI chess engine installer.

pub mod text;
pub mod order;
pub mod choice;
pub mod sorting;
pub mod error;
pub mod rules;
pub mod portable;
pub mod web;
pub mod moment;
pub mod schema;
pub mod reordering;
pub mod place;
pub mod extract;
pub mod archive;
pub mod digest;
pub mod download;
pub mod package;
pub mod review;
pub mod registry;
pub mod catalog;
pub mod recipes;
pub mod uci;
pub mod staging;
pub mod install;
pub mod launcher;
pub mod handoff;
pub mod display;
pub mod app;
pub mod cards;
pub mod cli;
