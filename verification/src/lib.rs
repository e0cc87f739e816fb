//! Synthesis of plausible invented words from a statistical model of
//! English phonotactics.

pub mod text;
pub mod phoneme;
pub mod ipa;
pub mod syllable;
pub mod word;
pub mod utils;
pub mod syllablize;
pub mod graph;
pub mod shape;
pub mod connections;
pub mod wordgen;
