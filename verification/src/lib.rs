//! Verified cores of three small exercise environments: a word capitalizer,
//! a Danish grade book driven by text commands, and an information-flow
//! security analysis with its input helpers and the coverage reports of its
//! analyzer, together with shared text utilities.

pub mod text;
pub mod capitalize;
pub mod sentences;
pub mod grades;
pub mod command;
pub mod model;
pub mod gradebook;
pub mod challenge2;
pub mod generator;
pub mod security;
pub mod lattice;
pub mod classify;
pub mod coverage;
pub mod xml;
pub mod random;
pub mod runner;
