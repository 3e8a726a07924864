//! A static defect-detection engine.
//!
//! A syntax tree, supplied by a front-end, is walked once in pre-order; at every
//! node the rules of a validated rule set that apply to the node's kind are
//! evaluated, and what they report is collected, classified and ordered.
//! Every function of the library is verified against a contract stated over
//! the mathematical model of the tree, the rules and the findings.
//!
//! - [`tree`] holds the syntax tree and its model, [`context`] the questions
//!   that are asked about a node's surroundings, [`preorder`] the proof that a
//!   walk meets every node once.
//! - [`rule`] holds rules and findings, [`detect`] the detectors, [`catalog`]
//!   the standard rules, [`ruleset`] the validated collection.
//! - [`engine`] is the walk, [`verdict`] the aggregate of its findings,
//!   [`report`] their order and place, [`unit`] the report of a unit and the
//!   status of a run.
//! - [`conformance`] holds a sample against its label, [`corpus`] holds what
//!   the samples compute, [`laws`] what holds of every analysis.
//! - [`text`] compares pieces of text.

pub mod catalog;
pub mod conformance;
pub mod context;
pub mod corpus;
pub mod detect;
pub mod engine;
pub mod laws;
pub mod preorder;
pub mod report;
pub mod rule;
pub mod ruleset;
pub mod text;
pub mod tree;
pub mod unit;
pub mod verdict;
