//! Ladder types: terms, their normal forms, unification and morphisms.
#![allow(non_snake_case)]

pub mod term;
pub mod dict;
pub mod desugared;
pub mod lnf;
pub mod subtype;
pub mod term_ops;
pub mod curry;
pub mod substitution;
pub mod semantics;
pub mod saturation;
pub mod constraint_system;
pub mod pnf;
pub mod variable_constraint;
pub mod morphism;
pub mod numfmt;
pub mod debug;
pub mod lexer;
pub mod context;
pub mod parser;
pub mod unparser;
pub mod pretty;
pub mod instance;
pub mod heuristic;
pub mod base;
pub mod search;
pub mod unifier;
