//! Renders grammars written in the `peg` notation (rules of the form
//! `name <- expression`) as rules of the `pest` notation
//! (`name = ${ expression }`).
//!
//! A text is read into a tree ([`parser`], which computes what [`syntax`]
//! defines), and the tree ([`ast`]) is rendered rule by rule
//! ([`definition`]), expression by expression ([`expression`]), term by term
//! ([`sequence`]), down to character classes ([`class`]) and literals
//! ([`literal`]). [`convert`] puts the two together.
//!
//! Every function states, over the view of what it is given, exactly which
//! value it returns; the rules that hold of the output whatever the grammar
//! are proof functions beside the functions they speak of.

pub mod ast;
pub mod class;
pub mod convert;
pub mod definition;
pub mod expression;
pub mod literal;
pub mod parser;
pub mod sequence;
pub mod syntax;
pub mod text;
