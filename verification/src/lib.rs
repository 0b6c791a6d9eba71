//! KQL, the query language of a vector store: parsing, printing, binding,
//! planning and the decisions of execution.

pub mod assign;
pub mod ast;
pub mod bignat;
pub mod binder;
pub mod binder_laws;
pub mod canon;
pub mod cost;
pub mod distance_laws;
pub mod error;
pub mod error_laws;
pub mod eval;
pub mod exec_laws;
pub mod executor;
pub mod grammar;
pub mod grammar_laws;
pub mod ieee;
pub mod index_eval;
pub mod keyword;
pub mod knn_laws;
pub mod lexer;
pub mod logical;
pub mod model_laws;
pub mod normal_form;
pub mod number_laws;
pub mod params;
pub mod parser;
pub mod physical;
pub mod plan_laws;
pub mod planner;
pub mod predicate_laws;
pub mod print_laws;
pub mod printer;
pub mod relex;
pub mod reparse;
pub mod roundtrip;
pub mod rows;
pub mod select;
pub mod shape;
pub mod shortest;
pub mod statement_laws;
pub mod steps;
pub mod syntax;
pub mod text;
pub mod text_laws;
pub mod treemap;
pub mod value;
pub mod value_laws;
pub mod yields;

pub use ast::AstStatement;
pub use binder::bind;
pub use error::KovaQueryError;
pub use executor::Engine;
pub use logical::LogicalStatement;
pub use params::{ParamBindings, ParamValue};
pub use parser::parse_str;
pub use physical::PhysicalPlan;
pub use planner::plan_with_estimator;
pub use printer::print;
pub use rows::{ExecutionResult, Row, RowValue};
