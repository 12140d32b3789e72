pub mod analyzer;
pub mod comparator;
pub mod compute;
pub mod convergence;
pub mod copybook;
pub mod data_division;
pub mod decimal;
pub mod exec_sql;
pub mod generator;
pub mod fd_parser;
pub mod fix_loop;
pub mod llm;
pub mod prompt;
pub mod redefines;
pub mod report;
pub mod samples;
pub mod sql_gen;
pub mod statements;
pub mod string_ops;
pub mod text;
pub mod types;
