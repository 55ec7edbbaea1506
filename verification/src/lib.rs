//! Core of a small analytical query engine: expression bytecode, the lowering
//! of logical plans into staged physical plans, the repartition exchange and
//! the stage scheduler. Every function here carries a contract over the
//! mathematical models defined next to it.

pub mod includes;
pub mod row;
pub mod text;
pub mod kernels;
pub mod graph;
pub mod expr;
pub mod chunk;
pub mod pop;
pub mod pop_csv;
pub mod pop_hashjoin;
pub mod pop_aggregation;
pub mod pop_repartition;
pub mod pcode;
pub mod expr_compile;
pub mod bitset;
pub mod lop;
pub mod metadata;
pub mod stage;
pub mod qgm;
pub mod qgmiter;
pub mod pop_apply;
pub mod flow;
pub mod pop_compile;
pub mod pop_context;
pub mod task;
pub mod pop_run;
pub mod nodeflow;
pub mod compiler;
