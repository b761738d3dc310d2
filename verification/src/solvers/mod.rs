//! One reader per solver, and what they share.

pub mod cbc;
pub mod copt;
pub mod cplex;
pub mod entries;
pub mod gurobi;
pub mod highs;
pub mod mosek;
pub mod optverse;
pub mod progress;
pub mod scip;
pub mod xpress;
