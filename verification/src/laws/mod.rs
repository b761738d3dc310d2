//! What the operations of the library are for, stated on the words and the
//! columns of a log.

pub mod cbc;
pub mod copt;
pub mod cplex;
pub mod figures;
pub mod form;
pub mod gurobi;
pub mod highs;
pub mod layout;
pub mod library;
pub mod mosek;
pub mod optverse;
pub mod scip;
pub mod summary;
pub mod tallies;
pub mod walks;
pub mod xpress;
