pub mod model;
pub mod validate;
pub mod tour;
pub mod evaluator;
pub mod solution;
pub mod initial;
pub mod construction;
pub mod operators;
pub mod ranking;
pub mod population;
pub mod termination;
pub mod solver;
