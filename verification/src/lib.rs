//! A predator/prey population simulation on a grid of habitat cells.
//!
//! Every quantity that the model treats as a real number (weights, food,
//! fitness, probabilities) is held as an integer count of millionths, so that
//! each rule is an exact statement about integers.
//!
//! Chance enters through a seeded generator of the `rand` crate. Every rule
//! that chance has a part in also stands as a function of what is drawn, so
//! that a year is determined by its start and its draws. The weights of the
//! newborn can be handed in by a caller who samples them; without them they
//! are made from sums of uniform draws.

pub mod units;
pub mod logistic;
pub mod random;
pub mod util;
pub mod chart;
pub mod animal;
pub mod herd;
pub mod feeding;
pub mod landscape;
pub mod biosim;
pub mod cycle;
pub mod island;
