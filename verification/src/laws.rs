//! What the operations are for, stated of their inputs and results alone: prices
//! by what they are worth, payloads by the members they have, lists by what is in
//! them.

pub mod amounts;
pub mod answers;
pub mod averages;
pub mod balances;
pub mod bars;
pub mod breakdowns;
pub mod buckets;
pub mod details;
pub mod formulas;
pub mod listings;
pub mod lists;
pub mod moments;
pub mod near;
pub mod numbers;
pub mod orders;
pub mod positions;
pub mod previews;
pub mod quotes;
pub mod reading;
pub mod sampling;
pub mod screens;
pub mod states;
pub mod steps;
pub mod stops;
pub mod texts;
