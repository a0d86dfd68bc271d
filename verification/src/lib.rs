//! A collection of small, independently usable routines: a route-cost
//! calculator for towns laid out around a home point, and a set of number and
//! text utilities. Every routine carries a machine-checked contract.

pub mod bus;
pub mod calculator;
pub mod checkbook;
pub mod cubic;
pub mod diamond;
pub mod duration;
pub mod factorial;
pub mod granny;
pub mod money;
pub mod morse;
pub mod next_largest;
pub mod number_check;
pub mod pattern;
pub mod phone;
pub mod pig_latin;
pub mod scrabble;
pub mod shortest_step;
pub mod soda;
pub mod squares;
pub mod text;
pub mod triple_double;
pub mod twice_linear;
pub mod vowels;
pub mod walk;
pub mod word_spin;
pub mod wordify;
