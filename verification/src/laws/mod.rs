//! What holds of the library as a whole.

pub mod calls;
pub mod context;
pub mod levels;
pub mod lexicon;
pub mod links;
pub mod lookup;
pub mod marking;
pub mod numbers;
pub mod pieces;
pub mod reading;
pub mod speaking;
pub mod special;
pub mod steady;
pub mod stems;
pub mod steps;
pub mod stress;
pub mod symbols;
