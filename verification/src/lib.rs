//! A verified implementation of Collins and Stabler 2016, "A Formalization of
//! Minimalist Syntax".

pub mod feature;
pub mod utils;
pub mod deriv;
pub mod labels;
pub mod ops;
pub mod conv;
pub mod text;
pub mod laws;
pub mod cli;
