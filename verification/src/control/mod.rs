pub mod cachelito;
pub mod probe;
