pub mod arranger;
