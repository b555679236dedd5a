pub mod chart;
pub mod poly_entity;
