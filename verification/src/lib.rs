pub mod automation;
pub mod harmonizer;
pub mod hit;
pub mod play;
pub mod foundation;
pub mod engine;
pub mod sheet;
