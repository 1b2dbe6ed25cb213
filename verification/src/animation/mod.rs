pub mod tween;
pub mod sequencer;
