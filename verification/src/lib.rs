pub mod ids;
pub mod seqs;
pub mod text;
pub mod graph;
pub mod render;
pub mod state;
pub mod animation;
pub mod ecs;
pub mod physics;
