//! Classical and modern control theory: the structural core.

pub mod matrix;
pub mod transfer_function;
pub mod state_space;
pub mod stability;
pub mod nyquist;
pub mod pid;
pub mod agent_control;

pub use state_space::StateSpace;
