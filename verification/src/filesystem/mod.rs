//! Path policy for the paths the viewer is given.
pub mod scope;
