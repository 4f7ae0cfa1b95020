pub mod elaboration;
pub mod unification;
pub mod utils;
pub mod transport;
