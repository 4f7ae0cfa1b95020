pub mod model;
pub mod term;
pub mod utils;
pub mod laws;
pub mod elaboration;
pub mod assoc;
pub mod environment;
pub mod evaluation;
pub mod reduction;
pub mod type_check;
pub mod kernel;
pub mod tactics;
pub mod statements;
pub mod elaborable;
pub mod kernel_laws;
pub mod render;
pub mod bounds;
pub mod unification;
pub mod eliminator;
pub mod transport;
