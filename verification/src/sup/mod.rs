pub mod freedom;
pub mod saturation;
pub mod sld;
pub mod sld_bench;
pub mod soundness;
pub mod sup;
pub mod unification;
