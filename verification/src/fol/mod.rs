pub mod fol;
pub mod fol_utils;
