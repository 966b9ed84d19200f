pub mod consts;
pub mod dct;
pub mod error;
pub mod layout;
pub mod pgm_parse;
