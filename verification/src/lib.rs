pub mod double;
pub mod duplicate;
pub mod entries;
pub mod example;
pub mod lm;
pub mod macro_support;
pub mod module;
pub mod normalize;
pub mod observe;
pub mod optimize;
pub mod powers;
pub mod program;
pub mod signature;
pub mod sorted;
pub mod text;
