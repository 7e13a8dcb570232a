pub mod builder;
pub mod translator;
