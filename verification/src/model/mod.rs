pub mod dcql;
pub mod extended;
