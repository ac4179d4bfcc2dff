pub mod bigint;
pub mod biguint;
pub mod errors;
pub mod flat_vector;
pub mod le_value;
pub mod numerals;
