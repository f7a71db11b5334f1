pub mod arith;
pub mod bignat;
pub mod binary64;
pub mod bitwise;
pub mod concat;
pub mod decimal;
pub mod flags;
pub mod grammar;
pub mod insn;
pub mod laws;
pub mod logic;
pub mod numeral;
pub mod numeric_text;
pub mod operation_laws;
pub mod power;
pub mod readback;
pub mod real_arith;
pub mod real_laws;
pub mod render;
pub mod rounding;
pub mod shortest;
pub mod value;
