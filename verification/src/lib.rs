pub mod infer;
pub mod ir;
pub mod lower;
pub mod text;
