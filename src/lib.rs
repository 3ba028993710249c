pub mod array2d;
pub mod flags;
pub mod frieze;

pub use array2d::Array2D;
