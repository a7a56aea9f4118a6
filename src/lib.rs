//! N-dimensional discrete convolution (cross-correlation) with padding, strides and
//! kernel dilation, over dense row-major arrays.
pub mod mode;
pub mod shape;
pub mod tensor;
pub mod conv;
pub mod laws;
