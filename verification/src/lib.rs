pub mod linear;
pub mod matrix;
pub mod network;
pub mod rng;
pub mod scalar;

pub use linear::calc_cost;
pub use linear::dcost;
pub use matrix::NNMatrix;
pub use network::NNArch;
pub use scalar::sigmoid;
pub use scalar::Scalar;
