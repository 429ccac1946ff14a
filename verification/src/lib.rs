//! Integer neural-network inference (convolution, pooling, fully connected
//! layers and the reshaping around them), as run inside zero-knowledge virtual
//! machines, together with the Merkle-path and ECDSA checks of the same
//! benchmark suite.
pub mod util;
pub mod processing;
pub mod shape;
pub mod helper;
pub mod op;
pub mod layer_checks;
pub mod mnist;
pub mod dlrm;
pub mod merkle;
pub mod ecdsa;
pub mod risc0_ml;
pub mod sp1_ml;
