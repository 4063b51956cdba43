//! A small fully-connected feed-forward neural network over a dense
//! row-major matrix engine. Both are generic over the number type they
//! compute with, and every operation carries a contract over a
//! mathematical model of its values.

pub mod scalar;
pub mod matrix;
pub mod activation;
pub mod network;
