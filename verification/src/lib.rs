//! Classic machine-learning building blocks around a dense
//! feed-forward neural network trained by mini-batch stochastic
//! gradient descent with backpropagation.  All numeric work is done in
//! saturating fixed-point arithmetic over `i64`, with SCALE units to
//! one; every operation is specified against a mathematical model of
//! the computation.

pub mod activation;
pub mod fixed;
pub mod kmeans;
pub mod knn;
pub mod layer;
pub mod linalg;
pub mod mnist;
pub mod network;
pub mod rng;
