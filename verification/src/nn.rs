//! Perceptron, layer and multi-layer network, built from nodes of a graph.
//! A model holds the handles of its parameters; evaluating it appends the
//! nodes of the computation to the graph.

pub mod layer;
pub mod mlp;
pub mod neuron;
pub mod rows;

pub use self::layer::Layer;
pub use self::mlp::{parameter_count, MLP};
pub use self::neuron::Neuron;
pub use self::rows::{row_fits, zero_gradients, ModelOutput};
