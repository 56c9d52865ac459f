//! The discrete core of a small feed-forward neural-network engine.
//!
//! The engine's numeric work runs over floating-point buffers, but everything
//! that decides *where* numbers go and *which* numbers take part is integer
//! logic, and that logic lives here, verified: the strided two-dimensional
//! layout behind the matrix type and its constant-time transpose
//! ([`layout`]), the shape discipline of a stack of affine layers
//! ([`network`]), the flattening of nested tensor literals ([`tensor`]), the
//! text cleaning and tokenization that feed embedding training
//! ([`language`]), and the word-pair sampling of the embedding builder
//! ([`embedding`]).

pub mod embedding;
pub mod language;
pub mod layout;
pub mod network;
pub mod tensor;
