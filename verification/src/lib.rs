//! The core of an ONNX embedding server: the model catalog, batch planning
//! for inference (length ordering, sub-batching, padding, and putting results
//! back in request order), the registry of loaded models, the HTTP API's
//! decisions, the command line, and the text of downloads and listings.
pub mod text;
pub mod catalog;
pub mod batching;
pub mod reordering;
pub mod registry;
pub mod cli;
pub mod routes;
pub mod download;
