//! Method-level call graphs for C# codebases: the graph model, the helper's
//! wire format, solution and project discovery, the analyzer's load steps,
//! and the project service's queries over loaded graphs.
pub mod analysis;
pub mod bridge;
pub mod domain;
pub mod service;
pub mod dto;
pub mod solution;
pub mod text;
