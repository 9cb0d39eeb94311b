//! A unified data-access facade: backends are built from configuration,
//! wrapped by an ordered stack of cross-cutting layers, and erased into a
//! single shareable `Operator` handle.

pub mod config;
pub mod error;
pub mod laws;
pub mod layer;
pub mod operator;
pub mod runtime;
pub mod scheme;
pub mod services;
pub mod store;
pub mod strutil;

pub use config::ConfigMap;
pub use error::Error;
pub use error::ErrorKind;
pub use layer::Layer;
pub use operator::Builder;
pub use operator::Metadata;
pub use operator::Operator;
pub use operator::OperatorBuilder;
pub use runtime::RuntimeRegistry;
pub use scheme::Scheme;
