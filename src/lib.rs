//! Typed models of a small items API, their text and header codec, the per-operation
//! response types, and a binding of an API implementation to a fixed call context.
pub mod api;
pub mod codec;
pub mod header;
pub mod model;
pub mod models;
pub mod round_trip;
pub mod scalar;
pub mod text;

pub use api::{
    Api, ApiNoContext, ContextWrapper, ContextWrapperExt, GetIndexResponse, ItemsGetResponse,
    ItemsIdDeleteResponse, ItemsIdGetResponse, ItemsIdPutResponse, ItemsPostResponse, Readiness,
};
pub use codec::{DecodeError, EncodeError};
pub use model::Model;
