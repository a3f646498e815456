//! Core request pipeline of a platform security service: the framed wire
//! protocol, body conversion, key-information store, authentication and
//! dispatch of requests to cryptographic providers.
pub mod requests;
pub mod status;
pub mod le;
pub mod response;
pub mod request;
pub mod protobuf;
pub mod operations;
pub mod key_info;
pub mod mapping;
pub mod back;
pub mod front;
pub mod core_provider;
pub mod trusted_service;
pub mod service_builder;
