//! The NMOS contract: the resource model of IS-04 and what the Node API and the
//! Connection API return.

pub mod connection;
pub mod connection_api;
pub mod device;
pub mod error;
pub mod http;
pub mod flow;
pub mod media;
pub mod node;
pub mod node_api;
pub mod receiver;
pub mod resource;
pub mod sender;
pub mod source;
pub mod version;
