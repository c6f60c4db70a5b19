pub mod frame;
pub mod json;
pub mod ids;
pub mod message;
pub mod codec;
pub mod session;
pub mod certs;
pub mod version;
pub mod api;
pub mod trust;
pub mod updates;
