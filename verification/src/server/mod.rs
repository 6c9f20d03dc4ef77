pub mod request;
pub mod response;
pub mod service;
pub mod sink;
