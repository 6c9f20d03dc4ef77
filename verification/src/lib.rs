pub mod boot;
pub mod callbacks;
pub mod cgi;
pub mod context;
pub mod diagnostics;
pub mod drain;
pub mod headers;
pub mod ini;
pub mod path;
pub mod quote;
pub mod registry;
pub mod server;
pub mod shutdown;
pub mod state;
pub mod text;
pub mod thread;
pub mod thread_inactive;
pub mod thread_regular;
