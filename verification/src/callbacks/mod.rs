pub mod input;
pub mod log;
pub mod mainthread;
pub mod misc;
pub mod output;
pub mod servervars;
pub mod thread;
pub mod worker;
