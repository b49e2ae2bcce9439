pub mod codec;
pub mod endpoint;
pub mod panel;
pub mod writer;
