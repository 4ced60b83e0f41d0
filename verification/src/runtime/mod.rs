pub mod sampler;
pub mod session;
pub mod connect;
