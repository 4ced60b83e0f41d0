pub mod agent;
pub mod aggregate;
pub mod allocation;
pub mod bench;
pub mod bundle;
pub mod cluster;
pub mod connbench;
pub mod console;
pub mod decimal;
pub mod model;
pub mod payload_stamp;
pub mod runtime;
pub mod storage;
pub mod templates;
pub mod text;
