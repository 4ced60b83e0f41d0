pub mod broker;
pub mod cluster;
pub mod legacy;
pub mod payload;
pub mod run;
pub mod time;
pub mod workload;
