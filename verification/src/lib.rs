//! LoadPilot: the decision logic of a distributed HTTP load generator.
pub mod agent;
pub mod aggregate_laws;
pub mod bench_target;
pub mod broker;
pub mod budget;
pub mod cli;
pub mod client;
pub mod coordinator;
pub mod decimal;
pub mod distributed;
pub mod fleet_laws;
pub mod framing;
pub mod histogram_laws;
pub mod http;
pub mod map;
pub mod metrics;
pub mod nats;
pub mod number;
pub mod plan;
pub mod prometheus;
pub mod report_laws;
pub mod response;
pub mod scheduler;
pub mod serve;
pub mod text;
pub mod vuser;
pub mod wire;
