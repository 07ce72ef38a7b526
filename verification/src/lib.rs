pub mod database;
pub mod framing;
pub mod kv;
pub mod network;
pub mod parser;
pub mod server;
pub mod simulator;
pub mod snapshot;
pub mod store;

pub use database::Database;
pub use kv::APIResponse;
pub use kv::KVCommand;
pub use kv::KeyValue;
pub use kv::LogEntry;
pub use kv::Message;
pub use network::Network;
pub use parser::parse_command;
pub use server::Server;
pub use snapshot::KVSnapshot;
