//! Deployment configuration, as plain values.
//!
//! Loading from the environment is the host program's business; the core
//! only carries the settled values.

use vstd::prelude::*;

verus! {

pub struct RedisConfig {
    pub host: String,
    pub port: u16,
    pub password: Option<String>,
}

pub struct MssqlConfig {
    pub host: String,
    pub port: u16,
    pub database: String,
    pub username: String,
    pub password: String,
}

pub struct AppConfig {
    pub port: u16,
    pub jwt_secret: String,
    pub redis: RedisConfig,
    pub mssql: MssqlConfig,
    pub kafka_brokers: String,
}

} // verus!
