pub mod storage;
pub mod id_gen;
pub mod generator;
pub mod codec;
pub mod decimal;
pub mod query;
pub mod response;
pub mod config;
pub mod service;
