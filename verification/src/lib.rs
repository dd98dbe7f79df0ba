use vstd::prelude::*;

pub mod clock;
pub mod text;
pub mod access;
pub mod password;
pub mod circuit;
pub mod types;
pub mod u256;
pub mod error;
pub mod detection;
pub mod config;
pub mod ordering;
pub mod encryption;
pub mod redistribution;
pub mod gateway;
pub mod cors;
pub mod monitoring;
pub mod jwt;
pub mod block_builder;
pub mod api;
pub mod gnn;
pub mod rate_limit;
pub mod middleware;
pub mod auth_service;
pub mod cli;
pub mod shield;
pub mod production;
pub mod dex;
pub mod token;
