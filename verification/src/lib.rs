//! Multi-agent collaboration: message server, worker harness, command line.
pub mod client;
pub mod clock;
pub mod config;
pub mod init;
pub mod lifecycle;
pub mod manifest;
pub mod monitor;
pub mod outside;
pub mod paths;
pub mod report;
pub mod server;
pub mod sorting;
pub mod table;
pub mod team;
pub mod team_cli;
pub mod team_init;
pub mod text;
pub mod worker;
