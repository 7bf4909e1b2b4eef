pub mod config_arguments;
pub mod dns_server;
