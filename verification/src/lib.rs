pub mod api_key;
pub mod basic_auth;
pub mod codec;
pub mod compression;
pub mod cors;
pub mod credential;
pub mod config;
pub mod header_transform;
pub mod http;
pub mod ip_allowlist;
pub mod json;
pub mod jwt;
pub mod maintenance_mode;
pub mod net;
pub mod ratelimit;
pub mod redirect;
pub mod request_id;
pub mod security_headers;
pub mod site_api_key;
pub mod text;
pub mod weight;
