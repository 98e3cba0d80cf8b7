//! Configuration values, threaded explicitly into the components that need
//! them: the server/database/CORS settings of the application, and the
//! payment-gateway settings the checkout orchestrator and the callback
//! reconciler share. Reading the environment is the surrounding
//! application's business; the engine only consumes the values.

use vstd::prelude::*;

use crate::text::{spec_dec_digits, u64_to_string};

verus! {

#[derive(Debug)]
pub struct ServerConfig {
    pub host: String,
    pub port: u16,
    pub max_body_size: usize,
}

#[derive(Debug)]
pub struct DatabaseConfig {
    pub url: String,
    pub max_connections: u32,
}

#[derive(Debug)]
pub struct CorsConfig {
    pub allowed_origins: Vec<String>,
}

#[derive(Debug)]
pub struct AppConfig {
    pub server: ServerConfig,
    pub database: DatabaseConfig,
    pub cors: CorsConfig,
}

impl AppConfig {
    /// The `host:port` address the server binds to.
    pub fn server_address(&self) -> (r: String)
        ensures
            r@ == self.server.host@ + ":"@ + spec_dec_digits(self.server.port as int),
    {
        let mut r = self.server.host.clone();
        r.append(":");
        let port = u64_to_string(self.server.port as u64);
        r.append(port.as_str());
        r
    }
}

/// The payment-gateway settings: merchant identity, the shared signing
/// secret, and the two bases the callback and result URLs are built from.
#[derive(Debug)]
pub struct GatewayConfig {
    pub merchant_id: u64,
    pub secret_key: String,
    pub backend_url: String,
    pub frontend_url: String,
}

} // verus!
