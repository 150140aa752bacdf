//! Application settings, and the endpoint URLs of the measurement REST API.

use vstd::prelude::*;

verus! {

/// Settings of the web application: the token secret and the REST API.
pub struct AppState {
    pub secret: String,
    pub restapi: RestApi,
}

/// Addresses of the HTTP server and of the database.
pub struct Config {
    pub web: ServerConfig,
    pub db: ServerConfig,
}

/// An address and a port.
pub struct ServerConfig {
    pub address: String,
    pub port: u16,
}

/// Where the measurement REST API lives and how to log in to it.
pub struct RestApi {
    pub base_url: String,
    pub port: String,
    pub postfix: String,
    pub username: String,
    pub password: String,
}

/// The URL `<base_url>:<port>/<postfix><path>`.
pub open spec fn endpoint_url(api: &RestApi, path: Seq<char>) -> Seq<char> {
    api.base_url@ + ":"@ + api.port@ + "/"@ + api.postfix@ + path
}

/// The URL of `path` on the REST API; `path` follows the postfix directly
/// (`"?page=Logic.Interface"`).
pub fn get_endpoint(restapi: &RestApi, path: &str) -> (r: String)
    ensures
        r@ == endpoint_url(restapi, path@),
{
    let mut url = restapi.base_url.clone();
    url.append(":");
    url.append(restapi.port.as_str());
    url.append("/");
    url.append(restapi.postfix.as_str());
    url.append(path);
    url
}

} // verus!
