//! The HTTP request that writes one measurement, decided before anything is sent.
use vstd::prelude::*;
use crate::config::ConfigError;
use crate::influxdb_config::{line_text, url_text, InfluxDbConfig, InfluxDbLp};

verus! {

/// A `POST` of one line of the line protocol.
#[derive(Debug)]
pub struct WriteRequest {
    pub url: String,
    pub authorization: String,
    pub content_type: String,
    pub body: String,
}

/// The write request for `lp`; an error, and so nothing to send, where the token,
/// the host or the database of `config` is empty.
pub fn write_request(config: &InfluxDbConfig, lp: &InfluxDbLp) -> (r: Result<
    WriteRequest,
    ConfigError,
>)
    ensures
        match r {
            Ok(req) => {
                &&& config.token@.len() > 0
                &&& config.hostname@.len() > 0
                &&& config.database@.len() > 0
                &&& req.url@ == url_text(config)
                &&& req.authorization@ == "Bearer "@ + config.token@
                &&& req.content_type@ == "text/plain; charset=utf-8"@
                &&& req.body@ == line_text(lp)
            },
            Err(e) => e == ConfigError::MissingValues && (config.token@.len() == 0
                || config.hostname@.len() == 0 || config.database@.len() == 0),
        },
{
    if config.token.unicode_len() == 0 || config.hostname.unicode_len() == 0
        || config.database.unicode_len() == 0 {
        return Err(ConfigError::MissingValues);
    }
    let mut authorization = String::from_str("Bearer ");
    authorization.append(config.token.as_str());
    Ok(
        WriteRequest {
            url: config.build_url(),
            authorization,
            content_type: String::from_str("text/plain; charset=utf-8"),
            body: lp.to_string(),
        },
    )
}

} // verus!
