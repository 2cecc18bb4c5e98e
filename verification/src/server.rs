//! What the HTTP server answers.

use crate::config;
use crate::config::{DEFAULT_HEALTH_PATH, DEFAULT_METRICS_PATH};
use crate::text;
use vstd::prelude::*;

verus! {

/// Where the server listens and what it serves where.
#[derive(Debug)]
pub struct ServerConfig {
    pub listen_address: String,
    pub metrics_path: String,
    pub health_path: String,
}

/// An answer of the server. `S` is the type of texts.
#[derive(Debug)]
pub struct ResponseOf<S> {
    pub status: u16,
    pub content_type: S,
    pub body: S,
}

/// An answer of the server.
pub type Response = ResponseOf<String>;

impl View for Response {
    type V = ResponseOf<Seq<char>>;

    open spec fn view(&self) -> ResponseOf<Seq<char>> {
        ResponseOf {
            status: self.status,
            content_type: self.content_type@,
            body: self.body@,
        }
    }
}

/// The server.
#[derive(Debug)]
pub struct Server {
    pub cfg: ServerConfig,
}

/// Whether a server is that of a whole configuration.
pub open spec fn serves(server: Server, cfg: config::Config) -> bool {
    &&& server.cfg.listen_address@ == cfg.server.listen_address@
    &&& server.cfg.metrics_path@ == cfg.server.metrics_path@
    &&& server.cfg.health_path@ == cfg.server.health_path@
}

impl Server {
    /// A server for a configuration.
    pub fn new(cfg: ServerConfig) -> (r: Server)
        ensures
            r.cfg == cfg,
    {
        Server { cfg }
    }

    /// The server of a whole configuration.
    pub fn for_config(cfg: &config::Config) -> (r: Server)
        ensures
            serves(r, *cfg),
    {
        Server::new(
            ServerConfig {
                listen_address: cfg.server.listen_address.clone(),
                metrics_path: cfg.server.metrics_path.clone(),
                health_path: cfg.server.health_path.clone(),
            },
        )
    }

    /// The path of the metrics.
    pub fn metrics_path(&self) -> (r: String)
        ensures
            r@ == config::text_or(self.cfg.metrics_path@, DEFAULT_METRICS_PATH@),
    {
        if self.cfg.metrics_path.as_str().is_empty() {
            DEFAULT_METRICS_PATH.to_string()
        } else {
            self.cfg.metrics_path.clone()
        }
    }

    /// The path of the health check.
    pub fn health_path(&self) -> (r: String)
        ensures
            r@ == config::text_or(self.cfg.health_path@, DEFAULT_HEALTH_PATH@),
    {
        if self.cfg.health_path.as_str().is_empty() {
            DEFAULT_HEALTH_PATH.to_string()
        } else {
            self.cfg.health_path.clone()
        }
    }
}

/// The answer to a request for the metrics.
pub open spec fn metrics_answer(encoded: Result<Seq<char>, Seq<char>>) -> ResponseOf<Seq<char>> {
    match encoded {
        Ok(body) => ResponseOf { status: 200, content_type: "text/plain; version=0.0.4"@, body },
        Err(reason) => ResponseOf {
            status: 500,
            content_type: "text/plain"@,
            body: "encode error: "@ + reason,
        },
    }
}

/// Answers a request for the metrics with their text, or with the reason why there is none.
pub fn metrics_response(encoded: Result<String, String>) -> (r: Response)
    ensures
        r@ == metrics_answer(
            match encoded {
                Ok(body) => Ok(body@),
                Err(reason) => Err(reason@),
            },
        ),
{
    match encoded {
        Ok(body) => ResponseOf {
            status: 200,
            content_type: "text/plain; version=0.0.4".to_string(),
            body,
        },
        Err(reason) => {
            let mut body = "encode error: ".to_string();
            body.append(reason.as_str());
            ResponseOf { status: 500, content_type: "text/plain".to_string(), body }
        },
    }
}

/// Answers a health check.
pub fn health_response() -> (r: Response)
    ensures
        r@ == (ResponseOf {
            status: 200u16,
            content_type: "text/plain; charset=utf-8"@,
            body: "ok"@,
        }),
{
    ResponseOf {
        status: 200,
        content_type: "text/plain; charset=utf-8".to_string(),
        body: "ok".to_string(),
    }
}

/// A request for the metrics is answered with their text and success, or with the reason why there
/// is none and a server error.
pub proof fn answers_carry_the_metrics(text: Seq<char>)
    ensures
        metrics_answer(Ok(text)).status == 200,
        metrics_answer(Ok(text)).body == text,
        metrics_answer(Ok(text)).content_type == "text/plain; version=0.0.4"@,
        metrics_answer(Err(text)).status == 500,
        metrics_answer(Err(text)).body == "encode error: "@ + text,
        metrics_answer(Err(text)).content_type == "text/plain"@,
{
}

/// A server of a configuration listens and serves where the configuration says.
pub proof fn servers_follow_their_configuration(server: Server, cfg: config::Config)
    requires
        serves(server, cfg),
    ensures
        server.cfg.listen_address@ == cfg.server.listen_address@,
        server.cfg.metrics_path@ == cfg.server.metrics_path@,
        server.cfg.health_path@ == cfg.server.health_path@,
{
}

/// An answer says its status, its content type and its body.
pub proof fn answers_say_what_they_hold(response: Response)
    ensures
        response@.status == response.status,
        response@.content_type == response.content_type@,
        response@.body == response.body@,
{
}

} // verus!
