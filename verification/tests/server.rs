use evm_contract_exporter::cli::{parse_log_format, LogFormat};
use evm_contract_exporter::config::Config;
use evm_contract_exporter::server::{health_response, metrics_response, Server, ServerConfig};

#[test]
fn metrics_endpoint_serves_text() {
    let resp = metrics_response(Ok("test_gauge 42\n".into()));
    assert_eq!(resp.status, 200);
    assert_eq!(resp.content_type, "text/plain; version=0.0.4");
    assert!(resp.body.contains("test_gauge 42"));
}

#[test]
fn metrics_that_cannot_be_written_are_an_error() {
    let resp = metrics_response(Err("broken".into()));
    assert_eq!(resp.status, 500);
    assert_eq!(resp.content_type, "text/plain");
    assert_eq!(resp.body, "encode error: broken");
}

#[test]
fn health_endpoint_ok() {
    let resp = health_response();
    assert_eq!(resp.status, 200);
    assert_eq!(resp.content_type, "text/plain; charset=utf-8");
    assert_eq!(resp.body, "ok");
}

#[test]
fn paths_have_defaults() {
    let server = Server::new(ServerConfig {
        listen_address: "127.0.0.1:0".into(),
        metrics_path: "".into(),
        health_path: "/up".into(),
    });
    assert_eq!(server.metrics_path(), "/metrics");
    assert_eq!(server.health_path(), "/up");
    let mut cfg = Config::default();
    cfg.apply_defaults();
    let server = Server::for_config(&cfg);
    assert_eq!(server.cfg.listen_address, "0.0.0.0:9100");
    assert_eq!(server.health_path(), "/healthz");
}

#[test]
fn rejects_bad_log_format() {
    assert_eq!(
        parse_log_format("xml").expect_err("format").message(),
        "invalid log format: \"xml\" (expected json or text)"
    );
    assert!(matches!(parse_log_format("json"), Ok(LogFormat::Json)));
    assert!(matches!(parse_log_format("text"), Ok(LogFormat::Text)));
}
