//! The request-construction and response-interpretation layer, the
//! configuration, the context, and the report texts.

use ov_cli::client::{
    build_headers, delete_session_result, find_body, interpret_response, link_body, ls_params,
    memory_messages, session_commit_path, session_messages_path, session_path, url_encode,
    wait_path,
};
use ov_cli::codec::to_json_string;
use ov_cli::config::{default_output_format, default_url, Config};
use ov_cli::context::{CliContext, OutputFormat};
use ov_cli::error::{CliError, Error};
use ov_cli::json::JsonValue;
use ov_cli::output::{render_error, render_success};

fn s(x: &str) -> JsonValue {
    JsonValue::Str(x.to_string())
}

fn n(x: &str) -> JsonValue {
    JsonValue::Number(x.to_string())
}

fn obj(fields: Vec<(&str, JsonValue)>) -> JsonValue {
    JsonValue::Object(fields.into_iter().map(|(k, v)| (k.to_string(), v)).collect())
}

#[test]
fn url_encode_replaces_reserved_characters() {
    assert_eq!(url_encode("a/b:c d"), "a%2Fb%3Ac%20d");
    assert_eq!(url_encode("plain"), "plain");
}

#[test]
fn session_paths_use_encoded_ids() {
    assert_eq!(session_path("s/1"), "/api/v1/sessions/s%2F1");
    assert_eq!(session_messages_path("s 1"), "/api/v1/sessions/s%201/messages");
    assert_eq!(session_commit_path("s:1"), "/api/v1/sessions/s%3A1/commit");
    assert_eq!(wait_path(None), "/api/v1/system/wait");
    assert_eq!(wait_path(Some("2.5")), "/api/v1/system/wait?timeout=2.5");
}

#[test]
fn headers_carry_content_type_and_key() {
    let plain = build_headers(&None);
    assert_eq!(plain.len(), 1);
    assert_eq!(plain[0].0, "Content-Type");
    assert_eq!(plain[0].1, "application/json");
    let keyed = build_headers(&Some("SECRET-REDACTED".to_string()));
    assert_eq!(keyed.len(), 2);
    assert_eq!(keyed[1].0, "X-API-Key");
    assert_eq!(keyed[1].1, "SECRET-REDACTED");
}

#[test]
fn request_bodies_hold_the_given_values() {
    let body = find_body("q", "viking://", 10, Some("0.5"));
    assert_eq!(
        to_json_string(&body),
        "{\"query\":\"q\",\"target_uri\":\"viking://\",\"limit\":10,\"score_threshold\":0.5}"
    );
    let no_threshold = find_body("q", "", 10, None);
    assert_eq!(
        to_json_string(&no_threshold),
        "{\"query\":\"q\",\"target_uri\":\"\",\"limit\":10,\"score_threshold\":null}"
    );
    let link = link_body("a", &vec!["b".to_string(), "c".to_string()], "why");
    assert_eq!(
        to_json_string(&link),
        "{\"from_uri\":\"a\",\"to_uris\":[\"b\",\"c\"],\"reason\":\"why\"}"
    );
}

#[test]
fn ls_params_spell_out_flags_and_limits() {
    let p = ls_params("viking://", true, false, "agent", 256, false, 1000);
    let pairs: Vec<(String, String)> = p;
    assert_eq!(pairs[0], ("uri".to_string(), "viking://".to_string()));
    assert_eq!(pairs[1], ("simple".to_string(), "true".to_string()));
    assert_eq!(pairs[2], ("recursive".to_string(), "false".to_string()));
    assert_eq!(pairs[4], ("abs_limit".to_string(), "256".to_string()));
    assert_eq!(pairs[6], ("node_limit".to_string(), "1000".to_string()));
}

#[test]
fn interpret_response_unwraps_result_envelope() {
    let body = obj(vec![("result", n("7")), ("other", s("x"))]);
    let r = interpret_response(200, "200 OK", &body).unwrap();
    assert_eq!(to_json_string(&r), "7");
    // without an envelope the whole body comes back
    let plain = obj(vec![("a", n("1"))]);
    let r2 = interpret_response(200, "200 OK", &plain).unwrap();
    assert_eq!(to_json_string(&r2), "{\"a\":1}");
}

#[test]
fn interpret_response_resolves_empty_statuses_to_null() {
    let r = interpret_response(204, "204 No Content", &s("ignored")).unwrap();
    assert_eq!(to_json_string(&r), "null");
}

#[test]
fn interpret_response_reports_http_errors() {
    let body = obj(vec![(
        "error",
        obj(vec![("message", s("bad thing"))]),
    )]);
    match interpret_response(500, "500 Internal Server Error", &body) {
        Err(Error::Api(m)) => assert_eq!(m, "bad thing"),
        _ => panic!("expected an API error"),
    }
    let detail = obj(vec![("detail", s("not found"))]);
    match interpret_response(404, "404 Not Found", &detail) {
        Err(Error::Api(m)) => assert_eq!(m, "not found"),
        _ => panic!("expected an API error"),
    }
    match interpret_response(404, "404 Not Found", &JsonValue::Null) {
        Err(Error::Api(m)) => assert_eq!(m, "HTTP error 404 Not Found"),
        _ => panic!("expected an API error"),
    }
}

#[test]
fn interpret_response_reports_embedded_errors() {
    let body = obj(vec![(
        "error",
        obj(vec![("code", s("E1")), ("message", s("bad"))]),
    )]);
    match interpret_response(200, "200 OK", &body) {
        Err(Error::Api(m)) => assert_eq!(m, "[E1] bad"),
        _ => panic!("expected an API error"),
    }
    let anonymous = obj(vec![("error", JsonValue::Bool(true))]);
    match interpret_response(200, "200 OK", &anonymous) {
        Err(Error::Api(m)) => assert_eq!(m, "[UNKNOWN] Unknown error"),
        _ => panic!("expected an API error"),
    }
    let null_error = obj(vec![("error", JsonValue::Null), ("result", n("3"))]);
    let ok = interpret_response(200, "200 OK", &null_error).unwrap();
    assert_eq!(to_json_string(&ok), "3");
}

#[test]
fn memory_messages_accept_all_three_shapes() {
    let plain = memory_messages("remember me");
    assert_eq!(plain, vec![("user".to_string(), "remember me".to_string())]);
    let single = memory_messages("{\"role\":\"assistant\",\"content\":\"hi\"}");
    assert_eq!(single, vec![("assistant".to_string(), "hi".to_string())]);
    let list = memory_messages("[{\"role\":\"user\",\"content\":\"a\"},{\"content\":\"b\"}]");
    assert_eq!(
        list,
        vec![
            ("user".to_string(), "a".to_string()),
            ("user".to_string(), "b".to_string()),
        ]
    );
    // JSON that is not a message shape is kept verbatim
    let other = memory_messages("{\"x\":1}");
    assert_eq!(other, vec![("user".to_string(), "{\"x\":1}".to_string())]);
}

#[test]
fn delete_session_result_fills_in_the_id() {
    let filled = delete_session_result(&JsonValue::Null, "s1");
    assert_eq!(to_json_string(&filled), "{\"session_id\":\"s1\"}");
    let empty = delete_session_result(&obj(vec![]), "s2");
    assert_eq!(to_json_string(&empty), "{\"session_id\":\"s2\"}");
    let real = delete_session_result(&obj(vec![("done", JsonValue::Bool(true))]), "s3");
    assert_eq!(to_json_string(&real), "{\"done\":true}");
}

#[test]
fn config_defaults_and_parsing() {
    assert_eq!(default_url(), "http://localhost:1933");
    assert_eq!(default_output_format(), "table");
    let c = Config::load(None).unwrap();
    assert_eq!(c.url, "http://localhost:1933");
    assert_eq!(c.api_key, None);
    assert_eq!(c.output, "table");
    let parsed = Config::from_json_str(
        "{\"url\":\"http://h:1\",\"api_key\":\"SECRET-REDACTED\",\"user\":null,\"output\":\"json\"}",
    )
    .unwrap();
    assert_eq!(parsed.url, "http://h:1");
    assert_eq!(parsed.api_key, Some("SECRET-REDACTED".to_string()));
    assert_eq!(parsed.user, None);
    assert_eq!(parsed.output, "json");
    // missing fields take their defaults
    let sparse = Config::from_json_str("{}").unwrap();
    assert_eq!(sparse.url, "http://localhost:1933");
    assert_eq!(sparse.output, "table");
    // a wrongly typed field is refused
    assert!(Config::from_json_str("{\"url\":5}").is_err());
    assert!(Config::from_json_str("not json").is_err());
    assert!(Config::from_json_str("[1]").is_err());
}

#[test]
fn config_serializes_in_declaration_order() {
    let c = Config::load(None).unwrap();
    assert_eq!(
        c.to_json_string(),
        "{\n  \"url\": \"http://localhost:1933\",\n  \"api_key\": null,\n  \"user\": null,\n  \"output\": \"table\"\n}"
    );
}

#[test]
fn cli_errors_carry_codes_and_exit_codes() {
    let e = CliError::new("boom".to_string());
    assert_eq!((e.code.as_str(), e.exit_code), ("CLI_ERROR", 1));
    let c = CliError::config("bad file".to_string());
    assert_eq!((c.code.as_str(), c.exit_code), ("CLI_CONFIG", 2));
    let n = CliError::network("refused".to_string());
    assert_eq!((n.code.as_str(), n.exit_code), ("CONNECTION_ERROR", 3));
}

#[test]
fn cli_error_keeps_error_kinds() {
    let c = CliError::from_error(Error::Config("no file".to_string()));
    assert_eq!((c.message.as_str(), c.exit_code), ("no file", 2));
    let w = CliError::from_error(Error::Network("down".to_string()));
    assert_eq!((w.message.as_str(), w.exit_code), ("down", 3));
    let a = CliError::from_error(Error::Api("oops".to_string()));
    assert_eq!((a.message.as_str(), a.exit_code), ("API error: oops", 1));
    let p = CliError::from_error(Error::Parse("bad".to_string()));
    assert_eq!(p.message, "Parse error: bad");
}

#[test]
fn output_format_from_text() {
    assert_eq!(OutputFormat::from("json"), OutputFormat::Json);
    assert_eq!(OutputFormat::from("table"), OutputFormat::Table);
    assert_eq!(OutputFormat::from("anything"), OutputFormat::Table);
}

#[test]
fn context_trims_trailing_slashes_for_the_client() {
    let mut config = Config::load(None).unwrap();
    config.url = "http://h:1///".to_string();
    config.api_key = Some("k".to_string());
    let ctx = CliContext::new(config, OutputFormat::Table, true);
    let settings = ctx.get_client();
    assert_eq!(settings.base_url, "http://h:1");
    assert_eq!(settings.api_key, Some("k".to_string()));
}

#[test]
fn success_report_wraps_compact_json() {
    let v = n("5");
    assert_eq!(
        render_success(&v, OutputFormat::Json, true),
        "{\"ok\":true,\"result\":5}"
    );
    assert_eq!(render_success(&v, OutputFormat::Json, false), "5");
    assert_eq!(render_success(&s("hi"), OutputFormat::Table, false), "hi");
}

#[test]
fn error_report_line_and_envelope() {
    assert_eq!(
        render_error("E1", "bad", OutputFormat::Table, true),
        "ERROR[E1]: bad"
    );
    assert_eq!(
        render_error("E1", "bad", OutputFormat::Json, false),
        "ERROR[E1]: bad"
    );
    assert_eq!(
        render_error("E1", "bad", OutputFormat::Json, true),
        "{\"error\":{\"code\":\"E1\",\"message\":\"bad\"},\"ok\":false}"
    );
}

#[test]
fn link_and_unlink_summaries() {
    let l = ov_cli::client::link_summary("a", &vec!["b".to_string()], "r");
    assert_eq!(to_json_string(&l), "{\"from\":\"a\",\"to\":[\"b\"],\"reason\":\"r\"}");
    let u = ov_cli::client::unlink_summary("a", "b");
    assert_eq!(to_json_string(&u), "{\"from\":\"a\",\"to\":\"b\"}");
}

#[test]
fn memory_commit_summary_counts() {
    let resp = obj(vec![("memories_extracted", n("3"))]);
    let summary = ov_cli::client::memory_commit_summary(&resp);
    assert_eq!(to_json_string(&summary), "{\"memories_extracted\":3}");
    let odd = obj(vec![("memories_extracted", n("3.5"))]);
    assert_eq!(
        to_json_string(&ov_cli::client::memory_commit_summary(&odd)),
        "{\"memories_extracted\":0}"
    );
    let missing = obj(vec![]);
    assert_eq!(
        to_json_string(&ov_cli::client::memory_commit_summary(&missing)),
        "{\"memories_extracted\":0}"
    );
    // the signed 64-bit boundary, in both directions
    let hi = obj(vec![("memories_extracted", n("9223372036854775807"))]);
    assert_eq!(
        to_json_string(&ov_cli::client::memory_commit_summary(&hi)),
        "{\"memories_extracted\":9223372036854775807}"
    );
    let over = obj(vec![("memories_extracted", n("9223372036854775808"))]);
    assert_eq!(
        to_json_string(&ov_cli::client::memory_commit_summary(&over)),
        "{\"memories_extracted\":0}"
    );
    let lo = obj(vec![("memories_extracted", n("-9223372036854775808"))]);
    assert_eq!(
        to_json_string(&ov_cli::client::memory_commit_summary(&lo)),
        "{\"memories_extracted\":-9223372036854775808}"
    );
    let under = obj(vec![("memories_extracted", n("-9223372036854775809"))]);
    assert_eq!(
        to_json_string(&ov_cli::client::memory_commit_summary(&under)),
        "{\"memories_extracted\":0}"
    );
}
