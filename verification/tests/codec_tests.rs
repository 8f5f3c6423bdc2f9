use nag_core::codec::{parse_execution_params, serialize_execution_params};
use nag_core::params::ExecutionParams;

fn bv(s: &str) -> Vec<u8> {
    s.as_bytes().to_vec()
}

fn params(binary: &str, env: &[(&str, &str)]) -> ExecutionParams {
    ExecutionParams {
        binary: bv(binary),
        environment: env.iter().map(|(k, v)| (bv(k), bv(v))).collect(),
    }
}

fn roundtrip(p: &ExecutionParams) -> ExecutionParams {
    let wire = serialize_execution_params(p);
    parse_execution_params(&wire).expect("serialized form must parse")
}

#[test]
fn round_trip_simple() {
    let p = params("/usr/bin/wrapper", &[("PATH", "/bin:/usr/bin"), ("LD_LIBRARY_PATH", "/lib")]);
    let q = roundtrip(&p);
    assert_eq!(q.binary, p.binary);
    assert_eq!(q.environment, p.environment);
}

#[test]
fn round_trip_empty_environment() {
    let p = params("/w", &[]);
    let q = roundtrip(&p);
    assert_eq!(q.binary, bv("/w"));
    assert_eq!(q.environment.len(), 0);
}

#[test]
fn round_trip_special_characters() {
    let p = params(
        "/with\"quote\\and\nnewline\x01",
        &[("A\tB", "line1\nline2"), ("EMPTY", ""), ("", "empty name")],
    );
    let q = roundtrip(&p);
    assert_eq!(q.binary, p.binary);
    assert_eq!(q.environment, p.environment);
}

#[test]
fn serialized_form_is_exact() {
    let p = params("/b", &[("K", "v")]);
    let wire = serialize_execution_params(&p);
    assert_eq!(wire, bv(r#"{"binary":"/b","environment":{"K":"v"}}"#));
}

#[test]
fn serialized_empty_environment_is_exact() {
    let p = params("/b", &[]);
    let wire = serialize_execution_params(&p);
    assert_eq!(wire, bv(r#"{"binary":"/b","environment":{}}"#));
}

#[test]
fn serialized_escapes_are_exact() {
    let p = params("a\"b\\c\nd", &[]);
    let wire = serialize_execution_params(&p);
    assert_eq!(
        wire,
        bv(r#"{"binary":"a\"b\\c\u000ad","environment":{}}"#)
    );
}

#[test]
fn parse_accepts_shortcut_escapes() {
    let wire = bv(r#"{"binary":"a\nb\tc\\d\"e\/f","environment":{}}"#);
    let p = parse_execution_params(&wire).expect("shortcut escapes are valid JSON");
    assert_eq!(p.binary, bv("a\nb\tc\\d\"e/f"));
}

#[test]
fn parse_accepts_upper_case_hex_escapes() {
    let wire = bv(r#"{"binary":"a\u000Db","environment":{}}"#);
    let p = parse_execution_params(&wire).expect("hex escapes in either case are valid");
    assert_eq!(p.binary, bv("a\rb"));
}

#[test]
fn parse_rejects_trailing_data() {
    let wire = bv(r#"{"binary":"/b","environment":{}} "#);
    assert!(parse_execution_params(&wire).is_none());
}

#[test]
fn parse_rejects_missing_member() {
    let wire = bv(r#"{"binary":"/b"}"#);
    assert!(parse_execution_params(&wire).is_none());
}

#[test]
fn parse_rejects_unterminated_string() {
    let wire = bv(r#"{"binary":"/b,"environment":{}}"#);
    assert!(parse_execution_params(&wire).is_none());
}

#[test]
fn parse_rejects_raw_control_byte() {
    let mut wire = bv(r#"{"binary":"/b","environment":{"K":"v"}}"#);
    let pos = wire.iter().position(|&b| b == b'v').unwrap();
    wire[pos] = 0x01;
    assert!(parse_execution_params(&wire).is_none());
}

#[test]
fn parse_rejects_truncated_document() {
    let p = params("/usr/bin/wrapper", &[("PATH", "/bin")]);
    let wire = serialize_execution_params(&p);
    for cut in 0..wire.len() {
        let prefix = wire[..cut].to_vec();
        assert!(parse_execution_params(&prefix).is_none());
    }
}

#[test]
fn parse_rejects_empty_input() {
    assert!(parse_execution_params(&Vec::new()).is_none());
}

#[test]
fn serialized_form_is_read_by_a_json_library() {
    let p = params("/w\"x\n", &[("LD_LIBRARY_PATH", "/a:\t/b"), ("K", "")]);
    let wire = serialize_execution_params(&p);
    let value: serde_json::Value = serde_json::from_slice(&wire).expect("wire form is JSON");
    assert_eq!(value["binary"].as_str().unwrap(), "/w\"x\n");
    let env = value["environment"].as_object().unwrap();
    assert_eq!(env.len(), 2);
    assert_eq!(env["LD_LIBRARY_PATH"].as_str().unwrap(), "/a:\t/b");
    assert_eq!(env["K"].as_str().unwrap(), "");
}

#[test]
fn json_library_output_is_parsed() {
    let mut env = serde_json::Map::new();
    env.insert(
        "PATH".to_string(),
        serde_json::Value::String("/bin\nwith\tcontrol\"chars\\".to_string()),
    );
    env.insert("X".to_string(), serde_json::Value::String("y".to_string()));
    let mut doc = serde_json::Map::new();
    doc.insert(
        "binary".to_string(),
        serde_json::Value::String("/usr/bin/wrapper".to_string()),
    );
    doc.insert("environment".to_string(), serde_json::Value::Object(env));
    let wire = serde_json::to_vec(&serde_json::Value::Object(doc)).unwrap();
    let p = parse_execution_params(&wire).expect("library output must parse");
    assert_eq!(p.binary, bv("/usr/bin/wrapper"));
    assert_eq!(p.environment.len(), 2);
    let lookup = |k: &str| {
        p.environment
            .iter()
            .find(|(name, _)| name == &bv(k))
            .map(|(_, v)| v.clone())
    };
    assert_eq!(lookup("PATH").unwrap(), bv("/bin\nwith\tcontrol\"chars\\"));
    assert_eq!(lookup("X").unwrap(), bv("y"));
}

#[test]
fn capture_requires_a_binary_name() {
    let env = vec![(bv("PATH"), bv("/bin"))];
    let p = ExecutionParams::capture(Some(bv("/w")), env.clone()).expect("argv0 present");
    assert_eq!(p.binary, bv("/w"));
    assert_eq!(p.environment, env);
    assert!(ExecutionParams::capture(None, env).is_none());
}
