use rar_chat::env_file::{EnvFileError, EnvFileErrorKind, EnvSource};

fn load_with(content: &str, process: &[(&str, &str)]) -> Result<EnvSource, EnvFileError> {
    let vars: Vec<(String, String)> =
        process.iter().map(|(k, v)| (k.to_string(), v.to_string())).collect();
    EnvSource::from_file("test.env", content, &vars)
}

fn load(content: &str) -> Result<EnvSource, EnvFileError> {
    load_with(content, &[])
}

fn source(content: &str) -> EnvSource {
    match load(content) {
        Ok(s) => s,
        Err(e) => panic!("{}", e.to_string()),
    }
}

fn error(content: &str) -> EnvFileError {
    match load(content) {
        Ok(_) => panic!("expected an error"),
        Err(e) => e,
    }
}

#[test]
fn parses_basic_pairs_comments_blanks() {
    let s = source("# comment\n\nOPENAI_MODEL=meta/llama-3.3-70b-instruct\nexport OPENAI_BASE_URL=https://integrate.api.nvidia.com/v1\n");
    assert_eq!(s.get("OPENAI_MODEL").as_deref(), Some("meta/llama-3.3-70b-instruct"));
    assert_eq!(s.get("OPENAI_BASE_URL").as_deref(), Some("https://integrate.api.nvidia.com/v1"));
}

#[test]
fn strips_matching_quotes_only() {
    let s = source("A=\"quoted\"\nB='single'\nC=\"unbalanced\n");
    assert_eq!(s.get("A").as_deref(), Some("quoted"));
    assert_eq!(s.get("B").as_deref(), Some("single"));
    assert_eq!(s.get("C").as_deref(), Some("\"unbalanced"));
}

#[test]
fn file_wins_over_process_env() {
    let s = match load_with(
        "ENVFILE_TEST_PRECEDENCE=from-file\n",
        &[("ENVFILE_TEST_PRECEDENCE", "from-process")],
    ) {
        Ok(s) => s,
        Err(e) => panic!("{}", e.to_string()),
    };
    assert_eq!(s.get("ENVFILE_TEST_PRECEDENCE").as_deref(), Some("from-file"));
}

#[test]
fn rejects_malformed_line_with_position() {
    let err = error("GOOD=1\nthis is not a pair\n").to_string();
    assert!(err.contains(":2:"), "error should carry the line number: {err}");
}

#[test]
fn errors_name_place_and_kind_but_no_content() {
    let e = error("GOOD=1\n\n# c\nsk-secret\n");
    assert_eq!(e.line, 4);
    assert_eq!(e.kind, EnvFileErrorKind::NotAPair);
    assert_eq!(e.to_string(), "test.env:4: expected KEY=VALUE, comment, or blank line");

    let e = error("A B=sk-secret");
    assert_eq!(e.kind, EnvFileErrorKind::MalformedKey);
    assert_eq!(e.to_string(), "test.env:1: malformed key");

    let e = error("=x");
    assert_eq!(e.kind, EnvFileErrorKind::MalformedKey);
}

#[test]
fn process_environment_is_the_fallback() {
    let s = match load_with("A=1\n", &[("B", "2")]) {
        Ok(s) => s,
        Err(e) => panic!("{}", e.to_string()),
    };
    assert_eq!(s.get("A").as_deref(), Some("1"));
    assert_eq!(s.get("B").as_deref(), Some("2"));
    assert_eq!(s.get("C"), None);
    assert_eq!(s.origin(), Some("test.env"));
    assert_eq!(s.origin.as_deref(), Some("test.env"));
}

#[test]
fn without_a_file_the_process_environment_is_all() {
    let vars = vec![("K".to_string(), "v".to_string()), ("K".to_string(), "w".to_string())];
    let s = EnvSource::process_only(&vars);
    assert_eq!(s.get("K").as_deref(), Some("v"));
    assert_eq!(s.get("J"), None);
    assert_eq!(s.origin(), None);
}

#[test]
fn white_space_and_export_are_taken_off() {
    let s = source("  export   A  =  1  \r\n\tB=2\nexportC=3\n");
    assert_eq!(s.get("A").as_deref(), Some("1"));
    assert_eq!(s.get("B").as_deref(), Some("2"));
    assert_eq!(s.get("exportC").as_deref(), Some("3"));
}

#[test]
fn a_later_entry_replaces_an_earlier_one() {
    let s = source("A=1\nA=2\n");
    assert_eq!(s.get("A").as_deref(), Some("2"));
}

#[test]
fn values_keep_their_own_equals_signs_and_hashes() {
    let s = source("A=x=y\nB=1#2\nC=\n");
    assert_eq!(s.get("A").as_deref(), Some("x=y"));
    assert_eq!(s.get("B").as_deref(), Some("1#2"));
    assert_eq!(s.get("C").as_deref(), Some(""));
}

#[test]
fn quoted_values_read_back() {
    for value in ["", "plain", " padded ", "it's", "a=b", "# no comment"] {
        let s = source(&format!("KEY=\"{value}\"\n"));
        assert_eq!(s.get("KEY").as_deref(), Some(value));
    }
    let s = source("KEY='a \"b\" c'\n");
    assert_eq!(s.get("KEY").as_deref(), Some("a \"b\" c"));
    let s = source("KEY=\"\n");
    assert_eq!(s.get("KEY").as_deref(), Some("\""));
}
