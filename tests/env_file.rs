use stack_sync::envfile::{parse_env_str, serialize_env_vars, EnvVar};

fn var(name: &str, value: &str) -> EnvVar {
    EnvVar {
        name: name.to_string(),
        value: value.to_string(),
    }
}

#[test]
fn test_parse_env_str_basic() {
    let input = "FOO=bar\nBAZ=qux";
    let vars = parse_env_str(input);
    assert_eq!(vars.len(), 2);
    assert_eq!(vars[0].name, "FOO");
    assert_eq!(vars[0].value, "bar");
    assert_eq!(vars[1].name, "BAZ");
    assert_eq!(vars[1].value, "qux");
}

#[test]
fn test_parse_env_str_skips_comments_and_blanks() {
    let input = "# comment\nFOO=bar\n\n  # another\nBAZ=qux\n";
    let vars = parse_env_str(input);
    assert_eq!(vars.len(), 2);
}

#[test]
fn test_parse_env_str_handles_values_with_equals() {
    let input = "URL=https://example.com?foo=bar";
    let vars = parse_env_str(input);
    assert_eq!(vars.len(), 1);
    assert_eq!(vars[0].name, "URL");
    assert_eq!(vars[0].value, "https://example.com?foo=bar");
}

#[test]
fn test_parse_env_str_empty() {
    let vars = parse_env_str("");
    assert!(vars.is_empty());
}

#[test]
fn test_env_file_round_trip() {
    let vars = vec![var("FOO", "bar"), var("BAZ", "qux=123")];
    let text = serialize_env_vars(&vars);
    let parsed = parse_env_str(&text);
    assert_eq!(parsed.len(), 2);
    assert_eq!(parsed[0].name, "FOO");
    assert_eq!(parsed[0].value, "bar");
    assert_eq!(parsed[1].name, "BAZ");
    assert_eq!(parsed[1].value, "qux=123");
}

#[test]
fn env_round_trip_gives_back_the_same_vars() {
    let vars = vec![var("FOO", "bar"), var("BAZ", "qux=123")];
    assert_eq!(parse_env_str(&serialize_env_vars(&vars)), vars);
}

#[test]
fn env_parsing_ignores_noise() {
    let vars = parse_env_str("# c\nFOO=bar\n\n  # x\nBAZ=qux\n");
    assert_eq!(vars, vec![var("FOO", "bar"), var("BAZ", "qux")]);
}

#[test]
fn env_serialize_joins_lines_without_trailing_newline() {
    let vars = vec![var("A", "1"), var("B", "")];
    assert_eq!(serialize_env_vars(&vars), "A=1\nB=");
    assert_eq!(serialize_env_vars(&vec![]), "");
}

#[test]
fn env_parse_trims_and_skips_lines_without_equals() {
    let vars = parse_env_str("  KEY  =  spaced value \r\nnoequals\n=empty\n\tT=\t\n");
    assert_eq!(
        vars,
        vec![var("KEY", "spaced value"), var("", "empty"), var("T", "")]
    );
}
