use sd2dinit::numeral::restart_delay;
use sd2dinit::shellenv::{
    dinit_quote_value, parse_double_quoted_value, parse_shell_env_file, parse_shell_value,
};

#[test]
fn shell_values() {
    assert_eq!(parse_shell_value("  plain value  "), "plain value");
    assert_eq!(parse_shell_value("'single $HOME' trailing"), "single $HOME");
    assert_eq!(parse_shell_value("'unterminated"), "unterminated");
    assert_eq!(parse_shell_value("\"a \\\"b\\\" c\""), "a \"b\" c");
}

#[test]
fn double_quoted_values() {
    assert_eq!(parse_double_quoted_value("x $HOME y\""), "x  y");
    assert_eq!(parse_double_quoted_value("${VAR}z\" rest"), "z");
    assert_eq!(parse_double_quoted_value("cost $5\""), "cost $5");
    assert_eq!(parse_double_quoted_value("a\\nb\""), "a\\nb");
    assert_eq!(parse_double_quoted_value("a\\\nb\""), "ab");
    assert_eq!(parse_double_quoted_value("tail\\"), "tail\\");
    assert_eq!(parse_double_quoted_value("${unclosed"), "");
}

#[test]
fn env_file_parsing() {
    let content = "# comment\n\nexport A=1\nB = \"two words\"\nC='x y'\nbad-key=3\nnoequals\n=empty\nD=$E\n";
    let pairs = parse_shell_env_file(content);
    assert_eq!(
        pairs,
        vec![
            ("A".to_string(), "1".to_string()),
            ("B".to_string(), "two words".to_string()),
            ("C".to_string(), "x y".to_string()),
            ("D".to_string(), "$E".to_string()),
        ]
    );
}

#[test]
fn dinit_quoting() {
    assert_eq!(dinit_quote_value("plain"), "'plain'");
    assert_eq!(dinit_quote_value("it's"), "\"it's\"");
    assert_eq!(dinit_quote_value("it's \"$x\" \\"), "\"it's \\\"\\$x\\\" \\\\\"");
}

#[test]
fn quoting_round_trips() {
    for v in ["", "plain", "it's", "a'b$c\"d\\e", "$HOME", "  spaced  ", "tab\there", "ünï'cödé"] {
        assert_eq!(parse_shell_value(&dinit_quote_value(v)), v);
    }
}

#[test]
fn restart_delay_literals() {
    assert_eq!(restart_delay(Some("5")), Some("5".to_string()));
    assert_eq!(restart_delay(Some("60s")), Some("60".to_string()));
    assert_eq!(restart_delay(Some("2.5s")), Some("2.5".to_string()));
    assert_eq!(restart_delay(Some(".5")), Some(".5".to_string()));
    assert_eq!(restart_delay(Some("1.")), Some("1.".to_string()));
    assert_eq!(restart_delay(Some("-1E-3")), Some("-1E-3".to_string()));
    assert_eq!(restart_delay(Some("INF")), Some("INF".to_string()));
    assert_eq!(restart_delay(Some("infinitys")), Some("infinity".to_string()));
    assert_eq!(restart_delay(Some("nan")), Some("nan".to_string()));
    assert_eq!(restart_delay(Some("500ms")), None);
    assert_eq!(restart_delay(Some(".")), None);
    assert_eq!(restart_delay(Some("1e")), None);
    assert_eq!(restart_delay(Some("1..2")), None);
    assert_eq!(restart_delay(Some("s")), None);
    assert_eq!(restart_delay(Some("")), None);
    assert_eq!(restart_delay(None), None);
}

#[test]
fn restart_delay_agrees_with_float_parsing() {
    for v in ["5", "60", "2.5", ".5", "1.", "-1E-3", "+2e+2", "INF", "inFinity", "NaN", "-nan", "1e", ".", "e5", "1.2.3", "--1", "1_0", " 1", "0x10", "", "+", "inf1"] {
        assert_eq!(restart_delay(Some(v)).is_some(), v.parse::<f64>().is_ok(), "{}", v);
    }
}
