use sd2dinit::error::ParseError;
use sd2dinit::parser::SystemdUnit;

fn unit(input: &str) -> SystemdUnit {
    SystemdUnit::parse(input, String::from("/usr/lib/systemd/system/demo.service")).unwrap()
}

#[test]
fn no_section_header_is_an_error() {
    let r = SystemdUnit::parse("ExecStart=/bin/true\n# only a comment\n", String::from("x.service"));
    match r {
        Err(ParseError::NoSections { path }) => assert_eq!(path, "x.service"),
        _ => panic!("expected NoSections"),
    }
}

#[test]
fn empty_input_is_an_error() {
    assert!(SystemdUnit::parse("", String::from("x.service")).is_err());
}

#[test]
fn directive_outside_section_warns_with_line_number() {
    let u = unit("Foo=bar\n[Service]\nExecStart=/bin/true\n");
    assert_eq!(u.parse_warnings, vec!["line 1: directive outside of section: Foo=bar".to_string()]);
}

#[test]
fn malformed_line_warning_text() {
    let u = unit("[Service]\n\n  garbage here  \n");
    assert_eq!(u.parse_warnings, vec!["line 3: not a valid key=value pair: garbage here".to_string()]);
}

#[test]
fn last_value_wins_and_get_all_keeps_order() {
    let u = unit("[Unit]\nAfter=a.service\nAfter=b.service\n");
    assert_eq!(u.get("Unit", "After"), Some("b.service"));
    assert_eq!(u.get_all("Unit", "After"), vec!["a.service", "b.service"]);
    assert_eq!(u.get("Unit", "Missing"), None);
    assert!(u.get_all("Nope", "After").is_empty());
}

#[test]
fn empty_value_resets_only_its_key() {
    let u = unit("[Service]\nA=1\nB=2\nA=3\nA=\nB=4\n");
    assert!(u.get_all("Service", "A").is_empty());
    assert_eq!(u.get_all("Service", "B"), vec!["2", "4"]);
}

#[test]
fn value_keeps_inner_equals_signs() {
    let u = unit("[Service]\nEnvironment=KEY=a=b\n");
    assert_eq!(u.get("Service", "Environment"), Some("KEY=a=b"));
}

#[test]
fn repeated_header_continues_section() {
    let u = unit("[Service]\nA=1\n[Unit]\nX=y\n[Service]\nA=2\n");
    assert_eq!(u.get_all("Service", "A"), vec!["1", "2"]);
    assert_eq!(u.sections.len(), 2);
}

#[test]
fn continuation_with_crlf_line_endings() {
    let u = unit("[Service]\r\nExecStart=/bin/a \\\r\n   -x\r\n");
    assert_eq!(u.get("Service", "ExecStart"), Some("/bin/a -x"));
}

#[test]
fn trailing_continuation_at_end_of_file() {
    let u = unit("[Service]\nExecStart=/bin/a \\");
    assert_eq!(u.get("Service", "ExecStart"), Some("/bin/a"));
}

#[test]
fn drop_in_creates_sections_and_keeps_warnings() {
    let mut u = unit("[Service]\nExecStart=/bin/true\nbad line\n");
    let before = u.parse_warnings.clone();
    u.merge_drop_in("[Install]\nWantedBy=multi-user.target\nanother bad line\n", String::from("demo.service.d/a.conf"));
    assert_eq!(u.get("Install", "WantedBy"), Some("multi-user.target"));
    assert_eq!(u.parse_warnings, before);
    assert_eq!(u.drop_in_paths, vec!["demo.service.d/a.conf".to_string()]);
}

#[test]
fn drop_in_leaves_sections_it_does_not_name() {
    let mut u = unit("[Service]\nExecStart=/bin/true\n[Unit]\nAfter=x.target\n");
    u.merge_drop_in("[Service]\nExecStart=\nExecStart=/bin/false\n", String::from("o.conf"));
    assert_eq!(u.get_all("Unit", "After"), vec!["x.target"]);
    assert_eq!(u.get("Service", "ExecStart"), Some("/bin/false"));
}

#[test]
fn drop_in_without_header_changes_nothing() {
    let mut u = unit("[Service]\nExecStart=/bin/true\n");
    u.merge_drop_in("ExecStart=/bin/false\n", String::from("o.conf"));
    assert_eq!(u.get_all("Service", "ExecStart"), vec!["/bin/true"]);
}

#[test]
fn section_entries_in_file_order() {
    let u = unit("[Service]\nB=2\nA=1\n");
    let es = u.section_entries("Service").unwrap();
    assert_eq!(es[0], ("B".to_string(), "2".to_string()));
    assert_eq!(es[1], ("A".to_string(), "1".to_string()));
    assert!(u.section_entries("Install").is_none());
}
