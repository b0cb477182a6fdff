use sd2dinit::config::Config;
use sd2dinit::converter::{convert, convert_env_refs, replace_specifiers};
use sd2dinit::error::ParseError;
use sd2dinit::parser::SystemdUnit;

fn parse(input: &str) -> Result<SystemdUnit, ParseError> {
    SystemdUnit::parse(input, String::from("/usr/lib/systemd/system/app.service"))
}

#[test]
fn no_header_line_means_no_unit() {
    assert!(matches!(parse("# only a comment\nKey=value\n"), Err(ParseError::NoSections { .. })));
    assert!(matches!(parse("  [Service]  \n"), Ok(_)));
    let u = parse("[A]\n[B]\nx\n[A]\n").unwrap();
    let mut names: Vec<String> = u.sections.iter().map(|s| s.name.clone()).collect();
    names.sort();
    assert_eq!(names, vec!["A".to_string(), "B".to_string()]);
}

#[test]
fn stored_entries_are_trimmed_and_non_empty() {
    let u = parse("[S]\n  Key  =  some value  \nGone=x\nGone=\nEq = a=b\n").unwrap();
    let es = u.section_entries("S").unwrap();
    assert_eq!(
        es,
        &vec![
            ("Key".to_string(), "some value".to_string()),
            ("Eq".to_string(), "a=b".to_string()),
        ]
    );
}

#[test]
fn drop_in_reads_as_if_appended() {
    let base = "[Unit]\nDescription=d\n[Service]\nExecStart=/bin/a\nEnvironment=A=1\n";
    let drop = "# override\n[Service]\nExecStart=\nExecStart=/bin/b\nUser=me\n";
    let mut merged = parse(base).unwrap();
    merged.merge_drop_in(drop, String::from("override.conf"));
    let whole = parse(&format!("{}{}", base, drop)).unwrap();
    for sec in ["Unit", "Service"] {
        assert_eq!(merged.section_entries(sec), whole.section_entries(sec));
    }
    assert_eq!(merged.get("Service", "ExecStart"), Some("/bin/b"));
}

#[test]
fn plain_lines_pass_through_joining() {
    let u = parse("[S]\nA=1\nB=2 \\\n  3\n").unwrap();
    assert_eq!(u.get("S", "A"), Some("1"));
    assert_eq!(u.get("S", "B"), Some("2 3"));
}

#[test]
fn plain_commands_stay_unchanged() {
    let mut w = Vec::new();
    assert_eq!(replace_specifiers("/bin/x --flag 50", "svc", &mut w), "/bin/x --flag 50");
    assert!(w.is_empty());
    assert_eq!(convert_env_refs(String::from("/bin/x  --a   b")), "/bin/x  --a   b");
}

#[test]
fn unknown_specifiers_warned_once_each() {
    let mut w = Vec::new();
    replace_specifiers("/bin/x %q %z %q", "svc", &mut w);
    let msgs: Vec<String> = w.iter().map(|x| x.message.clone()).collect();
    assert_eq!(
        msgs,
        vec!["unknown specifier %q removed".to_string(), "unknown specifier %z removed".to_string()]
    );
}

#[test]
fn dependency_words_resolve_as_written() {
    let u = parse("[Unit]\nRequires=  a.service   network.target  x.socket \n[Service]\nExecStart=/bin/a\n").unwrap();
    let r = convert(&u, &Config::default()).unwrap();
    assert_eq!(
        r.main_service.depends_on,
        vec!["a".to_string(), "network".to_string(), "x".to_string()]
    );
}

fn type_warnings_for(service: &str) -> usize {
    let u = parse(&format!("[Service]\nExecStart=/bin/a\n{}", service)).unwrap();
    let r = convert(&u, &Config::default()).unwrap();
    r.warnings.iter().filter(|w| w.directive == "Type").count()
}

#[test]
fn one_type_warning_for_unmapped_types() {
    assert_eq!(type_warnings_for(""), 0);
    assert_eq!(type_warnings_for("Type=simple\n"), 0);
    assert_eq!(type_warnings_for("Type=oneshot\n"), 0);
    assert_eq!(type_warnings_for("Type=forking\nPIDFile=/run/a.pid\n"), 0);
    assert_eq!(type_warnings_for("Type=forking\n"), 1);
    assert_eq!(type_warnings_for("Type=dbus\nPrivateTmp=yes\nRestart=on-success\n"), 1);
    assert_eq!(type_warnings_for("Type=notify\n"), 1);
    assert_eq!(type_warnings_for("Type=idle\n"), 1);
}

#[test]
fn parse_warnings_counted_per_line() {
    let u = parse("stray\n# c\n[S]\nnoeq\nA=1\n\n; c\nalso bad\n").unwrap();
    assert_eq!(
        u.parse_warnings,
        vec![
            "line 1: directive outside of section: stray".to_string(),
            "line 4: not a valid key=value pair: noeq".to_string(),
            "line 8: not a valid key=value pair: also bad".to_string(),
        ]
    );
}

#[test]
fn joined_lines_counted_and_words_kept() {
    let u = parse("[S]\nA=a \\\n   b  \\\n c\nbad\nB=x \\").unwrap();
    let a = u.get("S", "A").unwrap();
    assert_eq!(a, "a    b c");
    assert_eq!(a.split_whitespace().collect::<Vec<_>>(), vec!["a", "b", "c"]);
    assert_eq!(u.get("S", "B"), Some("x"));
    assert_eq!(u.parse_warnings, vec!["line 3: not a valid key=value pair: bad".to_string()]);
}
