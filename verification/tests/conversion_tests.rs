use sd2dinit::config::Config;
use sd2dinit::converter::{
    build_script_command, convert, convert_env_refs, convert_restart, parse_dash_prefix,
    replace_specifiers, service_name_of,
};
use sd2dinit::error::ConvertError;
use sd2dinit::model::{DinitType, RestartPolicy, Severity, Warning};
use sd2dinit::parser::SystemdUnit;

fn unit_at(path: &str, input: &str) -> SystemdUnit {
    SystemdUnit::parse(input, String::from(path)).unwrap()
}

fn unit(input: &str) -> SystemdUnit {
    unit_at("/usr/lib/systemd/system/web.service", input)
}

fn messages(ws: &[Warning]) -> Vec<String> {
    ws.iter().map(|w| w.message.clone()).collect()
}

#[test]
fn missing_exec_start_names_the_unit() {
    let u = unit("[Service]\nType=simple\n");
    match convert(&u, &Config::default()) {
        Err(ConvertError::NoExecStart { unit }) => assert_eq!(unit, "web"),
        _ => panic!("expected NoExecStart"),
    }
}

#[test]
fn unknown_type_warns_and_falls_back() {
    let u = unit("[Service]\nType=idle\nExecStart=/bin/x\n");
    let r = convert(&u, &Config::default()).unwrap();
    assert_eq!(r.main_service.service_type, DinitType::Process);
    assert_eq!(messages(&r.warnings), vec!["unknown type 'idle' — falling back to process".to_string()]);
}

#[test]
fn service_names_from_paths() {
    assert_eq!(service_name_of("/usr/lib/systemd/system/sshd.service"), "sshd");
    assert_eq!(service_name_of("a/b.c.service"), "b.c");
    assert_eq!(service_name_of("noext"), "noext");
    assert_eq!(service_name_of(".hidden"), ".hidden");
    assert_eq!(service_name_of("dir/x.service/"), "x");
    assert_eq!(service_name_of("dir/x.service/."), "x");
    assert_eq!(service_name_of("/"), "unknown");
    assert_eq!(service_name_of("a/.."), "unknown");
    assert_eq!(service_name_of(""), "unknown");
}

#[test]
fn restart_values() {
    let mut w = Vec::new();
    assert_eq!(convert_restart(None, &mut w), (RestartPolicy::Never, false));
    assert_eq!(convert_restart(Some("on-watchdog"), &mut w), (RestartPolicy::OnFailure, true));
    assert_eq!(convert_restart(Some("on-abort"), &mut w), (RestartPolicy::OnFailure, true));
    assert!(w.is_empty());
    assert_eq!(convert_restart(Some("sometimes"), &mut w), (RestartPolicy::Never, false));
    assert_eq!(messages(&w), vec!["unknown restart value 'sometimes' — defaulting to no restart".to_string()]);
}

#[test]
fn specifiers_are_replaced_or_removed_once() {
    let mut w = Vec::new();
    let out = replace_specifiers("/bin/x --name %n --short %N %i %i %% %1", "web", &mut w);
    assert_eq!(out, "/bin/x --name web.service --short web   %% %1");
    assert_eq!(messages(&w), vec!["unknown specifier %i removed".to_string()]);
    assert_eq!(w[0].directive, "ExecStart");
    assert_eq!(w[0].severity, Severity::Warn);
}

#[test]
fn specifier_followed_by_non_ascii_letter_is_removed() {
    let mut w = Vec::new();
    let out = replace_specifiers("a%éb", "web", &mut w);
    assert_eq!(out, "ab");
    assert_eq!(w.len(), 1);
}

#[test]
fn env_refs_rewritten_only_when_standalone() {
    assert_eq!(convert_env_refs("/bin/d $ARGS".to_string()), "/bin/d $/ARGS");
    assert_eq!(convert_env_refs("/bin/d ${ARGS}".to_string()), "/bin/d $/ARGS");
    assert_eq!(convert_env_refs("/bin/d --p=$DIR/x".to_string()), "/bin/d --p=$DIR/x");
    assert_eq!(convert_env_refs("/bin/d   -x".to_string()), "/bin/d   -x");
    assert_eq!(convert_env_refs("/bin/d  $A\t-x".to_string()), "/bin/d $/A -x");
    assert_eq!(convert_env_refs("$ ${} $/X".to_string()), "$ ${} $/X");
}

#[test]
fn env_refs_idempotent_on_examples() {
    for c in ["/bin/d $A ${B} x$C", "no vars", "  $A  "] {
        let once = convert_env_refs(c.to_string());
        assert_eq!(convert_env_refs(once.clone()), once);
    }
}

#[test]
fn dash_prefix() {
    assert_eq!(parse_dash_prefix("  - /bin/x "), (true, "/bin/x".to_string()));
    assert_eq!(parse_dash_prefix("/bin/x"), (false, "/bin/x".to_string()));
}

#[test]
fn script_command_uses_output_dir() {
    let mut c = Config::default();
    c.output_dir = "/srv/dinit".to_string();
    assert_eq!(build_script_command(&c, "web", "pre"), "/bin/sh /srv/dinit/web-pre.sh");
}

#[test]
fn full_conversion_of_a_realistic_unit() {
    let u = unit(
        "[Unit]\n\
         Description=Web\n\
         Requires=db.service cache.mount\n\
         Wants=network-online.target\n\
         After=network.target db.service\n\
         Before=multi-user.target\n\
         ConditionPathExists=/etc/web\n\
         ConditionPathExists=/etc/web2\n\
         \n\
         [Service]\n\
         Type=forking\n\
         PIDFile=/run/web.pid\n\
         ExecStartPre=/bin/check\n\
         ExecStartPre=-/bin/maybe\n\
         ExecStart=/usr/bin/web -c $CONF\n\
         ExecStartPost=/bin/ready\n\
         ExecStop=/bin/stop\n\
         ExecStopPost=-/bin/cleanup\n\
         Environment=\"A=1\"\n\
         Environment='B=two words'\n\
         EnvironmentFile=-/etc/default/web\n\
         User=web\n\
         Restart=on-failure\n\
         RestartSec=2.5s\n\
         PrivateTmp=yes\n\
         PrivateTmp=no\n\
         MemoryMax=1G\n\
         \n\
         [Install]\n\
         RequiredBy=multi-user.target\n",
    );
    let r = convert(&u, &Config::default()).unwrap();
    let m = &r.main_service;
    assert_eq!(m.name, "web");
    assert_eq!(m.service_type, DinitType::BgProcess);
    assert_eq!(m.command.as_deref(), Some("/usr/bin/web -c $/CONF"));
    assert_eq!(m.stop_command.as_deref(), Some("/bin/sh /etc/dinit.d/web-stop.sh"));
    assert_eq!(r.stop_script.as_deref(), Some("#!/bin/sh\nset -e\n/bin/stop\n/bin/cleanup || true\n"));
    assert_eq!(m.depends_on, vec!["db".to_string(), "cache".to_string(), "web-pre".to_string()]);
    assert_eq!(m.depends_ms, vec!["network".to_string()]);
    assert_eq!(m.waits_for, vec!["network".to_string(), "db".to_string()]);
    assert_eq!(m.env_files, vec!["/etc/dinit.d/web.env".to_string(), "/etc/default/web".to_string()]);
    assert_eq!(r.env_file_content.as_deref(), Some("A=1\nB=two words\n"));
    assert_eq!(m.user.as_deref(), Some("web"));
    assert_eq!(m.restart, RestartPolicy::OnFailure);
    assert!(m.smooth_recovery);
    assert_eq!(m.restart_delay.as_deref(), Some("2.5"));
    let pre = r.pre_service.as_ref().unwrap();
    assert_eq!(pre.command.as_deref(), Some("/bin/sh /etc/dinit.d/web-pre.sh"));
    assert_eq!(pre.user.as_deref(), Some("web"));
    assert_eq!(r.pre_script.as_deref(), Some("#!/bin/sh\nset -e\n/bin/check\n/bin/maybe || true\n"));
    let post = r.post_service.as_ref().unwrap();
    assert_eq!(post.command.as_deref(), Some("/bin/ready"));
    assert_eq!(post.waits_for, vec!["web".to_string()]);
    assert!(r.post_script.is_none());
    assert!(r.should_enable);
    assert!(r.env_wrapper_script.is_none());
    assert_eq!(
        messages(&r.warnings),
        vec![
            "Before= skipped (no direct dinit equivalent)".to_string(),
            "PrivateTmp (sandboxing) not supported — skipped".to_string(),
            "MemoryMax (cgroup) not supported — skipped".to_string(),
            "ConditionPathExists (conditional) not supported — skipped".to_string(),
        ]
    );
    assert_eq!(r.warnings[1].severity, Severity::Info);
    assert_eq!(r.warnings[3].severity, Severity::Warn);
}

#[test]
fn socket_and_parse_warnings_come_last() {
    let u = unit("stray\n[Service]\nExecStart=/bin/x\n[Socket]\nListenStream=80\n");
    let r = convert(&u, &Config::default()).unwrap();
    assert_eq!(r.warnings.len(), 2);
    assert_eq!(r.warnings[0].directive, "ListenStream");
    assert_eq!(r.warnings[0].severity, Severity::Warn);
    assert_eq!(r.warnings[1].directive, "parse");
    assert_eq!(r.warnings[1].message, "line 1: directive outside of section: stray");
}

#[test]
fn restart_sec_that_is_not_a_number_is_dropped() {
    let u = unit("[Service]\nExecStart=/bin/x\nRestartSec=500ms\n");
    let r = convert(&u, &Config::default()).unwrap();
    assert!(r.main_service.restart_delay.is_none());
    let u = unit("[Service]\nExecStart=/bin/x\nRestartSec=1e1s\n");
    let r = convert(&u, &Config::default()).unwrap();
    assert_eq!(r.main_service.restart_delay.as_deref(), Some("1e1"));
}

#[test]
fn env_file_path_joins_output_dir() {
    let mut c = Config::default();
    c.output_dir = "/out/".to_string();
    let u = unit("[Service]\nExecStart=/bin/x\nEnvironment=A=1\n");
    let r = convert(&u, &c).unwrap();
    assert_eq!(r.main_service.env_files, vec!["/out/web.env".to_string()]);
    c.output_dir = String::new();
    let r = convert(&u, &c).unwrap();
    assert_eq!(r.main_service.env_files, vec!["web.env".to_string()]);
}

#[test]
fn conflicts_and_stop_post_warnings() {
    let u = unit("[Unit]\nConflicts=a.service\n[Service]\nExecStart=/bin/x\nExecStopPost=/bin/y\n");
    let r = convert(&u, &Config::default()).unwrap();
    let d: Vec<String> = r.warnings.iter().map(|w| w.directive.clone()).collect();
    assert_eq!(d, vec!["Conflicts".to_string(), "ExecStopPost".to_string()]);
}

#[test]
fn single_pre_command_with_dash_runs_script() {
    let u = unit("[Service]\nExecStart=/bin/x\nExecStartPre=-/bin/p\n");
    let r = convert(&u, &Config::default()).unwrap();
    assert_eq!(r.pre_script.as_deref(), Some("#!/bin/sh\nset -e\n/bin/p || true\n"));
    assert_eq!(r.pre_service.unwrap().command.as_deref(), Some("/bin/sh /etc/dinit.d/web-pre.sh"));
}

#[test]
fn user_units_go_to_the_user_output_dir() {
    let mut c = Config::default();
    c.output_dir = String::from("/srv/sys");
    c.user_output_dir = String::from("/srv/user");
    let input = "[Service]\nExecStartPre=/bin/a\nExecStartPre=/bin/b\nExecStart=/bin/x\nEnvironment=A=1\n";
    let u = unit_at("/usr/lib/systemd/user/tray.service", input);
    let r = convert(&u, &c).unwrap();
    assert_eq!(r.main_service.env_files, vec!["/srv/user/tray.env".to_string()]);
    assert_eq!(r.pre_service.unwrap().command, Some("/bin/sh /srv/user/tray-pre.sh".to_string()));
    assert_eq!(c.output_dir_for("/usr/lib/systemd/user/tray.service"), "/srv/user");
    assert_eq!(c.output_dir_for("usr/lib/systemd/user/tray.service"), "/srv/user");

    let s = unit_at("/usr/lib/systemd/system/tray.service", input);
    let r = convert(&s, &c).unwrap();
    assert_eq!(r.main_service.env_files, vec!["/srv/sys/tray.env".to_string()]);
    assert_eq!(r.pre_service.unwrap().command, Some("/bin/sh /srv/sys/tray-pre.sh".to_string()));
    assert_eq!(c.output_dir_for("/home/me/usr/lib/systemd/user/x.service"), "/srv/sys");
}
