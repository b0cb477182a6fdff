use sd2dinit::config::{config_file_path, Config, DependencyMap};
use sd2dinit::generator::generate;
use sd2dinit::model::{DinitService, DinitType, RestartPolicy};
use sd2dinit::units::{check_unit_file, hook_action, HookAction, UnitFileCheck};

fn minimal_service() -> DinitService {
    DinitService {
        name: "test".into(),
        source_path: "/usr/lib/systemd/system/test.service".into(),
        service_type: DinitType::Process,
        command: Some("/usr/bin/test-daemon".into()),
        stop_command: None,
        user: None,
        group: None,
        working_dir: None,
        env_files: Vec::new(),
        pid_file: None,
        restart: RestartPolicy::Never,
        smooth_recovery: false,
        restart_delay: None,
        depends_on: Vec::new(),
        depends_ms: Vec::new(),
        waits_for: Vec::new(),
        logfile: None,
    }
}

#[test]
fn default_config_values() {
    let c = Config::default();
    assert_eq!(c.output_dir, "/etc/dinit.d");
    assert_eq!(c.user_output_dir, "/usr/share/dinit.d");
    assert!(c.ignored_units.is_empty());
    assert_eq!(c.dependency_map.get("network-online.target").map(|s| s.as_str()), Some("network"));
    assert_eq!(c.dependency_map.get("default.target").map(|s| s.as_str()), Some("boot"));
    assert_eq!(c.dependency_map.get("dbus.service"), None);
}

#[test]
fn user_mappings_take_precedence_over_builtins() {
    let mut c = Config::default();
    c.dependency_map = DependencyMap::new();
    c.dependency_map.insert("network.target".into(), "net".into());
    c.dependency_map.insert("dbus.service".into(), "dbus".into());
    c.merge_builtin_defaults();
    assert_eq!(c.dependency_map.get("network.target").map(|s| s.as_str()), Some("net"));
    assert_eq!(c.dependency_map.get("dbus.service").map(|s| s.as_str()), Some("dbus"));
    assert_eq!(c.dependency_map.get("sysinit.target").map(|s| s.as_str()), Some("boot"));
    assert_eq!(c.dependency_map.to_pairs().len(), 6);
}

#[test]
fn dependency_map_insert_replaces() {
    let mut m = DependencyMap::new();
    assert_eq!(m.insert("a".into(), "1".into()), None);
    assert_eq!(m.insert("a".into(), "2".into()), Some("1".to_string()));
    assert_eq!(m.get("a").map(|s| s.as_str()), Some("2"));
    assert!(m.contains_key("a"));
    assert!(!m.contains_key("b"));
}

#[test]
fn test_generate_minimal_service() {
    let output = generate(&minimal_service(), None);
    assert!(output.starts_with("# Generated by sd2dinit from /usr/lib/systemd/system/test.service\n"));
    assert!(output.contains("type = process\n"));
    assert!(output.contains("command = /usr/bin/test-daemon\n"));
    for key in ["stop-command", "run-as", "working-dir", "env-file", "pid-file", "restart-delay", "logfile", "restart", "smooth-recovery"] {
        assert!(!output.contains(key));
    }
}

#[test]
fn test_generate_run_as_forms() {
    let mut svc = minimal_service();
    svc.user = Some("www-data".into());
    svc.group = Some("www-data".into());
    assert!(generate(&svc, None).contains("run-as = www-data:www-data\n"));
    svc.group = None;
    assert!(generate(&svc, None).contains("run-as = www-data\n"));
    svc.user = None;
    svc.group = Some("daemon".into());
    assert!(generate(&svc, None).contains("run-as = :daemon\n"));
}

#[test]
fn test_generate_full_service() {
    let svc = DinitService {
        name: "sshd".into(),
        source_path: "/usr/lib/systemd/system/sshd.service".into(),
        service_type: DinitType::Process,
        command: Some("/usr/bin/sshd -D".into()),
        stop_command: Some("/bin/kill -QUIT $PID".into()),
        user: Some("root".into()),
        group: None,
        working_dir: Some("/var/run/sshd".into()),
        env_files: vec!["/etc/dinit.d/sshd.env".into()],
        pid_file: None,
        restart: RestartPolicy::OnFailure,
        smooth_recovery: true,
        restart_delay: Some("2.5".into()),
        depends_on: vec!["network".into()],
        depends_ms: Vec::new(),
        waits_for: vec!["sshd-pre".into()],
        logfile: Some("/var/log/sshd.log".into()),
    };
    let output = generate(&svc, Some("2.5"));
    let expected = "\
# Generated by sd2dinit from /usr/lib/systemd/system/sshd.service
type = process
command = /usr/bin/sshd -D
stop-command = /bin/kill -QUIT $PID
run-as = root
working-dir = /var/run/sshd
logfile = /var/log/sshd.log
env-file = /etc/dinit.d/sshd.env
restart = on-failure
smooth-recovery = true
restart-delay = 2.5
depends-on = network
waits-for = sshd-pre
";
    assert_eq!(output, expected);
}

#[test]
fn test_generate_bgprocess_and_dependencies() {
    let mut svc = minimal_service();
    svc.service_type = DinitType::BgProcess;
    svc.pid_file = Some("/run/nginx.pid".into());
    svc.restart = RestartPolicy::Always;
    svc.depends_on = vec!["network".into(), "sshd-pre".into()];
    svc.depends_ms = vec!["dbus".into()];
    svc.waits_for = vec!["local-fs".into()];
    let output = generate(&svc, Some("5"));
    assert!(output.contains("type = bgprocess\n"));
    assert!(output.contains("pid-file = /run/nginx.pid\n"));
    assert!(output.contains("restart = true\n"));
    assert!(output.contains("restart-delay = 5\n"));
    assert!(output.ends_with("depends-on = network\ndepends-on = sshd-pre\ndepends-ms = dbus\nwaits-for = local-fs\n"));
}

#[test]
fn unit_file_checks() {
    assert_eq!(check_unit_file("/usr/lib/systemd/system/sshd.service"), UnitFileCheck::Service);
    assert_eq!(check_unit_file("/x/getty@.service"), UnitFileCheck::Template);
    assert_eq!(check_unit_file("/x/getty@tty1.service"), UnitFileCheck::Template);
    assert_eq!(check_unit_file("/x/sshd.socket"), UnitFileCheck::WrongExtension("socket".to_string()));
    assert_eq!(check_unit_file("/x/README"), UnitFileCheck::NoExtension);
    assert_eq!(check_unit_file("/x/.service"), UnitFileCheck::NoExtension);
}

#[test]
fn hook_actions() {
    let mut c = Config::default();
    c.ignored_units = vec!["skip.service".to_string()];
    assert_eq!(hook_action("usr/lib/systemd/system/sshd.service\n", &c), HookAction::Convert("/usr/lib/systemd/system/sshd.service".to_string()));
    assert_eq!(hook_action("  /etc/systemd/system/a.service ", &c), HookAction::Convert("/etc/systemd/system/a.service".to_string()));
    assert_eq!(hook_action("usr/lib/systemd/system/sshd.socket", &c), HookAction::Pass);
    assert_eq!(hook_action("usr/lib/systemd/system/getty@.service", &c), HookAction::SkipTemplate);
    assert_eq!(hook_action("usr/lib/systemd/system/skip.service", &c), HookAction::SkipIgnored);
    assert_eq!(hook_action("", &c), HookAction::Pass);
}

#[test]
fn config_file_locations() {
    assert_eq!(config_file_path(Some("/x/cfg"), Some("/home/u")), "/x/cfg/sd2dinit/config.toml");
    assert_eq!(config_file_path(Some("/x/cfg/"), None), "/x/cfg/sd2dinit/config.toml");
    assert_eq!(config_file_path(None, Some("/home/u")), "/home/u/.config/sd2dinit/config.toml");
    assert_eq!(config_file_path(None, None), "/etc/sd2dinit/config.toml");
    assert_eq!(config_file_path(Some(""), Some("/home/u")), "sd2dinit/config.toml");
}
