use sd2dinit::config::Config;
use sd2dinit::converter::convert;
use sd2dinit::dropins::drop_in_order;
use sd2dinit::output::{exit_status, output_files, OutputKind};
use sd2dinit::parser::SystemdUnit;

fn unit(input: &str) -> SystemdUnit {
    SystemdUnit::parse(input, String::from("/usr/lib/systemd/system/web.service")).unwrap()
}

fn names(v: &[&str]) -> Vec<String> {
    v.iter().map(|s| s.to_string()).collect()
}

#[test]
fn plain_service_gives_one_file() {
    let r = convert(&unit("[Service]\nExecStart=/usr/bin/web\n"), &Config::default()).unwrap();
    let files = output_files(&r, None, None, None);
    assert_eq!(files.len(), 1);
    assert_eq!(files[0].name, "web");
    assert_eq!(files[0].kind, OutputKind::Service);
    assert_eq!(
        files[0].content,
        "# Generated by sd2dinit from /usr/lib/systemd/system/web.service\ntype = process\ncommand = /usr/bin/web\n"
    );
    assert_eq!(exit_status(&r), 0);
}

#[test]
fn every_artifact_in_order() {
    let r = convert(
        &unit(
            "[Service]\nExecStartPre=/bin/a\nExecStartPre=/bin/b\nExecStart=/usr/bin/web\n\
             ExecStartPost=/bin/c\nExecStartPost=/bin/d\nExecStop=/bin/stop\nExecStopPost=/bin/clean\n\
             Environment=A=1\nRestartSec=5\n",
        ),
        &Config::default(),
    )
    .unwrap();
    let files = output_files(&r, Some("5"), None, None);
    let got: Vec<(String, OutputKind)> = files.iter().map(|f| (f.name.clone(), f.kind)).collect();
    assert_eq!(
        got,
        vec![
            ("web".to_string(), OutputKind::Service),
            ("web-pre".to_string(), OutputKind::Service),
            ("web-post".to_string(), OutputKind::Service),
            ("web-pre.sh".to_string(), OutputKind::Script),
            ("web-post.sh".to_string(), OutputKind::Script),
            ("web-stop.sh".to_string(), OutputKind::Script),
            ("web.env".to_string(), OutputKind::EnvFile),
        ]
    );
    assert!(files[0].content.contains("restart-delay = 5\n"));
    assert!(!files[1].content.contains("restart-delay"));
    assert_eq!(files[6].content, "A=1\n");
    assert_eq!(files[3].content, r.pre_script.clone().unwrap());
}

#[test]
fn warnings_give_exit_status_one() {
    let r = convert(
        &unit("[Service]\nExecStart=/usr/bin/web\nPrivateTmp=yes\n"),
        &Config::default(),
    )
    .unwrap();
    assert!(!r.warnings.is_empty());
    assert_eq!(exit_status(&r), 1);
}

#[test]
fn drop_ins_sorted_by_name_and_filtered() {
    let ns = names(&["20-b.conf", "README", "10-a.conf", "x.conf.bak", "05.conf", "Z.conf"]);
    assert_eq!(drop_in_order(&ns), vec![4, 2, 0, 5]);
}

#[test]
fn drop_in_order_is_by_code_point() {
    let ns = names(&["b.conf", "a.conf", "ab.conf", "A.conf", "é.conf", "a.conf"]);
    assert_eq!(drop_in_order(&ns), vec![3, 1, 5, 2, 0, 4]);
}

#[test]
fn drop_in_order_of_nothing() {
    assert_eq!(drop_in_order(&Vec::new()), Vec::<usize>::new());
    assert_eq!(drop_in_order(&names(&[".conf", "conf", "a.CONF"])), Vec::<usize>::new());
}
