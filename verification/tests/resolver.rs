use portkube::network::command::{Command, Platform};
use portkube::network::resolver::{
    add_proxy, install, managed_list, managed_namespaces, needs_backup, remove_proxy,
    resolver_content, restore_or_strip, uninstall, Cleanup, Step, StepAction, DNS_PROXY_IP,
    MANAGED_LIST,
};
use std::collections::BTreeMap;

#[test]
fn test_resolver_content_contains_nameserver() {
    let content = resolver_content();
    assert!(content.contains("nameserver 127.0.0.53"));
}

#[test]
fn test_resolver_content_contains_port() {
    let content = resolver_content();
    assert!(content.contains("port 53"));
}

#[test]
fn test_resolver_content_contains_timeout() {
    let content = resolver_content();
    assert!(content.contains("timeout 2"));
}

#[test]
fn test_resolver_content_has_portkube_marker() {
    let content = resolver_content();
    assert!(content.contains("portkube"));
}

#[test]
fn test_resolver_content_ends_with_newline() {
    let content = resolver_content();
    assert!(content.ends_with('\n'));
}

#[test]
fn test_resolver_constants() {
    assert_eq!(DNS_PROXY_IP, "127.0.0.53");
    assert_eq!(MANAGED_LIST, "/tmp/portkube-managed-resolvers");
}

#[test]
fn test_install_creates_resolver_files() {
    let content = resolver_content();
    let ns = "testns";
    let steps = install(Platform::MacOs, &vec![ns.to_string()]);
    let mut written = None;
    for step in steps {
        if let StepAction::Write { path, content } = step.action {
            if path == "/etc/resolver/testns" {
                written = Some(content);
            }
        }
    }
    let written = written.unwrap();
    assert_eq!(written, content);
    assert!(written.contains("nameserver 127.0.0.53"));
}

#[test]
fn test_managed_list_format() {
    let namespaces = vec!["default".to_string(), "monitoring".to_string()];
    let content = managed_list(&namespaces);
    assert_eq!(content, "default\nmonitoring");
    let parsed = managed_namespaces(&content);
    assert_eq!(parsed, vec!["default", "monitoring"]);
}

// ── Contents ────────────────────────────────────────────

#[test]
fn resolver_file_is_exact() {
    assert_eq!(
        resolver_content(),
        "# portkube — do not edit\nnameserver 127.0.0.53\nport 53\ntimeout 2\n"
    );
}

#[test]
fn proxy_goes_in_front() {
    assert_eq!(
        add_proxy("search lan\nnameserver 1.1.1.1\n"),
        "# portkube — do not edit this line\nnameserver 127.0.0.53\nsearch lan\nnameserver 1.1.1.1\n"
    );
    assert_eq!(
        add_proxy(""),
        "# portkube — do not edit this line\nnameserver 127.0.0.53\n"
    );
}

#[test]
fn adding_the_proxy_twice_is_adding_it_once() {
    let once = add_proxy("search lan\r\nnameserver 1.1.1.1");
    assert_eq!(add_proxy(&once), once);
}

#[test]
fn removing_the_proxy_gives_the_file_back() {
    let before = "search lan\n\nnameserver 1.1.1.1\n";
    assert_eq!(remove_proxy(&add_proxy(before)), before);
    assert_eq!(remove_proxy(before), before);
    assert_eq!(remove_proxy(""), "\n");
}

#[test]
fn doubled_carriage_return_is_not_kept() {
    let once = add_proxy("a\r\r\n");
    assert_eq!(once, "# portkube — do not edit this line\nnameserver 127.0.0.53\na\r\n");
    assert_eq!(add_proxy(&once), "# portkube — do not edit this line\nnameserver 127.0.0.53\na\n");
}

#[test]
fn managed_list_is_read_back_without_blank_lines() {
    assert_eq!(managed_namespaces("a\n\n  \nb\r\nc"), vec!["a", "b", "c"]);
    assert!(managed_namespaces("").is_empty());
    assert!(managed_namespaces(&managed_list(&vec![])).is_empty());
}

// ── Steps ───────────────────────────────────────────────

fn told(step: &Step) -> String {
    let action = match &step.action {
        StepAction::Run { command } => format!("run {}", command.line()),
        StepAction::CreateDir { path } => format!("dir {}", path),
        StepAction::MoveAside { path, backup } => format!("move {} {}", path, backup),
        StepAction::CopyAside { path, backup } => format!("copy {} {}", path, backup),
        StepAction::Write { path, content } => format!("write {} {:?}", path, content),
        StepAction::AddProxy { path } => format!("proxy {}", path),
        StepAction::Remove { path } => format!("remove {}", path),
        StepAction::Restore { path, backup } => format!("restore {} {}", path, backup),
        StepAction::RestoreOrStrip { path, backup } => format!("strip {} {}", path, backup),
    };
    match &step.failure {
        Some(failure) => format!("{} or {}", action, failure),
        None => action,
    }
}

fn all_told(steps: &Vec<Step>) -> Vec<String> {
    steps.iter().map(told).collect()
}

fn namespaces() -> Vec<String> {
    vec!["default".to_string(), "prod".to_string()]
}

#[test]
fn macos_installs_a_file_per_namespace() {
    let file = "\"# portkube — do not edit\\nnameserver 127.0.0.53\\nport 53\\ntimeout 2\\n\"";
    assert_eq!(
        all_told(&install(Platform::MacOs, &namespaces())),
        vec![
            "run ifconfig lo0 alias 127.0.0.53 or create loopback alias 127.0.0.53".to_string(),
            "dir /etc/resolver or create /etc/resolver".to_string(),
            "move /etc/resolver/default /etc/resolver/default.portkube-backup".to_string(),
            format!("write /etc/resolver/default {} or write /etc/resolver/default", file),
            "move /etc/resolver/prod /etc/resolver/prod.portkube-backup".to_string(),
            format!("write /etc/resolver/prod {} or write /etc/resolver/prod", file),
            "write /tmp/portkube-managed-resolvers \"default\\nprod\" or save managed list".to_string(),
        ]
    );
}

#[test]
fn linux_installs_into_one_file() {
    assert_eq!(
        all_told(&install(Platform::Linux, &namespaces())),
        vec![
            "run ip addr add 127.0.0.53/32 dev lo or create loopback alias 127.0.0.53",
            "copy /etc/resolv.conf /etc/resolv.conf.portkube-backup",
            "proxy /etc/resolv.conf or write /etc/resolv.conf",
            "write /tmp/portkube-managed-resolvers \"default\\nprod\" or save managed list",
        ]
    );
}

#[test]
fn windows_installs_through_netsh() {
    assert_eq!(
        all_told(&install(Platform::Windows, &vec![])),
        vec![
            "run netsh interface ip add dns Loopback Pseudo-Interface 1 127.0.0.53 index=1 or configure DNS via netsh",
            "write /tmp/portkube-managed-resolvers \"\" or save managed list",
        ]
    );
}

#[test]
fn uninstall_takes_back_what_install_did() {
    let list = managed_list(&namespaces());
    assert_eq!(
        all_told(&uninstall(Platform::MacOs, &list)),
        vec![
            "remove /etc/resolver/default",
            "restore /etc/resolver/default /etc/resolver/default.portkube-backup",
            "remove /etc/resolver/prod",
            "restore /etc/resolver/prod /etc/resolver/prod.portkube-backup",
            "run ifconfig lo0 -alias 127.0.0.53",
            "remove /tmp/portkube-managed-resolvers",
        ]
    );
    assert_eq!(
        all_told(&uninstall(Platform::Linux, &list)),
        vec![
            "strip /etc/resolv.conf /etc/resolv.conf.portkube-backup",
            "run ip addr del 127.0.0.53/32 dev lo",
            "remove /tmp/portkube-managed-resolvers",
        ]
    );
    assert_eq!(
        all_told(&uninstall(Platform::Windows, &list)),
        vec![
            "run netsh interface ip delete dns Loopback Pseudo-Interface 1 127.0.0.53",
            "remove /tmp/portkube-managed-resolvers",
        ]
    );
}

#[test]
fn backup_is_made_once() {
    assert!(needs_backup(true, false));
    assert!(!needs_backup(true, true));
    assert!(!needs_backup(false, false));
    assert!(!needs_backup(false, true));
}

#[test]
fn backup_comes_back_first() {
    assert!(matches!(restore_or_strip(true, Some("x".to_string())), Cleanup::Rename));
    match restore_or_strip(false, Some(add_proxy("search lan\n"))) {
        Cleanup::Write { content } => assert_eq!(content, "search lan\n"),
        other => panic!("{:?}", other),
    }
    assert!(matches!(restore_or_strip(false, None), Cleanup::Leave));
}

#[test]
fn command_without_arguments() {
    assert_eq!(Command::new("true").line(), "true ");
}

// ── The steps on a set of files ─────────────────────────

fn perform(files: &mut BTreeMap<String, String>, steps: Vec<Step>) {
    for step in steps {
        match step.action {
            StepAction::Run { .. } | StepAction::CreateDir { .. } => {}
            StepAction::MoveAside { path, backup } => {
                if needs_backup(files.contains_key(&path), files.contains_key(&backup)) {
                    let text = files.remove(&path).unwrap();
                    files.insert(backup, text);
                }
            }
            StepAction::CopyAside { path, backup } => {
                if needs_backup(files.contains_key(&path), files.contains_key(&backup)) {
                    files.insert(backup, files[&path].clone());
                }
            }
            StepAction::Write { path, content } => {
                files.insert(path, content);
            }
            StepAction::AddProxy { path } => {
                let existing = files.get(&path).cloned().unwrap_or_default();
                files.insert(path, add_proxy(&existing));
            }
            StepAction::Remove { path } => {
                files.remove(&path);
            }
            StepAction::Restore { path, backup } => {
                if let Some(text) = files.remove(&backup) {
                    files.insert(path, text);
                }
            }
            StepAction::RestoreOrStrip { path, backup } => {
                let content = files.get(&path).cloned();
                match restore_or_strip(files.contains_key(&backup), content) {
                    Cleanup::Rename => {
                        let text = files.remove(&backup).unwrap();
                        files.insert(path, text);
                    }
                    Cleanup::Write { content } => {
                        files.insert(path, content);
                    }
                    Cleanup::Leave => {}
                }
            }
        }
    }
}

fn there_and_back(platform: Platform, before: &BTreeMap<String, String>) -> BTreeMap<String, String> {
    let mut files = before.clone();
    perform(&mut files, install(platform, &namespaces()));
    let list = files[MANAGED_LIST].clone();
    perform(&mut files, uninstall(platform, &list));
    files
}

fn files(entries: &[(&str, &str)]) -> BTreeMap<String, String> {
    entries.iter().map(|(path, text)| (path.to_string(), text.to_string())).collect()
}

#[test]
fn linux_configuration_comes_back_from_its_backup() {
    let before = files(&[
        ("/etc/resolv.conf", "nameserver 127.0.0.53\n# portkube was here\r\r\nsearch lan"),
        ("/etc/hosts", "127.0.0.1 localhost\n"),
    ]);
    assert_eq!(there_and_back(Platform::Linux, &before), before);
}

#[test]
fn linux_without_a_configuration_is_left_with_an_empty_one() {
    assert_eq!(
        there_and_back(Platform::Linux, &files(&[])),
        files(&[("/etc/resolv.conf", "\n")])
    );
}

#[test]
fn macos_resolver_files_come_back() {
    let before = files(&[("/etc/resolver/prod", "nameserver 9.9.9.9\n"), ("/etc/hosts", "x")]);
    assert_eq!(there_and_back(Platform::MacOs, &before), before);
}

#[test]
fn windows_keeps_no_managed_list() {
    let before = files(&[("C:\\hosts", "x")]);
    assert_eq!(there_and_back(Platform::Windows, &before), before);
}
