use portkube::network::command::{Command, Platform};
use portkube::network::ipv4::Ipv4Addr;
use portkube::network::service_map::ServiceEntry;
use portkube::network::tun::{
    cleanup_aliases, cleanup_tun, configure_tun, create_utun, detect_service_cidr,
    parse_cidr_from_error, pick_pod, requested_interface, start_service_proxy, utun_control,
    ConfigureStep, Label, OpenFailure, OpenStep, OpenedTun, PodCondition, PodState, PodStatus,
    ProbeOutcome, ProxyEvent, ProxyStep, TunDevice,
};

// ── parse_cidr_from_error ───────────────────────────────

#[test]
fn test_parse_cidr_standard_message() {
    let msg = "Service \"portkube-cidr-probe\" is invalid: spec.clusterIPs: Invalid value: []string{\"1.1.1.1\"}: failed to allocate an IP. The range of valid IPs is CIDR 10.96.0.0/12";
    assert_eq!(parse_cidr_from_error(msg), Some("10.96.0.0/12".into()));
}

#[test]
fn test_parse_cidr_different_range() {
    let msg = "... valid IPs is CIDR 172.20.0.0/16 ...";
    assert_eq!(parse_cidr_from_error(msg), Some("172.20.0.0/16".into()));
}

#[test]
fn test_parse_cidr_no_cidr_keyword() {
    let msg = "some random error without cidr info";
    assert_eq!(parse_cidr_from_error(msg), None);
}

#[test]
fn test_parse_cidr_cidr_but_no_slash() {
    let msg = "CIDR 10.96.0.0";
    assert_eq!(parse_cidr_from_error(msg), None);
}

#[test]
fn test_parse_cidr_empty_message() {
    assert_eq!(parse_cidr_from_error(""), None);
}

#[test]
fn cidr_is_read_after_the_first_mark_only() {
    assert_eq!(parse_cidr_from_error("CIDR none, CIDR 10.0.0.0/8"), None);
    assert_eq!(parse_cidr_from_error("CIDR 10.0.0.0/8, CIDR 1.0.0.0/8"), Some("10.0.0.0/8".into()));
    assert_eq!(parse_cidr_from_error("CIDR "), None);
    assert_eq!(parse_cidr_from_error("CIDR /"), Some("/".into()));
    assert_eq!(parse_cidr_from_error("é CIDR 1/2é"), Some("1/2".into()));
}

#[test]
fn dots_behind_the_range_are_no_part_of_it() {
    let cidr = Some("10.96.0.0/12".to_string());
    assert_eq!(parse_cidr_from_error("...CIDR 10.96.0.0/12..."), cidr);
    assert_eq!(parse_cidr_from_error("The range of valid IPs is CIDR 10.96.0.0/12."), cidr);
    assert_eq!(parse_cidr_from_error("CIDR 10.96.0.0..."), None);
    assert_eq!(parse_cidr_from_error("CIDR ..."), None);
    let found = detect_service_cidr(&ProbeOutcome::Rejected {
        message: "valid IPs are in CIDR 172.20.0.0/16.".into(),
    });
    assert_eq!(found.cidr, "172.20.0.0/16");
}

// ── detect_service_cidr ─────────────────────────────────

#[test]
fn test_detect_cidr_from_api_error() {
    let found = detect_service_cidr(&ProbeOutcome::Rejected {
        message: "Service is invalid: ... The range of valid IPs is CIDR 10.96.0.0/12".into(),
    });
    assert_eq!(found.cidr, "10.96.0.0/12");
    assert!(!found.delete_probe);
}

#[test]
fn test_detect_cidr_fallback_when_no_cidr_in_error() {
    let found = detect_service_cidr(&ProbeOutcome::Rejected {
        message: "Something went wrong".into(),
    });
    assert_eq!(found.cidr, "10.96.0.0/12"); // fallback default
}

#[test]
fn test_detect_cidr_fallback_on_non_api_error() {
    let found = detect_service_cidr(&ProbeOutcome::Rejected {
        message: "{\"error\": \"internal server error\"}".into(),
    });
    assert_eq!(found.cidr, "10.96.0.0/12"); // fallback default
    let found = detect_service_cidr(&ProbeOutcome::Failed);
    assert_eq!(found.cidr, "10.96.0.0/12");
    assert!(!found.delete_probe);
}

#[test]
fn detected_cidr_is_the_one_of_the_cluster() {
    let found = detect_service_cidr(&ProbeOutcome::Rejected { message: "CIDR 172.20.0.0/16".into() });
    assert_eq!(found.cidr, "172.20.0.0/16");
}

#[test]
fn created_probe_is_deleted() {
    let found = detect_service_cidr(&ProbeOutcome::Created);
    assert_eq!(found.cidr, "10.96.0.0/12");
    assert!(found.delete_probe);
}

// ── Opening a device ────────────────────────────────────

fn opened(buffer: Vec<u8>, len: usize) -> Result<OpenedTun, OpenFailure> {
    Ok(OpenedTun { fd: 7, buffer, len })
}

#[test]
fn requested_interface_is_read_back() {
    let field = requested_interface();
    assert_eq!(field.len(), 16);
    assert_eq!(&field[..8], b"portkube");
    let tun = create_utun(Platform::Linux, opened(field, 16)).unwrap();
    assert_eq!(tun.name, "portkube");
    assert_eq!(tun.fd, 7);
    assert_eq!(tun.service_cidr, "");
}

#[test]
fn linux_name_ends_at_the_first_zero() {
    let tun = create_utun(Platform::Linux, opened(b"tun5\0junk".to_vec(), 9)).unwrap();
    assert_eq!(tun.name, "tun5");
    let tun = create_utun(Platform::Linux, opened(b"abcdefghijklmnop".to_vec(), 16)).unwrap();
    assert_eq!(tun.name, "abcdefghijklmnop");
    let tun = create_utun(Platform::Linux, opened(vec![0xff, 0xfe, 0], 3)).unwrap();
    assert_eq!(tun.name, "portkube0");
}

#[test]
fn utun_name_has_its_reported_length() {
    let tun = create_utun(Platform::MacOs, opened(b"utun4\0\0\0".to_vec(), 6)).unwrap();
    assert_eq!(tun.name, "utun4");
    let tun = create_utun(Platform::MacOs, opened(b"utun4\0x\0".to_vec(), 8)).unwrap();
    assert_eq!(tun.name, "utun4\0x");
    let tun = create_utun(Platform::MacOs, opened(vec![0xc0, 0x00], 2)).unwrap();
    assert_eq!(tun.name, "utun?");
}

#[test]
fn control_name_fills_its_field() {
    let field = utun_control();
    assert_eq!(field.len(), 96);
    assert_eq!(&field[..26], b"com.apple.net.utun_control");
    assert!(field[26..].iter().all(|b| *b == 0));
}

#[test]
fn every_failed_call_has_its_message() {
    let cases = [
        (Platform::MacOs, OpenStep::Socket, "socket(PF_SYSTEM) failed: denied — run with sudo"),
        (Platform::MacOs, OpenStep::ControlInfo, "ioctl(CTLIOCGINFO) failed: denied"),
        (Platform::MacOs, OpenStep::Connect, "connect(utun) failed: denied"),
        (Platform::MacOs, OpenStep::InterfaceName, "getsockopt(UTUN_OPT_IFNAME) failed: denied"),
        (
            Platform::Linux,
            OpenStep::OpenTun,
            "open /dev/net/tun — run with sudo or load tun kernel module",
        ),
        (Platform::Linux, OpenStep::SetInterface, "ioctl(TUNSETIFF) failed: denied"),
    ];
    for (platform, step, message) in cases {
        let failed = Err(OpenFailure { step, os_error: "denied".into() });
        assert_eq!(create_utun(platform, failed).unwrap_err(), message);
    }
}

#[test]
fn windows_has_no_device() {
    assert_eq!(
        create_utun(Platform::Windows, opened(vec![], 0)).unwrap_err(),
        "TUN devices are not yet supported on Windows — proxies will still work via loopback"
    );
}

// ── Configuring a device ────────────────────────────────

fn device() -> TunDevice {
    TunDevice { name: "tun0".into(), fd: 3, service_cidr: String::new() }
}

fn configure_all(platform: Platform) -> (TunDevice, Vec<String>) {
    let mut tun = device();
    let mut lines = vec![];
    loop {
        match configure_tun(&mut tun, platform, "10.96.0.0/12", lines.len(), Ok(())) {
            ConfigureStep::Run { command } => {
                assert_eq!(tun.service_cidr, "");
                lines.push(command.line());
            }
            ConfigureStep::Done => return (tun, lines),
            ConfigureStep::Failed { message } => panic!("{}", message),
        }
    }
}

#[test]
fn linux_route_is_set_up_and_cleaned_up() {
    let (tun, lines) = configure_all(Platform::Linux);
    assert_eq!(
        lines,
        vec![
            "ip addr add 198.18.0.1/32 peer 198.18.0.2 dev tun0",
            "ip link set tun0 up",
            "ip route add 10.96.0.0/12 via 198.18.0.2 dev tun0",
        ]
    );
    assert_eq!(tun.service_cidr, "10.96.0.0/12");
    assert_eq!(
        cleanup_tun(&tun, Platform::Linux).unwrap().line(),
        "ip route del 10.96.0.0/12 via 198.18.0.2"
    );
}

#[test]
fn macos_route_is_set_up_and_cleaned_up() {
    let (tun, lines) = configure_all(Platform::MacOs);
    assert_eq!(
        lines,
        vec![
            "ifconfig tun0 inet 198.18.0.1 198.18.0.2 up",
            "route add -net 10.96.0.0/12 198.18.0.2",
        ]
    );
    assert_eq!(tun.service_cidr, "10.96.0.0/12");
    assert_eq!(
        cleanup_tun(&tun, Platform::MacOs).unwrap().line(),
        "route delete -net 10.96.0.0/12 198.18.0.2"
    );
}

#[test]
fn failed_command_ends_configuration() {
    let mut tun = device();
    match configure_tun(&mut tun, Platform::Linux, "10.0.0.0/8", 1, Err("no such device".into())) {
        ConfigureStep::Failed { message } => assert_eq!(message, "no such device"),
        other => panic!("{:?}", other),
    }
    assert_eq!(tun.service_cidr, "");
    assert!(cleanup_tun(&tun, Platform::Linux).is_none());
}

#[test]
fn windows_cannot_route() {
    let mut tun = device();
    match configure_tun(&mut tun, Platform::Windows, "10.0.0.0/8", 0, Ok(())) {
        ConfigureStep::Failed { message } => {
            assert_eq!(message, "TUN configuration is not supported on Windows")
        }
        other => panic!("{:?}", other),
    }
    assert_eq!(tun.service_cidr, "10.0.0.0/8");
    assert!(cleanup_tun(&tun, Platform::Windows).is_none());
}

#[test]
fn aliases_are_removed_in_order() {
    let ips = vec![Ipv4Addr::new(10, 0, 0, 1), Ipv4Addr::new(10, 0, 0, 2)];
    let lines = |platform: Platform| -> Vec<String> {
        cleanup_aliases(platform, &ips).iter().map(|c| c.line()).collect()
    };
    assert_eq!(
        lines(Platform::Linux),
        vec!["ip addr del 10.0.0.1/32 dev lo", "ip addr del 10.0.0.2/32 dev lo"]
    );
    assert_eq!(
        lines(Platform::MacOs),
        vec!["ifconfig lo0 -alias 10.0.0.1", "ifconfig lo0 -alias 10.0.0.2"]
    );
    assert_eq!(
        lines(Platform::Windows)[0],
        "netsh interface ip delete address Loopback Pseudo-Interface 1 10.0.0.1"
    );
    assert!(cleanup_aliases(Platform::Linux, &vec![]).is_empty());
}

// ── Commands ────────────────────────────────────────────

#[test]
fn failed_commands_are_told_with_their_code() {
    let command = Command::new("ip").arg("link").arg("up");
    assert_eq!(
        command.failure_with_code(Some(2), " no such device\n"),
        "ip link up failed (exit Some(2)): no such device"
    );
    assert_eq!(command.failure_with_code(None, ""), "ip link up failed (exit None): ");
    assert_eq!(command.failure_with_code(Some(-7), "x"), "ip link up failed (exit Some(-7)): x");
    assert_eq!(command.failure("\tbad\r\n"), "ip link up failed: bad");
}

// ── Starting a proxy ────────────────────────────────────

fn entry() -> ServiceEntry {
    ServiceEntry {
        name: "api".into(),
        namespace: "prod".into(),
        port: 8080,
        cluster_ip: Ipv4Addr::new(10, 96, 0, 20),
    }
}

fn pod(name: Option<&str>, ready: &str) -> PodState {
    PodState {
        name: name.map(|n| n.into()),
        status: Some(PodStatus {
            conditions: Some(vec![
                PodCondition { kind: "Initialized".into(), status: "True".into() },
                PodCondition { kind: "Ready".into(), status: ready.into() },
            ]),
        }),
    }
}

fn next(event: ProxyEvent) -> ProxyStep {
    start_service_proxy(Platform::Linux, &entry(), event)
}

fn failure(event: ProxyEvent) -> String {
    match next(event) {
        ProxyStep::Fail { message } => message,
        other => panic!("{:?}", other),
    }
}

#[test]
fn proxy_is_started_step_by_step() {
    match next(ProxyEvent::Begin) {
        ProxyStep::AddAlias { command } => {
            assert_eq!(command.line(), "ip addr add 10.96.0.20/32 dev lo")
        }
        other => panic!("{:?}", other),
    }
    match next(ProxyEvent::AliasAdded { added: Ok(()) }) {
        ProxyStep::ReadService { namespace, name } => {
            assert_eq!(namespace, "prod");
            assert_eq!(name, "api");
        }
        other => panic!("{:?}", other),
    }
    let labels = vec![
        Label { key: "app".into(), value: "api".into() },
        Label { key: "tier".into(), value: "back".into() },
    ];
    match next(ProxyEvent::ServiceRead { labels: Ok(labels) }) {
        ProxyStep::ListPods { namespace, labels } => {
            assert_eq!(namespace, "prod");
            assert_eq!(labels, "app=api,tier=back");
        }
        other => panic!("{:?}", other),
    }
    let pods = vec![pod(Some("api-0"), "False"), pod(None, "True"), pod(Some("api-1"), "True")];
    match next(ProxyEvent::PodsListed { pods: Ok(pods) }) {
        ProxyStep::Bind { addr, pod } => {
            assert_eq!(addr, "10.96.0.20:8080");
            assert_eq!(pod, "api-1");
        }
        other => panic!("{:?}", other),
    }
    match next(ProxyEvent::Bound { pod: "api-1".into(), bound: Ok(()) }) {
        ProxyStep::Serve { pod } => assert_eq!(pod, "api-1"),
        other => panic!("{:?}", other),
    }
}

#[test]
fn every_step_of_a_proxy_can_fail() {
    assert_eq!(failure(ProxyEvent::AliasAdded { added: Err("denied".into()) }), "denied");
    assert_eq!(failure(ProxyEvent::ServiceRead { labels: Err("404".into()) }), "get service");
    assert_eq!(
        failure(ProxyEvent::ServiceRead { labels: Ok(vec![]) }),
        "service api has no selector"
    );
    assert_eq!(failure(ProxyEvent::PodsListed { pods: Err("timeout".into()) }), "timeout");
    assert_eq!(
        failure(ProxyEvent::PodsListed { pods: Ok(vec![pod(Some("api-0"), "Unknown")]) }),
        "no ready pods for service api"
    );
    assert_eq!(
        failure(ProxyEvent::Bound { pod: "api-1".into(), bound: Err("in use".into()) }),
        "bind 10.96.0.20:8080"
    );
}

#[test]
fn pod_without_status_is_not_ready() {
    let none = PodState { name: Some("a".into()), status: None };
    let silent =
        PodState { name: Some("b".into()), status: Some(PodStatus { conditions: None }) };
    assert!(!none.is_ready());
    assert!(!silent.is_ready());
    assert_eq!(pick_pod(&vec![none, silent]), None);
    assert_eq!(pick_pod(&vec![]), None);
}
