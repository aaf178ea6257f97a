use portkube::kube::services::{KubeService, ServicePort};
use portkube::network::ipv4::Ipv4Addr;
use portkube::network::service_map::ServiceEntry;
use portkube::tui::app::{AppEvent, TaskId};
use portkube::tui::setup::{
    collect_namespaces, is_system_namespace, plan_network, text_before, NetworkSetup, SetupEvent,
    SetupStep,
};

fn entry(name: &str, namespace: &str) -> ServiceEntry {
    ServiceEntry {
        name: name.into(),
        namespace: namespace.into(),
        port: 80,
        cluster_ip: Ipv4Addr::new(10, 96, 0, 1),
    }
}

fn told(events: &Vec<AppEvent>) -> Vec<String> {
    events
        .iter()
        .map(|e| match e {
            AppEvent::Toast { msg, is_error } => format!("toast {} {}", msg, is_error),
            AppEvent::TunReady { device_name, service_cidr } => {
                format!("tun {} {}", device_name, service_cidr)
            }
            AppEvent::ServiceMapBuilt { entries } => format!("map {}", entries.len()),
            AppEvent::BgHandle { handle } => format!("task {}", handle.id),
            AppEvent::AliasAdded { ip } => format!("alias {}", ip.to_text()),
            AppEvent::Error { msg } => format!("error {}", msg),
            other => panic!("{:?}", other),
        })
        .collect()
}

fn step_told(step: &SetupStep) -> String {
    match step {
        SetupStep::OpenDevice => "open".to_string(),
        SetupStep::RouteDevice { cidr } => format!("route {}", cidr),
        SetupStep::StartProxy { entry } => format!("proxy {}", entry.dns_name()),
        SetupStep::InstallResolver { namespaces } => format!("resolver {}", namespaces.join(" ")),
        SetupStep::StartDns { namespaces } => format!("dns {}", namespaces.join(" ")),
        SetupStep::Finish => "finish".to_string(),
    }
}

fn new_setup() -> NetworkSetup {
    NetworkSetup::new(
        vec![
            entry("api", "prod"),
            entry("dns", "kube-system"),
            entry("web", "default"),
            entry("db", "prod"),
        ],
        "10.96.0.0/12",
    )
}

#[test]
fn setup_runs_to_its_end() {
    let mut setup = new_setup();
    let (events, step) = setup.proceed(SetupEvent::Begin);
    assert!(events.is_empty());
    assert_eq!(step_told(&step), "open");
    let (events, step) = setup.proceed(SetupEvent::DeviceOpened);
    assert!(events.is_empty());
    assert_eq!(step_told(&step), "route 10.96.0.0/12");

    let ready = SetupEvent::DeviceReady { name: "utun4".into(), route: Ok(()) };
    let (events, step) = setup.proceed(ready);
    assert_eq!(told(&events), vec!["tun utun4 10.96.0.0/12", "map 4"]);
    assert_eq!(step_told(&step), "proxy api.prod");

    let started = SetupEvent::ProxyStarted {
        handle: TaskId { id: 1 },
        ip: Ipv4Addr::new(10, 96, 0, 1),
    };
    let (events, step) = setup.proceed(started);
    assert_eq!(told(&events), vec!["task 1", "alias 10.96.0.1"]);
    assert_eq!(step_told(&step), "proxy web.default");

    let skipped = SetupEvent::ProxySkipped { message: "denied".into() };
    let (events, step) = setup.proceed(skipped);
    assert_eq!(told(&events), vec!["toast skip web: denied false"]);
    assert_eq!(step_told(&step), "proxy db.prod");

    let started = SetupEvent::ProxyStarted {
        handle: TaskId { id: 2 },
        ip: Ipv4Addr::new(10, 96, 0, 2),
    };
    let (_, step) = setup.proceed(started);
    assert_eq!(step_told(&step), "resolver default prod");

    let (events, step) = setup.proceed(SetupEvent::ResolverInstalled);
    assert!(events.is_empty());
    assert_eq!(step_told(&step), "dns default prod");

    let (events, step) =
        setup.proceed(SetupEvent::DnsStarted { handle: TaskId { id: 3 } });
    assert_eq!(
        told(&events),
        vec!["task 3", "toast Ready — 2 service(s), use <svc>.<ns> in browser false"]
    );
    assert_eq!(step_told(&step), "finish");
}

#[test]
fn setup_goes_on_without_a_device() {
    let mut setup = new_setup();
    let (events, step) =
        setup.proceed(SetupEvent::DeviceSkipped { message: "no root".into() });
    assert_eq!(
        told(&events),
        vec!["toast utun skipped: no root false", "tun none 10.96.0.0/12", "map 4"]
    );
    assert_eq!(step_told(&step), "proxy api.prod");
}

#[test]
fn setup_goes_on_without_a_route() {
    let mut setup = new_setup();
    let ready = SetupEvent::DeviceReady { name: "utun4".into(), route: Err("busy".into()) };
    let (events, _) = setup.proceed(ready);
    assert_eq!(
        told(&events),
        vec!["toast utun route skipped: busy false", "tun utun4 10.96.0.0/12", "map 4"]
    );
}

#[test]
fn setup_ends_where_the_resolver_or_dns_fails() {
    let mut setup = new_setup();
    let (events, step) =
        setup.proceed(SetupEvent::ResolverFailed { message: "save".into() });
    assert_eq!(told(&events), vec!["error Resolver failed: save"]);
    assert_eq!(step_told(&step), "finish");
    let (events, step) =
        setup.proceed(SetupEvent::DnsFailed { message: "bind".into() });
    assert_eq!(told(&events), vec!["error DNS proxy failed: bind"]);
    assert_eq!(step_told(&step), "finish");
}

#[test]
fn setup_without_services_installs_at_once() {
    let mut setup = NetworkSetup::new(vec![entry("dns", "kube-system")], "10.0.0.0/8");
    let ready = SetupEvent::DeviceReady { name: "tun0".into(), route: Ok(()) };
    let (events, step) = setup.proceed(ready);
    assert_eq!(told(&events), vec!["tun tun0 10.0.0.0/8", "map 1"]);
    assert_eq!(step_told(&step), "resolver ");
    let late = SetupEvent::ProxySkipped { message: "late".into() };
    let (events, step) = setup.proceed(late);
    assert!(events.is_empty());
    assert_eq!(step_told(&step), "resolver ");
}

#[test]
fn system_namespaces_are_left_alone() {
    for ns in ["kube-system", "kube-public", "kube-node-lease"] {
        assert!(is_system_namespace(ns));
    }
    assert!(!is_system_namespace("default"));
    assert!(!is_system_namespace("kube"));
    assert!(!is_system_namespace(""));
}

#[test]
fn namespaces_are_sorted_and_unique() {
    let names = collect_namespaces(&vec![
        entry("a", "prod"),
        entry("b", "default"),
        entry("c", "prod"),
        entry("d", "Prod"),
        entry("e", "pro"),
        entry("f", "é"),
    ]);
    assert_eq!(names, vec!["Prod", "default", "pro", "prod", "é"]);
}

#[test]
fn order_of_texts_is_that_of_strings() {
    let words = ["", "a", "ab", "b", "B", "é", "日本", "日", "z\u{10ffff}", "z"];
    for a in words {
        for b in words {
            assert_eq!(text_before(a, b), a < b, "{} {}", a, b);
        }
    }
}

#[test]
fn planned_setup_serves_every_routed_service() {
    let service = |name: &str, namespace: &str, ip: &str| KubeService {
        name: name.into(),
        namespace: namespace.into(),
        service_type: "ClusterIP".into(),
        cluster_ip: ip.into(),
        ports: vec![ServicePort {
            port: 80,
            target_port: "80".into(),
            protocol: "TCP".into(),
            name: None,
        }],
    };
    let services = vec![
        service("web", "zoo", "10.96.0.3"),
        service("dns", "kube-system", "10.96.0.10"),
        service("db", "bar", "None"),
        service("api", "app", "10.96.0.4"),
    ];
    let (map, mut setup) = plan_network(&services, "10.96.0.0/12");
    assert_eq!(map.len(), 3);
    let ready = SetupEvent::DeviceReady { name: "tun0".into(), route: Ok(()) };
    let (events, mut step) = setup.proceed(ready);
    assert_eq!(told(&events)[1], "map 3");
    let mut tried = vec![];
    while let SetupStep::StartProxy { entry } = step {
        tried.push(entry.dns_name());
        let (_, next) =
            setup.proceed(SetupEvent::ProxySkipped { message: "x".into() });
        step = next;
    }
    tried.sort();
    assert_eq!(tried, vec!["api.app", "web.zoo"]);
    assert_eq!(step_told(&step), "resolver app zoo");
}
