use portkube::kube::services::{KubeService, ServicePort};
use portkube::network::ipv4::Ipv4Addr;
use portkube::network::service_map::{build_service_map, ServiceEntry};

fn entry(name: &str, ns: &str, port: u16, ip: [u8; 4]) -> ServiceEntry {
    ServiceEntry {
        name: name.into(),
        namespace: ns.into(),
        port,
        cluster_ip: Ipv4Addr::new(ip[0], ip[1], ip[2], ip[3]),
    }
}

fn kube_svc(name: &str, ns: &str, ip: &str, ports: Vec<i32>) -> KubeService {
    KubeService {
        name: name.into(),
        namespace: ns.into(),
        service_type: "ClusterIP".into(),
        cluster_ip: ip.into(),
        ports: ports
            .into_iter()
            .map(|p| ServicePort {
                port: p,
                target_port: p.to_string(),
                protocol: "TCP".into(),
                name: None,
            })
            .collect(),
    }
}

// ── ServiceEntry ────────────────────────────────────────

#[test]
fn test_service_entry_dns_name() {
    let e = entry("nginx", "default", 80, [10, 96, 1, 1]);
    assert_eq!(e.dns_name(), "nginx.default");
}

#[test]
fn test_service_entry_url_http_port_80() {
    let e = entry("nginx", "default", 80, [10, 96, 1, 1]);
    assert_eq!(e.url(), "http://nginx.default");
}

#[test]
fn test_service_entry_url_https_port_443() {
    let e = entry("api", "prod", 443, [10, 96, 1, 2]);
    assert_eq!(e.url(), "https://api.prod");
}

#[test]
fn test_service_entry_url_custom_port() {
    let e = entry("grafana", "monitoring", 3000, [10, 96, 1, 5]);
    assert_eq!(e.url(), "http://grafana.monitoring:3000");
}

#[test]
fn test_service_entry_url_non_standard_https() {
    let e = entry("api", "prod", 8443, [10, 96, 1, 3]);
    assert_eq!(e.url(), "http://api.prod:8443");
}

// ── build_service_map ───────────────────────────────────

#[test]
fn test_build_service_map_basic() {
    let svcs = vec![kube_svc("nginx", "default", "10.96.0.10", vec![80])];
    let map = build_service_map(&svcs);
    let ip = Ipv4Addr::new(10, 96, 0, 10);
    assert!(map.get(ip).is_some());
    assert_eq!(map.get(ip).unwrap().len(), 1);
    assert_eq!(map.get(ip).unwrap()[0].name, "nginx");
    assert_eq!(map.get(ip).unwrap()[0].port, 80);
}

#[test]
fn test_build_service_map_multiple_ports() {
    let svcs = vec![kube_svc("api", "default", "10.96.0.11", vec![80, 443])];
    let map = build_service_map(&svcs);
    let ip = Ipv4Addr::new(10, 96, 0, 11);
    assert_eq!(map.get(ip).unwrap().len(), 2);
    assert_eq!(map.get(ip).unwrap()[0].port, 80);
    assert_eq!(map.get(ip).unwrap()[1].port, 443);
}

#[test]
fn test_build_service_map_filters_loopback() {
    let svcs = vec![kube_svc("local", "default", "127.0.0.1", vec![80])];
    let map = build_service_map(&svcs);
    assert!(map.is_empty());
}

#[test]
fn test_build_service_map_filters_unspecified() {
    let svcs = vec![kube_svc("none", "default", "0.0.0.0", vec![80])];
    let map = build_service_map(&svcs);
    assert!(map.is_empty());
}

#[test]
fn test_build_service_map_filters_invalid_ip() {
    let svcs = vec![kube_svc("bad", "default", "None", vec![80])];
    let map = build_service_map(&svcs);
    assert!(map.is_empty());
}

#[test]
fn test_build_service_map_filters_headless() {
    let svcs = vec![kube_svc("headless", "default", "-", vec![80])];
    let map = build_service_map(&svcs);
    assert!(map.is_empty());
}

#[test]
fn test_build_service_map_empty_services() {
    let svcs: Vec<KubeService> = vec![];
    let map = build_service_map(&svcs);
    assert!(map.is_empty());
}

#[test]
fn test_build_service_map_multiple_services() {
    let svcs = vec![
        kube_svc("nginx", "default", "10.96.0.10", vec![80]),
        kube_svc("api", "prod", "10.96.0.20", vec![8080]),
    ];
    let map = build_service_map(&svcs);
    assert_eq!(map.len(), 2);
}

#[test]
fn test_build_service_map_no_ports() {
    let svcs = vec![kube_svc("empty", "default", "10.96.0.10", vec![])];
    let map = build_service_map(&svcs);
    assert!(map.is_empty());
}


// ── Addresses ───────────────────────────────────────────

#[test]
fn addresses_are_read_back_as_written() {
    for text in ["0.0.0.0", "10.96.0.1", "127.0.0.53", "255.255.255.255", "1.20.3.100"] {
        assert_eq!(Ipv4Addr::parse(text).unwrap().to_text(), text);
    }
}

#[test]
fn malformed_addresses_are_refused() {
    for text in ["", "1", "1.2.3", "1.2.3.4.5", "1.2.3.256", "1.2.3.-4", "01.2.3.4", "1..3.4", " 1.2.3.4", "1.2.3.4 ", "a.b.c.d", "1.2.3.0004"] {
        assert_eq!(Ipv4Addr::parse(text), None, "{}", text);
    }
}

#[test]
fn bits_of_an_address() {
    let ip = Ipv4Addr::new(10, 96, 1, 5);
    assert_eq!(ip.to_bits(), 0x0a60_0105);
    assert_eq!(Ipv4Addr::from_bits(0x0a60_0105), ip);
    assert_eq!(ip.octets(), vec![10, 96, 1, 5]);
}

#[test]
fn whole_loopback_network_is_loopback() {
    assert!(Ipv4Addr::new(127, 255, 1, 2).is_loopback());
    assert!(!Ipv4Addr::new(128, 0, 0, 1).is_loopback());
    assert!(Ipv4Addr::new(0, 0, 0, 0).is_unspecified());
    assert!(!Ipv4Addr::new(0, 0, 0, 1).is_unspecified());
}

// ── What the map keeps ──────────────────────────────────

#[test]
fn services_that_share_an_address_are_kept_together() {
    let svcs = vec![
        kube_svc("a", "x", "10.96.0.10", vec![80]),
        kube_svc("b", "y", "10.96.0.11", vec![81, 82]),
        kube_svc("c", "z", "10.96.0.10", vec![83]),
    ];
    let map = build_service_map(&svcs);
    assert_eq!(map.len(), 2);
    let here = map.get(Ipv4Addr::new(10, 96, 0, 10)).unwrap();
    assert_eq!(here.len(), 2);
    assert_eq!(here[0].name, "a");
    assert_eq!(here[1].name, "c");
}

#[test]
fn walking_the_map_gives_every_entry_once() {
    let svcs = vec![
        kube_svc("a", "x", "10.96.0.10", vec![80, 443]),
        kube_svc("b", "y", "10.96.0.11", vec![81]),
        kube_svc("c", "z", "None", vec![83]),
    ];
    let mut urls: Vec<String> = build_service_map(&svcs).entries().iter().map(|e| e.url()).collect();
    urls.sort();
    assert_eq!(urls, vec!["http://a.x", "http://b.y:81", "https://a.x"]);
}

#[test]
fn ports_wrap_to_sixteen_bits() {
    let svcs = vec![kube_svc("a", "x", "10.96.0.10", vec![65536 + 80, -1])];
    let map = build_service_map(&svcs);
    let here = map.get(Ipv4Addr::new(10, 96, 0, 10)).unwrap();
    assert_eq!(here[0].port, 80);
    assert_eq!(here[1].port, 65535);
}

#[test]
fn bind_address_of_an_entry() {
    assert_eq!(entry("api", "prod", 8443, [10, 96, 1, 3]).bind_addr(), "10.96.1.3:8443");
}
