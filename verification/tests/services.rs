use portkube::kube::services::{
    list_services, IntOrString, KubeService, PortSpec, ServiceObject, ServicePort, ServiceSpec,
};

fn make_svc(ports: Vec<ServicePort>) -> KubeService {
    KubeService {
        name: "nginx".into(),
        namespace: "default".into(),
        service_type: "ClusterIP".into(),
        cluster_ip: "10.96.0.1".into(),
        ports,
    }
}

fn tcp_port(port: i32) -> ServicePort {
    ServicePort {
        port,
        target_port: port.to_string(),
        protocol: "TCP".into(),
        name: None,
    }
}

#[test]
fn test_ports_display_single() {
    let svc = make_svc(vec![tcp_port(80)]);
    assert_eq!(svc.ports_display(), "80/TCP");
}

#[test]
fn test_ports_display_multiple() {
    let svc = make_svc(vec![tcp_port(80), tcp_port(443)]);
    assert_eq!(svc.ports_display(), "80/TCP, 443/TCP");
}

#[test]
fn test_ports_display_empty() {
    let svc = make_svc(vec![]);
    assert_eq!(svc.ports_display(), "");
}

#[test]
fn test_ports_display_udp() {
    let svc = make_svc(vec![ServicePort {
        port: 53,
        target_port: "53".into(),
        protocol: "UDP".into(),
        name: Some("dns".into()),
    }]);
    assert_eq!(svc.ports_display(), "53/UDP");
}

#[test]
fn test_local_url_http() {
    let svc = make_svc(vec![tcp_port(8080)]);
    assert_eq!(svc.local_url("10.96.0.1"), Some("http://10.96.0.1:8080".into()));
}

#[test]
fn test_local_url_https() {
    let svc = make_svc(vec![tcp_port(443)]);
    assert_eq!(svc.local_url("10.96.0.1"), Some("https://10.96.0.1:443".into()));
}

#[test]
fn test_local_url_port_80() {
    let svc = make_svc(vec![tcp_port(80)]);
    assert_eq!(svc.local_url("10.96.0.1"), Some("http://10.96.0.1:80".into()));
}

#[test]
fn test_local_url_no_ports() {
    let svc = make_svc(vec![]);
    assert_eq!(svc.local_url("10.96.0.1"), None);
}

// ── Listing ─────────────────────────────────────────────

fn port_spec(port: i32, protocol: Option<&str>) -> PortSpec {
    PortSpec { port, target_port: None, protocol: protocol.map(|p| p.into()), name: None }
}

fn object(name: &str, ns: &str, cluster_ip: &str, svc_type: &str, ports: Vec<i32>) -> ServiceObject {
    ServiceObject {
        name: Some(name.into()),
        namespace: Some(ns.into()),
        spec: Some(ServiceSpec {
            service_type: Some(svc_type.into()),
            cluster_ip: Some(cluster_ip.into()),
            ports: Some(ports.into_iter().map(|p| port_spec(p, Some("TCP"))).collect()),
        }),
    }
}

#[test]
fn test_list_services_all_namespaces() {
    let svcs = list_services(Ok(vec![
        object("nginx", "default", "10.96.0.10", "ClusterIP", vec![80]),
        object("api", "prod", "10.96.0.20", "NodePort", vec![8080, 443]),
    ]))
    .unwrap();
    assert_eq!(svcs.len(), 2);

    assert_eq!(svcs[0].name, "nginx");
    assert_eq!(svcs[0].namespace, "default");
    assert_eq!(svcs[0].service_type, "ClusterIP");
    assert_eq!(svcs[0].cluster_ip, "10.96.0.10");
    assert_eq!(svcs[0].ports.len(), 1);
    assert_eq!(svcs[0].ports[0].port, 80);
    assert_eq!(svcs[0].ports[0].protocol, "TCP");

    assert_eq!(svcs[1].name, "api");
    assert_eq!(svcs[1].namespace, "prod");
    assert_eq!(svcs[1].service_type, "NodePort");
    assert_eq!(svcs[1].ports.len(), 2);
}

#[test]
fn test_list_services_namespaced() {
    let svcs = list_services(Ok(vec![
        object("grafana", "monitoring", "10.96.1.5", "ClusterIP", vec![3000]),
    ]))
    .unwrap();
    assert_eq!(svcs.len(), 1);
    assert_eq!(svcs[0].name, "grafana");
    assert_eq!(svcs[0].namespace, "monitoring");
}

#[test]
fn test_list_services_empty() {
    let svcs = list_services(Ok(vec![])).unwrap();
    assert!(svcs.is_empty());
}

#[test]
fn test_list_services_no_spec_filtered() {
    let svcs = list_services(Ok(vec![ServiceObject {
        name: Some("headless".into()),
        namespace: Some("default".into()),
        spec: None,
    }]))
    .unwrap();
    assert!(svcs.is_empty());
}

#[test]
fn test_list_services_missing_name_filtered() {
    let svcs = list_services(Ok(vec![ServiceObject {
        name: None,
        namespace: Some("default".into()),
        spec: Some(ServiceSpec {
            service_type: None,
            cluster_ip: None,
            ports: Some(vec![port_spec(80, None)]),
        }),
    }]))
    .unwrap();
    assert!(svcs.is_empty());
}

#[test]
fn test_list_services_defaults_for_optional_fields() {
    let svcs = list_services(Ok(vec![ServiceObject {
        name: Some("minimal".into()),
        namespace: None,
        spec: Some(ServiceSpec {
            service_type: None,
            cluster_ip: None,
            ports: Some(vec![port_spec(80, None)]),
        }),
    }]))
    .unwrap();
    assert_eq!(svcs.len(), 1);
    assert_eq!(svcs[0].namespace, "default");
    assert_eq!(svcs[0].service_type, "ClusterIP");
    assert_eq!(svcs[0].cluster_ip, "-");
    assert_eq!(svcs[0].ports[0].protocol, "TCP");
}

#[test]
fn test_list_services_int_or_string_target_port() {
    let svcs = list_services(Ok(vec![ServiceObject {
        name: Some("web".into()),
        namespace: Some("default".into()),
        spec: Some(ServiceSpec {
            service_type: None,
            cluster_ip: None,
            ports: Some(vec![
                PortSpec {
                    port: 80,
                    target_port: Some(IntOrString::Int(8080)),
                    protocol: None,
                    name: None,
                },
                PortSpec {
                    port: 443,
                    target_port: Some(IntOrString::Name("https".into())),
                    protocol: None,
                    name: None,
                },
            ]),
        }),
    }]))
    .unwrap();
    assert_eq!(svcs[0].ports[0].target_port, "8080");
    assert_eq!(svcs[0].ports[1].target_port, "https");
}

#[test]
fn missing_target_port_is_the_port_itself() {
    let svcs = list_services(Ok(vec![object("web", "ns", "10.0.0.1", "ClusterIP", vec![9090])]))
        .unwrap();
    assert_eq!(svcs[0].ports[0].target_port, "9090");
    assert_eq!(svcs[0].ports[0].name, None);
}

#[test]
fn missing_ports_are_no_ports() {
    let svcs = list_services(Ok(vec![ServiceObject {
        name: Some("web".into()),
        namespace: None,
        spec: Some(ServiceSpec { service_type: None, cluster_ip: None, ports: None }),
    }]))
    .unwrap();
    assert!(svcs[0].ports.is_empty());
}

#[test]
fn failed_listing_is_passed_on() {
    assert_eq!(list_services(Err("forbidden".into())).unwrap_err(), "forbidden");
}

#[test]
fn extreme_ports_are_written_in_decimal() {
    let svc = make_svc(vec![tcp_port(i32::MIN), tcp_port(i32::MAX), tcp_port(0)]);
    assert_eq!(svc.ports_display(), "-2147483648/TCP, 2147483647/TCP, 0/TCP");
}
