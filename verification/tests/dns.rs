use portkube::kube::services::{KubeService, ServicePort};
use portkube::network::dns::{
    answer_query, build_dns_response, build_nxdomain, forwarded_response, get_upstream_dns,
    parse_query_name, resolve_from_map, QueryAction, DEFAULT_UPSTREAM, DNS_LISTEN_ADDR,
};
use portkube::network::ipv4::Ipv4Addr;
use portkube::network::service_map::{build_service_map, ServiceMap};

fn make_dns_query(labels: &[&str]) -> Vec<u8> {
    let mut packet = vec![
        0x00, 0x01, // ID
        0x01, 0x00, // Flags (standard query)
        0x00, 0x01, // QDCOUNT = 1
        0x00, 0x00, // ANCOUNT = 0
        0x00, 0x00, // NSCOUNT = 0
        0x00, 0x00, // ARCOUNT = 0
    ];
    for label in labels {
        packet.push(label.len() as u8);
        packet.extend_from_slice(label.as_bytes());
    }
    packet.push(0); // root label
    packet.extend_from_slice(&[0x00, 0x01, 0x00, 0x01]); // QTYPE=A, QCLASS=IN
    packet
}

fn service(name: &str, namespace: &str, ip: &str, port: i32) -> KubeService {
    KubeService {
        name: name.into(),
        namespace: namespace.into(),
        service_type: "ClusterIP".into(),
        cluster_ip: ip.into(),
        ports: vec![ServicePort {
            port,
            target_port: port.to_string(),
            protocol: "TCP".into(),
            name: None,
        }],
    }
}

fn make_service_map() -> ServiceMap {
    build_service_map(&vec![
        service("nginx", "default", "10.96.1.5", 80),
        service("api", "prod", "10.96.1.10", 8080),
    ])
}

// ── parse_query_name ────────────────────────────────────

#[test]
fn test_parse_query_name_two_labels() {
    let packet = make_dns_query(&["nginx", "default"]);
    assert_eq!(parse_query_name(&packet).unwrap(), "nginx.default");
}

#[test]
fn test_parse_query_name_three_labels() {
    let packet = make_dns_query(&["nginx", "default", "svc"]);
    assert_eq!(parse_query_name(&packet).unwrap(), "nginx.default.svc");
}

#[test]
fn test_parse_query_name_single_label() {
    let packet = make_dns_query(&["localhost"]);
    assert_eq!(parse_query_name(&packet).unwrap(), "localhost");
}

#[test]
fn test_parse_query_name_too_short() {
    let packet = vec![0u8; 10];
    assert!(parse_query_name(&packet).is_none());
}

#[test]
fn test_parse_query_name_empty_packet() {
    let packet: Vec<u8> = vec![];
    assert!(parse_query_name(&packet).is_none());
}

#[test]
fn test_parse_query_name_truncated_label() {
    // Header says label len=10 but only 3 bytes follow
    let mut packet = vec![0u8; 12];
    packet.push(10); // label length = 10
    packet.extend_from_slice(b"abc"); // only 3 bytes
    assert!(parse_query_name(&packet).is_none());
}

// ── build_dns_response ──────────────────────────────────

#[test]
fn test_build_dns_response_contains_ip() {
    let query = make_dns_query(&["nginx", "default"]);
    let ip = Ipv4Addr::new(10, 96, 1, 5);
    let resp = build_dns_response(&query, ip);

    // Response should end with the IP octets
    let len = resp.len();
    assert_eq!(&resp[len - 4..], &[10, 96, 1, 5]);
}

#[test]
fn test_build_dns_response_flags() {
    let query = make_dns_query(&["nginx", "default"]);
    let resp = build_dns_response(&query, Ipv4Addr::new(1, 2, 3, 4));

    // Flags: authoritative answer, no error
    assert_eq!(resp[2], 0x85);
    assert_eq!(resp[3], 0x80);
    // QDCOUNT = 1
    assert_eq!(resp[4], 0x00);
    assert_eq!(resp[5], 0x01);
    // ANCOUNT = 1
    assert_eq!(resp[6], 0x00);
    assert_eq!(resp[7], 0x01);
}

#[test]
fn test_build_dns_response_preserves_id() {
    let mut query = make_dns_query(&["test", "ns"]);
    query[0] = 0xAB;
    query[1] = 0xCD;
    let resp = build_dns_response(&query, Ipv4Addr::new(1, 1, 1, 1));
    assert_eq!(resp[0], 0xAB);
    assert_eq!(resp[1], 0xCD);
}

#[test]
fn test_build_dns_response_answer_section() {
    let query = make_dns_query(&["svc", "ns"]);
    let resp = build_dns_response(&query, Ipv4Addr::new(10, 0, 0, 1));
    // Answer should contain pointer (0xC00C), type A (0x0001), class IN (0x0001)
    let answer_start = resp.len() - 16; // 12 bytes answer record + 4 bytes IP
    assert_eq!(resp[answer_start], 0xC0);
    assert_eq!(resp[answer_start + 1], 0x0C);
    assert_eq!(resp[answer_start + 2], 0x00); // TYPE A
    assert_eq!(resp[answer_start + 3], 0x01);
    assert_eq!(resp[answer_start + 4], 0x00); // CLASS IN
    assert_eq!(resp[answer_start + 5], 0x01);
}

// ── build_nxdomain ──────────────────────────────────────

#[test]
fn test_build_nxdomain_flags() {
    let query = make_dns_query(&["unknown", "ns"]);
    let resp = build_nxdomain(&query);
    assert_eq!(resp[2], 0x81);
    assert_eq!(resp[3], 0x83);
}

#[test]
fn test_build_nxdomain_preserves_id() {
    let mut query = make_dns_query(&["x", "y"]);
    query[0] = 0x12;
    query[1] = 0x34;
    let resp = build_nxdomain(&query);
    assert_eq!(resp[0], 0x12);
    assert_eq!(resp[1], 0x34);
}

#[test]
fn test_build_nxdomain_preserves_question() {
    let query = make_dns_query(&["test", "ns"]);
    let resp = build_nxdomain(&query);
    // Everything after flags should be preserved
    assert_eq!(resp[4..], query[4..]);
}

#[test]
fn test_build_nxdomain_short_packet() {
    let resp = build_nxdomain(&[0x00, 0x01]);
    // Too short to have flags, should not panic
    assert_eq!(resp.len(), 2);
}

// ── resolve_from_map ────────────────────────────────────

#[test]
fn test_resolve_from_map_found() {
    let map = make_service_map();
    assert_eq!(
        resolve_from_map("nginx.default", &map),
        Some(Ipv4Addr::new(10, 96, 1, 5))
    );
}

#[test]
fn test_resolve_from_map_different_service() {
    let map = make_service_map();
    assert_eq!(
        resolve_from_map("api.prod", &map),
        Some(Ipv4Addr::new(10, 96, 1, 10))
    );
}

#[test]
fn test_resolve_from_map_unknown_service() {
    let map = make_service_map();
    assert_eq!(resolve_from_map("unknown.default", &map), None);
}

#[test]
fn test_resolve_from_map_unknown_namespace() {
    let map = make_service_map();
    assert_eq!(resolve_from_map("nginx.prod", &map), None);
}

#[test]
fn test_resolve_from_map_single_label() {
    let map = make_service_map();
    assert_eq!(resolve_from_map("nginx", &map), None);
}

#[test]
fn test_resolve_from_map_empty_string() {
    let map = make_service_map();
    assert_eq!(resolve_from_map("", &map), None);
}

#[test]
fn test_resolve_from_map_extra_labels_ignored() {
    let map = make_service_map();
    // "nginx.default.svc" → parts[0]=nginx, parts[1]=default — should match
    assert_eq!(
        resolve_from_map("nginx.default.svc", &map),
        Some(Ipv4Addr::new(10, 96, 1, 5))
    );
}

#[test]
fn test_resolve_from_map_empty_map() {
    let map = ServiceMap::new();
    assert_eq!(resolve_from_map("nginx.default", &map), None);
}

#[test]
fn response_to_a_short_query_is_padded() {
    let resp = build_dns_response(&[0xAB], Ipv4Addr::new(1, 2, 3, 4));
    assert_eq!(
        resp,
        vec![
            0xAB, 0, 0x85, 0x80, 0, 1, 0, 1, 0, 0, 0, 0, 0xC0, 0x0C, 0, 1, 0, 1, 0, 0, 0, 0x1E, 0, 4,
            1, 2, 3, 4
        ]
    );
}

#[test]
fn response_repeats_the_question_alone() {
    let mut query = make_dns_query(&["a", "b"]);
    let question = query.len();
    query.extend_from_slice(&[9, 9, 9, 9]); // additional records are left out
    let resp = build_dns_response(&query, Ipv4Addr::new(10, 0, 0, 1));
    assert_eq!(resp.len(), question + 16);
    assert_eq!(resp[12..question], query[12..question]);
    assert_eq!(parse_query_name(&resp).unwrap(), "a.b");
}

#[test]
fn label_that_is_no_text_is_refused() {
    let mut packet = make_dns_query(&["nginx", "default"]);
    packet[13] = 0xff;
    assert!(parse_query_name(&packet).is_none());
}

#[test]
fn name_without_an_end_is_refused() {
    let mut packet = vec![0u8; 12];
    packet.push(4);
    packet.extend_from_slice(b"abcd");
    assert_eq!(packet.len(), 17);
    assert!(parse_query_name(&packet).is_none());
}

#[test]
fn root_name_is_empty() {
    assert_eq!(parse_query_name(&make_dns_query(&[])).unwrap(), "");
}

#[test]
fn labels_may_hold_any_text() {
    let packet = make_dns_query(&["größe", "日本"]);
    assert_eq!(parse_query_name(&packet).unwrap(), "größe.日本");
}

// ── Answering ───────────────────────────────────────────

fn served() -> Vec<String> {
    vec!["default".to_string(), "prod".to_string()]
}

#[test]
fn known_service_is_answered() {
    let packet = make_dns_query(&["nginx", "default"]);
    match answer_query(&packet, &served(), &make_service_map()) {
        QueryAction::Reply { response } => {
            assert_eq!(response, build_dns_response(&packet, Ipv4Addr::new(10, 96, 1, 5)))
        }
        other => panic!("{:?}", other),
    }
}

#[test]
fn unknown_service_of_a_served_namespace_is_denied() {
    let packet = make_dns_query(&["redis", "default"]);
    match answer_query(&packet, &served(), &make_service_map()) {
        QueryAction::Reply { response } => assert_eq!(response, build_nxdomain(&packet)),
        other => panic!("{:?}", other),
    }
}

#[test]
fn other_names_are_forwarded() {
    for labels in [vec!["example", "com"], vec!["localhost"], vec!["nginx", "staging"]] {
        let packet = make_dns_query(&labels);
        assert!(matches!(
            answer_query(&packet, &served(), &make_service_map()),
            QueryAction::Forward
        ));
    }
}

#[test]
fn unreadable_packet_is_ignored() {
    assert!(matches!(
        answer_query(&[1, 2, 3], &served(), &make_service_map()),
        QueryAction::Ignore
    ));
}

#[test]
fn forwarded_reply_is_handed_through() {
    let packet = make_dns_query(&["example", "com"]);
    assert_eq!(forwarded_response(&packet, Some(vec![1, 2, 3])), vec![1, 2, 3]);
    assert_eq!(forwarded_response(&packet, None), build_nxdomain(&packet));
}

// ── Upstream ────────────────────────────────────────────

#[test]
fn first_filled_line_is_the_upstream() {
    assert_eq!(get_upstream_dns("\n  \n 1.1.1.1 \r\n9.9.9.9\n"), "1.1.1.1:53");
    assert_eq!(get_upstream_dns("9.9.9.9"), "9.9.9.9:53");
}

#[test]
fn upstream_without_a_saved_one() {
    assert_eq!(get_upstream_dns(""), "8.8.8.8:53");
    assert_eq!(get_upstream_dns(" \n\t\r\n\u{a0}\n"), "8.8.8.8:53");
}

#[test]
fn fixed_addresses() {
    assert_eq!(DNS_LISTEN_ADDR, "127.0.0.53:53");
    assert_eq!(DEFAULT_UPSTREAM, "8.8.8.8:53");
}
