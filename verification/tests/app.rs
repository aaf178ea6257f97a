use portkube::kube::context::{Context, KubeContext, Kubeconfig, NamedContext};
use portkube::kube::services::{KubeService, ServicePort as KubeServicePort};
use portkube::network::ipv4::Ipv4Addr;
use portkube::network::service_map::ServiceEntry;
use portkube::tui::app::{
    connection_event, listing_event, Action, App, AppEvent, ClientId, ContextRow, Mode, Screen,
    SplashState,
};

fn make_app_with_contexts(n: usize) -> App {
    let mut app = App::new();
    app.screen = Screen::Contexts;
    app.contexts = (0..n)
        .map(|i| ContextRow {
            ctx: KubeContext {
                name: format!("ctx-{i}"),
                cluster: format!("cluster-{i}"),
                namespace: "default".into(),
                user: format!("user-{i}"),
                is_active: i == 0,
            },
        })
        .collect();
    app
}

fn make_app_with_services() -> App {
    let mut app = App::new();
    app.screen = Screen::Services;
    app.services = vec![
        KubeService {
            name: "nginx".into(),
            namespace: "default".into(),
            service_type: "ClusterIP".into(),
            cluster_ip: "10.96.0.10".into(),
            ports: vec![KubeServicePort {
                port: 80,
                target_port: "80".into(),
                protocol: "TCP".into(),
                name: None,
            }],
        },
        KubeService {
            name: "api".into(),
            namespace: "prod".into(),
            service_type: "ClusterIP".into(),
            cluster_ip: "10.96.0.20".into(),
            ports: vec![KubeServicePort {
                port: 443,
                target_port: "443".into(),
                protocol: "TCP".into(),
                name: None,
            }],
        },
    ];
    app.service_entries = vec![ServiceEntry {
        name: "nginx".into(),
        namespace: "default".into(),
        port: 80,
        cluster_ip: Ipv4Addr::new(10, 96, 0, 10),
    }];
    app
}

// ── App::new ────────────────────────────────────────────

#[test]
fn test_app_new_defaults() {
    let app = App::new();
    assert_eq!(app.screen, Screen::Splash);
    assert_eq!(app.mode, Mode::Normal);
    assert!(!app.should_quit);
    assert!(app.contexts.is_empty());
    assert_eq!(app.ctx_selected, 0);
    assert!(app.services.is_empty());
    assert_eq!(app.svc_selected, 0);
    assert!(app.connected_context.is_none());
    assert!(app.client.is_none());
    assert!(app.tun_device.is_none());
    assert!(app.tun_device_name.is_none());
    assert!(app.service_cidr.is_none());
    assert!(app.service_entries.is_empty());
    assert!(app.alias_ips.is_empty());
    assert!(app.bg_handles.is_empty());
    assert!(app.toast.is_none());
}

// ── SplashState ─────────────────────────────────────────

#[test]
fn test_splash_state_new() {
    let s = SplashState::new();
    assert_eq!(s.current_step, 0);
    assert_eq!(s.total_steps, 2);
    assert_eq!(s.message, "Initializing...");
    assert_eq!(s.spinner_frame, 0);
}

#[test]
fn test_splash_state_advance() {
    let mut s = SplashState::new();
    s.advance("Loading...");
    assert_eq!(s.current_step, 1);
    assert_eq!(s.message, "Loading...");
    assert_eq!(s.spinner_frame, 1);
}

#[test]
fn test_splash_state_advance_multiple() {
    let mut s = SplashState::new();
    s.advance("Step 1");
    s.advance("Step 2");
    assert_eq!(s.current_step, 2);
    assert_eq!(s.message, "Step 2");
}

#[test]
fn test_splash_state_tick_spinner() {
    let mut s = SplashState::new();
    s.tick_spinner();
    assert_eq!(s.spinner_frame, 1);
    for _ in 0..9 {
        s.tick_spinner();
    }
    assert_eq!(s.spinner_frame, 0); // wraps at 10
}

// ── Toast ───────────────────────────────────────────────

#[test]
fn test_show_toast() {
    let mut app = App::new();
    app.show_toast("Hello", false);
    let toast = app.toast.as_ref().unwrap();
    assert_eq!(toast.message, "Hello");
    assert!(!toast.is_error);
    assert_eq!(toast.tick, 30);
}

#[test]
fn test_show_toast_error() {
    let mut app = App::new();
    app.show_toast("Oops", true);
    let toast = app.toast.as_ref().unwrap();
    assert!(toast.is_error);
}

#[test]
fn test_show_toast_replaces_previous() {
    let mut app = App::new();
    app.show_toast("First", false);
    app.show_toast("Second", false);
    assert_eq!(app.toast.as_ref().unwrap().message, "Second");
}

// ── selected_url ────────────────────────────────────────

#[test]
fn test_selected_url_with_matching_entry() {
    let app = make_app_with_services();
    // svc_selected=0 → nginx, which has an entry
    let url = app.selected_url().unwrap();
    assert_eq!(url, "http://nginx.default");
}

#[test]
fn test_selected_url_without_matching_entry() {
    let mut app = make_app_with_services();
    app.svc_selected = 1; // api.prod — no entry in service_entries
    let url = app.selected_url().unwrap();
    assert_eq!(url, "https://api.prod:443");
}

#[test]
fn test_selected_url_empty_services() {
    let app = App::new();
    assert!(app.selected_url().is_none());
}

#[test]
fn test_selected_url_out_of_bounds() {
    let mut app = make_app_with_services();
    app.svc_selected = 99;
    assert!(app.selected_url().is_none());
}

// ── connect_async guards ────────────────────────────────

#[test]
fn test_connect_async_empty_contexts_noop() {
    let mut app = App::new();
    let _ = app.connect_async();
    // Should not change mode when no contexts
    assert_eq!(app.mode, Mode::Normal);
}

#[test]
fn test_connect_async_sets_connecting_mode() {
    let mut app = make_app_with_contexts(2);
    app.ctx_selected = 1;
    let _ = app.connect_async();
    assert_eq!(app.mode, Mode::Connecting);
    assert_eq!(app.connected_context, Some("ctx-1".into()));
}

// ── Screen/Mode enums ───────────────────────────────────

#[test]
fn test_screen_eq() {
    assert_eq!(Screen::Splash, Screen::Splash);
    assert_ne!(Screen::Splash, Screen::Contexts);
    assert_ne!(Screen::Contexts, Screen::Services);
}

#[test]
fn test_mode_eq() {
    assert_eq!(Mode::Normal, Mode::Normal);
    assert_ne!(Mode::Normal, Mode::Connecting);
}

// ── Connecting ──────────────────────────────────────────

#[test]
fn connecting_starts_the_splash_anew() {
    let mut app = make_app_with_contexts(2);
    app.ctx_selected = 1;
    match app.connect_async() {
        Action::Connect { context } => assert_eq!(context, "ctx-1"),
        other => panic!("{:?}", other),
    }
    assert_eq!(app.splash.current_step, 1);
    assert_eq!(app.splash.total_steps, 5);
    assert_eq!(app.splash.message, "Connecting to ctx-1...");
    assert_eq!(app.splash.spinner_frame, 1);
}

#[test]
fn network_is_set_up_only_with_a_client() {
    let mut app = make_app_with_services();
    assert!(matches!(app.setup_network_async(), Action::Nothing));
    app.client = Some(ClientId { id: 4 });
    match app.setup_network_async() {
        Action::SetUpNetwork { client, services } => {
            assert_eq!(client, ClientId { id: 4 });
            assert_eq!(services.len(), 2);
            assert_eq!(services[1].name, "api");
        }
        other => panic!("{:?}", other),
    }
}

#[test]
fn attempts_are_reported() {
    match connection_event(Ok(ClientId { id: 1 })) {
        AppEvent::Connected { client } => assert_eq!(client, ClientId { id: 1 }),
        other => panic!("{:?}", other),
    }
    match connection_event(Err("refused".into())) {
        AppEvent::Error { msg } => assert_eq!(msg, "Connection failed: refused"),
        other => panic!("{:?}", other),
    }
    match listing_event(Ok(make_app_with_services().services), true) {
        AppEvent::ServicesLoaded { services } => assert_eq!(services.len(), 2),
        other => panic!("{:?}", other),
    }
    match listing_event(Err("forbidden".into()), false) {
        AppEvent::Error { msg } => assert_eq!(msg, "Service listing failed: forbidden"),
        other => panic!("{:?}", other),
    }
    match listing_event(Err("forbidden".into()), true) {
        AppEvent::Error { msg } => assert_eq!(msg, "Refresh failed: forbidden"),
        other => panic!("{:?}", other),
    }
}

// ── Refreshing ──────────────────────────────────────────

fn kubeconfig(names: &[&str]) -> Kubeconfig {
    Kubeconfig {
        current_context: names.first().map(|n| n.to_string()),
        contexts: names
            .iter()
            .map(|n| NamedContext {
                name: n.to_string(),
                context: Some(Context { cluster: "c".into(), namespace: None, user: None }),
            })
            .collect(),
    }
}

#[test]
fn refreshing_keeps_the_selection_in_range() {
    let mut app = make_app_with_contexts(5);
    app.ctx_selected = 4;
    app.refresh_contexts(Ok(kubeconfig(&["a", "b"])));
    assert_eq!(app.contexts.len(), 2);
    assert_eq!(app.contexts[1].ctx.name, "b");
    assert!(app.contexts[0].ctx.is_active);
    assert_eq!(app.ctx_selected, 1);
    app.ctx_selected = 0;
    app.refresh_contexts(Ok(kubeconfig(&["a", "b", "c"])));
    assert_eq!(app.ctx_selected, 0);
}

#[test]
fn unreadable_kubeconfig_leaves_no_contexts() {
    let mut app = make_app_with_contexts(3);
    app.ctx_selected = 2;
    app.refresh_contexts(Err("gone".into()));
    assert!(app.contexts.is_empty());
    assert_eq!(app.ctx_selected, 0);
}

// ── Opening and copying ─────────────────────────────────

fn toast_of(app: &App) -> (String, bool) {
    let toast = app.toast.as_ref().unwrap();
    (toast.message.clone(), toast.is_error)
}

#[test]
fn opening_and_copying_are_told() {
    let mut app = make_app_with_services();
    app.open_in_browser(Ok(()));
    assert_eq!(toast_of(&app), ("Opened http://nginx.default".to_string(), false));
    app.open_in_browser(Err("no browser".into()));
    assert_eq!(toast_of(&app), ("Browser error: no browser".to_string(), true));
    app.copy_url(Ok(()));
    assert_eq!(toast_of(&app), ("Copied: http://nginx.default".to_string(), false));
    app.copy_url(Err("no display".into()));
    assert_eq!(toast_of(&app), ("Clipboard: no display".to_string(), true));
}

#[test]
fn nothing_to_open_is_not_told() {
    let mut app = App::new();
    app.open_in_browser(Ok(()));
    app.copy_url(Err("x".into()));
    assert!(app.toast.is_none());
}

#[test]
fn service_without_ports_or_entry_has_no_url() {
    let mut app = make_app_with_services();
    app.svc_selected = 1;
    app.services[1].ports.clear();
    assert_eq!(app.selected_url(), None);
}
