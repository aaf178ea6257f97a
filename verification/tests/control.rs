use portkube::control::{
    handle_ctx_key, handle_key, handle_normal_key, handle_svc_key, process_event, shut_down,
    takes_step, tick,
    KeyCode,
};
use portkube::kube::context::KubeContext;
use portkube::kube::services::{KubeService, ServicePort};
use portkube::network::command::Platform;
use portkube::network::ipv4::Ipv4Addr;
use portkube::network::service_map::ServiceEntry;
use portkube::network::tun::TunDevice;
use portkube::tui::app::{
    Action, App, AppEvent, ClientId, ContextRow, Mode, Screen, TaskId,
};

fn make_ctx_app(n: usize) -> App {
    let mut app = App::new();
    app.screen = Screen::Contexts;
    app.contexts = (0..n)
        .map(|i| ContextRow {
            ctx: KubeContext {
                name: format!("ctx-{i}"),
                cluster: format!("cluster-{i}"),
                namespace: "default".into(),
                user: format!("user-{i}"),
                is_active: i == 0,
            },
        })
        .collect();
    app
}

fn make_svc_app(n: usize) -> App {
    let mut app = App::new();
    app.screen = Screen::Services;
    app.services = (0..n)
        .map(|i| KubeService {
            name: format!("svc-{i}"),
            namespace: "default".into(),
            service_type: "ClusterIP".into(),
            cluster_ip: format!("10.96.0.{i}"),
            ports: vec![ServicePort {
                port: 80,
                target_port: "80".into(),
                protocol: "TCP".into(),
                name: None,
            }],
        })
        .collect();
    app
}

// ── handle_normal_key routing ───────────────────────────

#[test]
fn test_normal_key_routes_to_ctx() {
    let mut app = make_ctx_app(3);
    let _ = handle_normal_key(&mut app, KeyCode::Char('q'));
    assert!(app.should_quit);
}

#[test]
fn test_normal_key_routes_to_svc() {
    let mut app = make_svc_app(3);
    let _ = handle_normal_key(&mut app, KeyCode::Char('q'));
    assert!(app.should_quit);
}

#[test]
fn test_normal_key_splash_noop() {
    let mut app = App::new(); // Screen::Splash
    let _ = handle_normal_key(&mut app, KeyCode::Char('q'));
    assert!(!app.should_quit); // splash ignores keys
}

// ── handle_ctx_key ──────────────────────────────────────

#[test]
fn test_ctx_key_quit() {
    let mut app = make_ctx_app(3);
    let _ = handle_ctx_key(&mut app, KeyCode::Char('q'));
    assert!(app.should_quit);
}

#[test]
fn test_ctx_key_nav_down() {
    let mut app = make_ctx_app(3);
    let _ = handle_ctx_key(&mut app, KeyCode::Down);
    assert_eq!(app.ctx_selected, 1);
    let _ = handle_ctx_key(&mut app, KeyCode::Down);
    assert_eq!(app.ctx_selected, 2);
    let _ = handle_ctx_key(&mut app, KeyCode::Down);
    assert_eq!(app.ctx_selected, 2); // stays at end
}

#[test]
fn test_ctx_key_nav_up() {
    let mut app = make_ctx_app(3);
    app.ctx_selected = 2;
    let _ = handle_ctx_key(&mut app, KeyCode::Up);
    assert_eq!(app.ctx_selected, 1);
    let _ = handle_ctx_key(&mut app, KeyCode::Up);
    assert_eq!(app.ctx_selected, 0);
    let _ = handle_ctx_key(&mut app, KeyCode::Up);
    assert_eq!(app.ctx_selected, 0); // stays at start
}

#[test]
fn test_ctx_key_j_k_navigation() {
    let mut app = make_ctx_app(3);
    let _ = handle_ctx_key(&mut app, KeyCode::Char('j'));
    assert_eq!(app.ctx_selected, 1);
    let _ = handle_ctx_key(&mut app, KeyCode::Char('k'));
    assert_eq!(app.ctx_selected, 0);
}

#[test]
fn test_ctx_key_home() {
    let mut app = make_ctx_app(5);
    app.ctx_selected = 3;
    let _ = handle_ctx_key(&mut app, KeyCode::Home);
    assert_eq!(app.ctx_selected, 0);
}

#[test]
fn test_ctx_key_end() {
    let mut app = make_ctx_app(5);
    let _ = handle_ctx_key(&mut app, KeyCode::End);
    assert_eq!(app.ctx_selected, 4);
}

#[test]
#[allow(non_snake_case)]
fn test_ctx_key_g_G_navigation() {
    let mut app = make_ctx_app(5);
    app.ctx_selected = 2;
    let _ = handle_ctx_key(&mut app, KeyCode::Char('g'));
    assert_eq!(app.ctx_selected, 0);
    let _ = handle_ctx_key(&mut app, KeyCode::Char('G'));
    assert_eq!(app.ctx_selected, 4);
}

#[test]
fn test_ctx_key_refresh() {
    let mut app = make_ctx_app(2);
    let _ = handle_ctx_key(&mut app, KeyCode::Char('r'));
    assert!(app.toast.is_some());
    assert_eq!(app.toast.as_ref().unwrap().message, "Refreshed");
}

#[test]
fn test_ctx_key_enter_triggers_connect() {
    let mut app = make_ctx_app(2);
    let _ = handle_ctx_key(&mut app, KeyCode::Enter);
    assert_eq!(app.mode, Mode::Connecting);
    assert_eq!(app.connected_context, Some("ctx-0".into()));
}

#[test]
fn test_ctx_key_unknown_noop() {
    let mut app = make_ctx_app(2);
    let _ = handle_ctx_key(&mut app, KeyCode::Char('x'));
    assert!(!app.should_quit);
    assert_eq!(app.ctx_selected, 0);
}

// ── handle_svc_key ──────────────────────────────────────

#[test]
fn test_svc_key_quit() {
    let mut app = make_svc_app(3);
    let _ = handle_svc_key(&mut app, KeyCode::Char('q'));
    assert!(app.should_quit);
}

#[test]
fn test_svc_key_nav_down() {
    let mut app = make_svc_app(3);
    let _ = handle_svc_key(&mut app, KeyCode::Down);
    assert_eq!(app.svc_selected, 1);
    let _ = handle_svc_key(&mut app, KeyCode::Down);
    assert_eq!(app.svc_selected, 2);
    let _ = handle_svc_key(&mut app, KeyCode::Down);
    assert_eq!(app.svc_selected, 2); // stays at end
}

#[test]
fn test_svc_key_nav_up() {
    let mut app = make_svc_app(3);
    app.svc_selected = 2;
    let _ = handle_svc_key(&mut app, KeyCode::Up);
    assert_eq!(app.svc_selected, 1);
}

#[test]
fn test_svc_key_home_end() {
    let mut app = make_svc_app(5);
    app.svc_selected = 2;
    let _ = handle_svc_key(&mut app, KeyCode::Home);
    assert_eq!(app.svc_selected, 0);
    let _ = handle_svc_key(&mut app, KeyCode::End);
    assert_eq!(app.svc_selected, 4);
}

#[test]
fn test_svc_key_disconnect_esc() {
    let mut app = make_svc_app(2);
    app.connected_context = Some("dev".into());
    let _ = handle_svc_key(&mut app, KeyCode::Esc);
    assert_eq!(app.screen, Screen::Contexts);
    assert!(app.connected_context.is_none());
    assert!(app.services.is_empty());
    assert!(app.service_entries.is_empty());
}

#[test]
fn test_svc_key_disconnect_backspace() {
    let mut app = make_svc_app(2);
    app.connected_context = Some("dev".into());
    let _ = handle_svc_key(&mut app, KeyCode::Backspace);
    assert_eq!(app.screen, Screen::Contexts);
    assert!(app.toast.is_some());
    assert_eq!(app.toast.as_ref().unwrap().message, "Disconnected");
}

#[test]
fn test_svc_key_refresh_no_client_noop() {
    let mut app = make_svc_app(2);
    let _ = handle_svc_key(&mut app, KeyCode::Char('r'));
    assert_eq!(app.services.len(), 2);
}

// ── Navigation edge cases ───────────────────────────────

#[test]
fn test_ctx_nav_empty_list() {
    let mut app = make_ctx_app(0);
    let _ = handle_ctx_key(&mut app, KeyCode::Down);
    assert_eq!(app.ctx_selected, 0);
    let _ = handle_ctx_key(&mut app, KeyCode::End);
    assert_eq!(app.ctx_selected, 0);
}

#[test]
fn test_svc_nav_empty_list() {
    let mut app = make_svc_app(0);
    let _ = handle_svc_key(&mut app, KeyCode::Down);
    assert_eq!(app.svc_selected, 0);
}

// ── Actions of keys ─────────────────────────────────────

#[test]
fn keys_ask_for_what_they_need() {
    let mut app = make_ctx_app(2);
    assert!(matches!(handle_ctx_key(&mut app, KeyCode::Char('r')), Action::RefreshContexts));
    match handle_ctx_key(&mut app, KeyCode::Enter) {
        Action::Connect { context } => assert_eq!(context, "ctx-0"),
        other => panic!("{:?}", other),
    }
    let mut empty = make_ctx_app(0);
    assert!(matches!(handle_ctx_key(&mut empty, KeyCode::Enter), Action::Nothing));
    assert_eq!(empty.mode, Mode::Normal);

    let mut app = make_svc_app(2);
    app.svc_selected = 1;
    for key in [KeyCode::Enter, KeyCode::Char('o')] {
        match handle_svc_key(&mut app, key) {
            Action::OpenUrl { url } => assert_eq!(url, "http://svc-1.default:80"),
            other => panic!("{:?}", other),
        }
    }
    match handle_svc_key(&mut app, KeyCode::Char('y')) {
        Action::CopyUrl { url } => assert_eq!(url, "http://svc-1.default:80"),
        other => panic!("{:?}", other),
    }
    assert!(matches!(handle_svc_key(&mut app, KeyCode::Char('r')), Action::Nothing));
    app.client = Some(ClientId { id: 9 });
    match handle_svc_key(&mut app, KeyCode::Char('r')) {
        Action::ListServices { client, refresh } => {
            assert_eq!(client, ClientId { id: 9 });
            assert!(refresh);
        }
        other => panic!("{:?}", other),
    }
    assert!(matches!(handle_svc_key(&mut app, KeyCode::Other), Action::Nothing));
}

#[test]
fn disconnecting_hands_everything_back() {
    let mut app = make_svc_app(2);
    app.client = Some(ClientId { id: 1 });
    app.tun_device_name = Some("utun4".into());
    app.service_cidr = Some("10.96.0.0/12".into());
    app.bg_handles = vec![TaskId { id: 1 }, TaskId { id: 2 }];
    app.alias_ips = vec![Ipv4Addr::new(10, 96, 0, 1)];
    match handle_svc_key(&mut app, KeyCode::Esc) {
        Action::Disconnect { tasks, aliases } => {
            assert_eq!(tasks, vec![TaskId { id: 1 }, TaskId { id: 2 }]);
            assert_eq!(aliases, vec![Ipv4Addr::new(10, 96, 0, 1)]);
        }
        other => panic!("{:?}", other),
    }
    assert!(app.bg_handles.is_empty());
    assert!(app.alias_ips.is_empty());
    assert!(app.client.is_none());
    assert!(app.tun_device_name.is_none());
    assert!(app.service_cidr.is_none());
}

// ── Key presses ─────────────────────────────────────────

#[test]
fn ctrl_c_quits_everywhere() {
    let mut connecting = make_ctx_app(1);
    connecting.mode = Mode::Connecting;
    for mut app in [App::new(), make_ctx_app(1), make_svc_app(1), connecting] {
        let _ = handle_key(&mut app, KeyCode::Char('c'), true);
        assert!(app.should_quit);
    }
    let mut app = make_ctx_app(1);
    let _ = handle_key(&mut app, KeyCode::Char('c'), false);
    assert!(!app.should_quit);
}

#[test]
fn splash_takes_no_keys() {
    let mut app = App::new();
    let _ = handle_key(&mut app, KeyCode::Char('q'), false);
    let _ = handle_key(&mut app, KeyCode::Esc, false);
    assert!(!app.should_quit);
}

#[test]
fn connecting_can_only_be_quit() {
    let mut app = make_ctx_app(3);
    app.mode = Mode::Connecting;
    let _ = handle_key(&mut app, KeyCode::Down, false);
    assert_eq!(app.ctx_selected, 0);
    let _ = handle_key(&mut app, KeyCode::Esc, false);
    assert!(app.should_quit);
    let mut app = make_ctx_app(3);
    app.mode = Mode::Connecting;
    let _ = handle_key(&mut app, KeyCode::Char('q'), false);
    assert!(app.should_quit);
}

#[test]
fn normal_keys_reach_their_screen() {
    let mut app = make_svc_app(3);
    let _ = handle_key(&mut app, KeyCode::Char('j'), false);
    assert_eq!(app.svc_selected, 1);
    assert_eq!(app.ctx_selected, 0);
}

// ── Ticks ───────────────────────────────────────────────

#[test]
fn toast_lasts_thirty_ticks() {
    let mut app = make_ctx_app(1);
    app.show_toast("hello", false);
    for left in (0..30).rev() {
        tick(&mut app);
        assert_eq!(app.toast.as_ref().unwrap().tick, left);
    }
    tick(&mut app);
    assert!(app.toast.is_none());
    tick(&mut app);
    assert!(app.toast.is_none());
}

#[test]
fn spinner_turns_only_while_waiting() {
    let mut app = App::new();
    tick(&mut app);
    assert_eq!(app.splash.spinner_frame, 1);
    let mut app = make_ctx_app(1);
    tick(&mut app);
    assert_eq!(app.splash.spinner_frame, 0);
    app.mode = Mode::Connecting;
    for _ in 0..12 {
        tick(&mut app);
    }
    assert_eq!(app.splash.spinner_frame, 2);
}

// ── Background events ───────────────────────────────────

fn context(name: &str) -> KubeContext {
    KubeContext {
        name: name.into(),
        cluster: "c".into(),
        namespace: "default".into(),
        user: "u".into(),
        is_active: false,
    }
}

#[test]
fn whole_connection_ends_on_the_service_list() {
    let mut app = App::new();
    let loading = AppEvent::Toast { msg: "Loading kubeconfig...".into(), is_error: false };
    let _ = process_event(&mut app, loading);
    assert_eq!(app.toast.as_ref().unwrap().message, "Loading kubeconfig...");
    let contexts = vec![context("dev"), context("prod")];
    let _ = process_event(&mut app, AppEvent::ContextsLoaded { contexts });
    assert_eq!(app.screen, Screen::Contexts);
    assert_eq!(app.splash.message, "2 contexts loaded");
    assert_eq!(app.contexts[1].ctx.name, "prod");

    let _ = handle_key(&mut app, KeyCode::Enter, false);
    match process_event(&mut app, AppEvent::Connected { client: ClientId { id: 3 } }) {
        Action::ListServices { client, refresh } => {
            assert_eq!(client, ClientId { id: 3 });
            assert!(!refresh);
        }
        other => panic!("{:?}", other),
    }
    assert_eq!(app.splash.message, "Discovering services...");

    let services = make_svc_app(3).services;
    app.svc_selected = 2;
    match process_event(&mut app, AppEvent::ServicesLoaded { services }) {
        Action::SetUpNetwork { client, services } => {
            assert_eq!(client, ClientId { id: 3 });
            assert_eq!(services.len(), 3);
        }
        other => panic!("{:?}", other),
    }
    assert_eq!(app.svc_selected, 0);
    assert_eq!(app.splash.message, "3 services found — setting up network...");

    let _ = process_event(
        &mut app,
        AppEvent::TunReady { device_name: "utun4".into(), service_cidr: "10.0.0.0/8".into() },
    );
    assert_eq!(app.splash.message, "Network device utun4 ready");
    assert_eq!(app.tun_device_name, Some("utun4".to_string()));
    assert_eq!(app.service_cidr, Some("10.0.0.0/8".to_string()));

    let entries = vec![ServiceEntry {
        name: "svc-0".into(),
        namespace: "default".into(),
        port: 80,
        cluster_ip: Ipv4Addr::new(10, 96, 0, 0),
    }];
    let _ = process_event(&mut app, AppEvent::ServiceMapBuilt { entries });
    assert_eq!(app.splash.message, "Starting service proxies...");
    assert_eq!(app.splash.current_step, 5);
    assert_eq!(app.service_entries.len(), 1);

    let _ = process_event(&mut app, AppEvent::BgHandle { handle: TaskId { id: 8 } });
    let _ = process_event(&mut app, AppEvent::AliasAdded { ip: Ipv4Addr::new(10, 96, 0, 0) });
    assert_eq!(app.bg_handles, vec![TaskId { id: 8 }]);
    assert_eq!(app.alias_ips, vec![Ipv4Addr::new(10, 96, 0, 0)]);

    let skipped = AppEvent::Toast { msg: "skip svc-1: denied".into(), is_error: false };
    let _ = process_event(&mut app, skipped);
    assert_eq!(app.mode, Mode::Connecting);
    assert_eq!(app.splash.message, "skip svc-1: denied");

    let msg = "Ready — 1 service(s), use <svc>.<ns> in browser";
    let _ = process_event(&mut app, AppEvent::Toast { msg: msg.into(), is_error: false });
    assert_eq!(app.mode, Mode::Normal);
    assert_eq!(app.screen, Screen::Services);
    assert_eq!(app.splash.message, "Initializing...");
    assert_eq!(app.toast.as_ref().unwrap().message, msg);
    assert!(!app.toast.as_ref().unwrap().is_error);
}

#[test]
fn each_closing_word_ends_connecting() {
    for msg in ["Ready", "3 proxied", "use <svc>"] {
        let mut app = make_ctx_app(1);
        app.mode = Mode::Connecting;
        let _ = process_event(&mut app, AppEvent::Toast { msg: msg.into(), is_error: false });
        assert_eq!(app.mode, Mode::Normal);
        assert_eq!(app.screen, Screen::Services);
    }
    let mut app = make_ctx_app(1);
    app.mode = Mode::Connecting;
    let _ = process_event(&mut app, AppEvent::Toast { msg: "Ready".into(), is_error: true });
    assert_eq!(app.mode, Mode::Connecting);
    assert!(app.toast.as_ref().unwrap().is_error);
}

#[test]
fn error_ends_connecting_where_it_is() {
    let mut app = make_ctx_app(1);
    let _ = app.connect_async();
    let _ = process_event(&mut app, AppEvent::Error { msg: "Connection failed: x".into() });
    assert_eq!(app.mode, Mode::Normal);
    assert_eq!(app.screen, Screen::Contexts);
    assert_eq!(app.splash.current_step, 0);
    assert_eq!(app.toast.as_ref().unwrap().message, "Connection failed: x");
    assert!(app.toast.as_ref().unwrap().is_error);
}

#[test]
fn services_without_a_client_set_up_nothing() {
    let mut app = make_svc_app(0);
    let services = make_svc_app(1).services;
    assert!(matches!(
        process_event(&mut app, AppEvent::ServicesLoaded { services }),
        Action::Nothing
    ));
    assert_eq!(app.services.len(), 1);
}

#[test]
fn quitting_is_final() {
    let mut app = make_ctx_app(2);
    app.should_quit = true;
    let _ = handle_key(&mut app, KeyCode::Down, false);
    tick(&mut app);
    let _ = process_event(&mut app, AppEvent::Error { msg: "x".into() });
    assert!(app.should_quit);
}

// ── Leaving ─────────────────────────────────────────────

#[test]
fn shutting_down_undoes_everything() {
    let mut app = make_svc_app(1);
    app.bg_handles = vec![TaskId { id: 5 }];
    app.alias_ips = vec![Ipv4Addr::new(10, 0, 0, 1)];
    app.tun_device = Some(TunDevice {
        name: "tun0".into(),
        fd: 3,
        service_cidr: "10.0.0.0/8".into(),
    });
    let down = shut_down(&mut app, Platform::Linux);
    assert_eq!(down.tasks, vec![TaskId { id: 5 }]);
    let lines: Vec<String> = down.commands.iter().map(|c| c.line()).collect();
    assert_eq!(
        lines,
        vec!["ip addr del 10.0.0.1/32 dev lo", "ip route del 10.0.0.0/8 via 198.18.0.2"]
    );
    assert!(app.bg_handles.is_empty());
    assert!(shut_down(&mut App::new(), Platform::MacOs).commands.is_empty());
}

#[test]
fn only_some_events_take_a_step_of_the_splash() {
    let mut app = make_ctx_app(1);
    let toast = |msg: &str, is_error: bool| AppEvent::Toast { msg: msg.into(), is_error };
    assert!(takes_step(&app, &AppEvent::ContextsLoaded { contexts: vec![] }));
    assert!(takes_step(&app, &AppEvent::Connected { client: ClientId { id: 1 } }));
    assert!(!takes_step(&app, &AppEvent::BgHandle { handle: TaskId { id: 1 } }));
    assert!(!takes_step(&app, &AppEvent::AliasAdded { ip: Ipv4Addr::new(1, 2, 3, 4) }));
    assert!(!takes_step(&app, &AppEvent::Error { msg: "x".into() }));
    assert!(!takes_step(&app, &toast("skip a: b", false)));
    app.mode = Mode::Connecting;
    assert!(takes_step(&app, &toast("skip a: b", false)));
    assert!(!takes_step(&app, &toast("skip a: b", true)));
    assert!(!takes_step(&app, &toast("Ready", false)));

    app.splash.current_step = usize::MAX;
    let _ = process_event(&mut app, toast("Ready", false));
    assert_eq!(app.splash.current_step, 0);
}
