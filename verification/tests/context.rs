use portkube::kube::context::{
    contexts_from_kubeconfig, list_contexts, Context, Kubeconfig, NamedContext,
};

fn make_kubeconfig(
    contexts: Vec<NamedContext>,
    current: Option<String>,
) -> Kubeconfig {
    Kubeconfig {
        current_context: current,
        contexts,
    }
}

fn named_ctx(name: &str, cluster: &str, ns: Option<&str>, user: Option<&str>) -> NamedContext {
    NamedContext {
        name: name.into(),
        context: Some(Context {
            cluster: cluster.into(),
            namespace: ns.map(|s| s.into()),
            user: user.map(|s| s.into()),
        }),
    }
}

#[test]
fn test_contexts_from_kubeconfig_basic() {
    let cfg = make_kubeconfig(
        vec![named_ctx("dev", "dev-cluster", Some("default"), Some("dev-user"))],
        Some("dev".into()),
    );
    let ctxs = contexts_from_kubeconfig(&cfg);
    assert_eq!(ctxs.len(), 1);
    assert_eq!(ctxs[0].name, "dev");
    assert_eq!(ctxs[0].cluster, "dev-cluster");
    assert_eq!(ctxs[0].namespace, "default");
    assert_eq!(ctxs[0].user, "dev-user");
    assert!(ctxs[0].is_active);
}

#[test]
fn test_contexts_active_flag() {
    let cfg = make_kubeconfig(
        vec![
            named_ctx("dev", "c1", Some("ns1"), Some("u1")),
            named_ctx("prod", "c2", Some("ns2"), Some("u2")),
        ],
        Some("prod".into()),
    );
    let ctxs = contexts_from_kubeconfig(&cfg);
    assert!(!ctxs[0].is_active);
    assert!(ctxs[1].is_active);
}

#[test]
fn test_contexts_defaults_when_fields_missing() {
    let cfg = make_kubeconfig(
        vec![NamedContext {
            name: "minimal".into(),
            context: Some(Context {
                cluster: "c".into(),
                namespace: None,
                user: None,
                }),
        }],
        None,
    );
    let ctxs = contexts_from_kubeconfig(&cfg);
    assert_eq!(ctxs[0].namespace, "default");
    assert_eq!(ctxs[0].user, "-");
    assert!(!ctxs[0].is_active);
}

#[test]
fn test_contexts_no_context_body() {
    let cfg = make_kubeconfig(
        vec![NamedContext { name: "empty".into(), context: None }],
        None,
    );
    let ctxs = contexts_from_kubeconfig(&cfg);
    assert_eq!(ctxs[0].cluster, "-");
    assert_eq!(ctxs[0].namespace, "default");
    assert_eq!(ctxs[0].user, "-");
}

#[test]
fn test_contexts_empty_kubeconfig() {
    let cfg = make_kubeconfig(vec![], None);
    let ctxs = contexts_from_kubeconfig(&cfg);
    assert!(ctxs.is_empty());
}

#[test]
fn test_contexts_no_current_context() {
    let cfg = make_kubeconfig(
        vec![named_ctx("dev", "c1", Some("ns"), Some("u"))],
        None,
    );
    let ctxs = contexts_from_kubeconfig(&cfg);
    assert!(!ctxs[0].is_active);
}

#[test]
fn unreadable_kubeconfig_is_an_error() {
    assert_eq!(list_contexts(Err("no file".into())).unwrap_err(), "no file");
}

#[test]
fn readable_kubeconfig_lists_its_contexts() {
    let cfg = make_kubeconfig(vec![named_ctx("dev", "c1", None, None)], Some("dev".into()));
    let ctxs = list_contexts(Ok(cfg)).unwrap();
    assert_eq!(ctxs.len(), 1);
    assert_eq!(ctxs[0].name, "dev");
    assert_eq!(ctxs[0].namespace, "default");
}

#[test]
fn only_the_current_context_is_active() {
    let cfg = make_kubeconfig(
        vec![
            named_ctx("a", "c1", None, None),
            named_ctx("b", "c2", None, None),
            named_ctx("c", "c3", None, None),
        ],
        Some("b".into()),
    );
    let ctxs = contexts_from_kubeconfig(&cfg);
    let active: Vec<&str> = ctxs.iter().filter(|c| c.is_active).map(|c| c.name.as_str()).collect();
    assert_eq!(active, vec!["b"]);
}
