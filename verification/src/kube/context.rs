//! Contexts of a kubeconfig.
use crate::kube::services::{self, text_or};
use crate::text::push_viewed;
use vstd::prelude::*;

verus! {

// ── What a kubeconfig holds ─────────────────────────────

/// The body of a context entry.
#[derive(Debug)]
pub struct Context {
    pub cluster: String,
    pub namespace: Option<String>,
    pub user: Option<String>,
}

pub struct ContextView {
    pub cluster: Seq<char>,
    pub namespace: Option<Seq<char>>,
    pub user: Option<Seq<char>>,
}

impl View for Context {
    type V = ContextView;

    open spec fn view(&self) -> ContextView {
        ContextView {
            cluster: self.cluster@,
            namespace: self.namespace.deep_view(),
            user: self.user.deep_view(),
        }
    }
}

impl DeepView for Context {
    type V = ContextView;

    open spec fn deep_view(&self) -> ContextView {
        self@
    }
}

/// A named context entry, whose body may be missing.
#[derive(Debug)]
pub struct NamedContext {
    pub name: String,
    pub context: Option<Context>,
}

pub struct NamedContextView {
    pub name: Seq<char>,
    pub context: Option<ContextView>,
}

impl View for NamedContext {
    type V = NamedContextView;

    open spec fn view(&self) -> NamedContextView {
        NamedContextView { name: self.name@, context: self.context.deep_view() }
    }
}

impl DeepView for NamedContext {
    type V = NamedContextView;

    open spec fn deep_view(&self) -> NamedContextView {
        self@
    }
}

/// The part of a kubeconfig that says which contexts there are.
#[derive(Debug)]
pub struct Kubeconfig {
    pub current_context: Option<String>,
    pub contexts: Vec<NamedContext>,
}

pub struct KubeconfigView {
    pub current_context: Option<Seq<char>>,
    pub contexts: Seq<NamedContextView>,
}

impl View for Kubeconfig {
    type V = KubeconfigView;

    open spec fn view(&self) -> KubeconfigView {
        KubeconfigView {
            current_context: self.current_context.deep_view(),
            contexts: self.contexts.deep_view(),
        }
    }
}

// ── Contexts with every gap filled ──────────────────────

#[derive(Debug)]
pub struct KubeContext {
    pub name: String,
    pub cluster: String,
    pub namespace: String,
    pub user: String,
    pub is_active: bool,
}

pub struct KubeContextView {
    pub name: Seq<char>,
    pub cluster: Seq<char>,
    pub namespace: Seq<char>,
    pub user: Seq<char>,
    pub is_active: bool,
}

impl View for KubeContext {
    type V = KubeContextView;

    open spec fn view(&self) -> KubeContextView {
        KubeContextView {
            name: self.name@,
            cluster: self.cluster@,
            namespace: self.namespace@,
            user: self.user@,
            is_active: self.is_active,
        }
    }
}

impl DeepView for KubeContext {
    type V = KubeContextView;

    open spec fn deep_view(&self) -> KubeContextView {
        self@
    }
}

impl Clone for KubeContext {
    fn clone(&self) -> (res: KubeContext)
        ensures
            res@ == self@,
    {
        KubeContext {
            name: self.name.clone(),
            cluster: self.cluster.clone(),
            namespace: self.namespace.clone(),
            user: self.user.clone(),
            is_active: self.is_active,
        }
    }
}

/// A context entry with its gaps filled; it is active when it carries the current name. Without a
/// current context the current name is empty.
pub open spec fn context_of(
    named: NamedContextView,
    current: Option<Seq<char>>,
) -> KubeContextView {
    KubeContextView {
        name: named.name,
        cluster: match named.context {
            Some(c) => c.cluster,
            None => "-"@,
        },
        namespace: match named.context {
            Some(c) => services::or_else(c.namespace, "default"@),
            None => "default"@,
        },
        user: match named.context {
            Some(c) => services::or_else(c.user, "-"@),
            None => "-"@,
        },
        is_active: named.name == services::or_else(current, Seq::empty()),
    }
}

/// One context for each entry of the kubeconfig, in order.
pub open spec fn contexts_of(config: KubeconfigView) -> Seq<KubeContextView> {
    config.contexts.map_values(|named: NamedContextView| context_of(named, config.current_context))
}

fn fill_context(named: &NamedContext, current: &String) -> (res: KubeContext)
    ensures
        res@ == context_of(named@, Some(current@)),
{
    let is_active = named.name == *current;
    match &named.context {
        Some(c) => KubeContext {
            name: named.name.clone(),
            cluster: c.cluster.clone(),
            namespace: text_or(&c.namespace, "default"),
            user: text_or(&c.user, "-"),
            is_active,
        },
        None => KubeContext {
            name: named.name.clone(),
            cluster: "-".to_string(),
            namespace: "default".to_string(),
            user: "-".to_string(),
            is_active,
        },
    }
}

/// Extract contexts from a parsed kubeconfig (testable without filesystem).
pub fn contexts_from_kubeconfig(kubeconfig: &Kubeconfig) -> (res: Vec<KubeContext>)
    ensures
        res.deep_view() == contexts_of(kubeconfig@),
{
    let current = match &kubeconfig.current_context {
        Some(name) => name.clone(),
        None => String::new(),
    };
    let mut res: Vec<KubeContext> = Vec::new();
    let mut i: usize = 0;
    let ghost all = contexts_of(kubeconfig@);
    assert(res.deep_view() =~= all.take(0));
    while i < kubeconfig.contexts.len()
        invariant
            i <= kubeconfig.contexts@.len(),
            current@ == services::or_else(kubeconfig@.current_context, Seq::empty()),
            all == contexts_of(kubeconfig@),
            res.deep_view() == all.take(i as int),
        decreases kubeconfig.contexts@.len() - i,
    {
        let context = fill_context(&kubeconfig.contexts[i], &current);
        push_viewed(&mut res, context);
        assert(all.take(i as int).push(all[i as int]) =~= all.take(i + 1));
        i += 1;
    }
    assert(all.take(i as int) =~= all);
    res
}

/// The contexts of the kubeconfig that was read; a failed read stays that failure.
pub fn list_contexts(read: Result<Kubeconfig, String>) -> (res: Result<Vec<KubeContext>, String>)
    ensures
        read matches Ok(config) ==> res matches Ok(contexts) && contexts.deep_view() == contexts_of(
            config@,
        ),
        read matches Err(e) ==> res == Err::<Vec<KubeContext>, String>(e),
{
    match read {
        Ok(kubeconfig) => Ok(contexts_from_kubeconfig(&kubeconfig)),
        Err(e) => Err(e),
    }
}

/// When no two entries share a name, at most one context is active.
pub proof fn law_at_most_one_active(config: KubeconfigView, i: int, j: int)
    requires
        forall|m: int, n: int|
            0 <= m < n < config.contexts.len() ==> (#[trigger] config.contexts[m]).name != (
            #[trigger] config.contexts[n]).name,
        0 <= i < config.contexts.len(),
        0 <= j < config.contexts.len(),
        contexts_of(config)[i].is_active,
        contexts_of(config)[j].is_active,
    ensures
        i == j,
{
}

/// Every entry of the kubeconfig gives one context, in its place, with its own name. The context is
/// active exactly where that name is the current one. Its cluster, namespace and user are those of the
/// entry; `-`, `default` and `-` stand for what is missing.
pub proof fn law_contexts_mirror_kubeconfig(config: KubeconfigView, i: int)
    requires
        0 <= i < config.contexts.len(),
    ensures
        contexts_of(config).len() == config.contexts.len(),
        ({
            let named = config.contexts[i];
            let ctx = contexts_of(config)[i];
            &&& ctx.name == named.name
            &&& config.current_context matches Some(current) ==> (ctx.is_active <==> named.name
                == current)
            &&& config.current_context is None ==> (ctx.is_active <==> named.name.len() == 0)
            &&& named.context matches Some(c) ==> {
                &&& ctx.cluster == c.cluster
                &&& c.namespace matches Some(namespace) ==> ctx.namespace == namespace
                &&& c.namespace is None ==> ctx.namespace == "default"@
                &&& c.user matches Some(user) ==> ctx.user == user
                &&& c.user is None ==> ctx.user == "-"@
            }
            &&& named.context is None ==> ctx.cluster == "-"@ && ctx.namespace == "default"@
                && ctx.user == "-"@
        }),
{
    if config.current_context is None && config.contexts[i].name.len() == 0 {
        assert(config.contexts[i].name =~= Seq::empty());
    }
}

} // verus!
