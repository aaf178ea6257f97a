//! Setting the network up in the background: the device, a proxy for each service, the resolver and
//! DNS, one step after the other.
use crate::kube::services::{KubeService, KubeServiceView};
use crate::network::dns::{self, QueryActionView};
use crate::network::ipv4::Ipv4Addr;
use crate::network::service_map::{
    self, build_service_map, ServiceEntry, ServiceEntryView, ServiceMap,
};
use crate::text::{self, concat_text, push_digits, push_viewed, same_text, to_chars};
use crate::tui::app::{AppEvent, AppEventView, TaskId};
use vstd::prelude::*;

verus! {

// ── Namespaces ──────────────────────────────────────────

/// System namespaces: proxying kube-dns and the like breaks networking.
pub open spec fn system_namespace(namespace: Seq<char>) -> bool {
    namespace == "kube-system"@ || namespace == "kube-public"@ || namespace == "kube-node-lease"@
}

/// Whether a namespace belongs to the system.
pub fn is_system_namespace(namespace: &str) -> (res: bool)
    ensures
        res == system_namespace(namespace@),
{
    same_text(namespace, "kube-system") || same_text(namespace, "kube-public") || same_text(
        namespace,
        "kube-node-lease",
    )
}

/// `a` stands before `b` in the order of code points, position by position.
pub open spec fn before(a: Seq<char>, b: Seq<char>) -> bool
    decreases a.len(),
{
    if b.len() == 0 {
        false
    } else if a.len() == 0 {
        true
    } else if a[0] != b[0] {
        a[0] < b[0]
    } else {
        before(a.skip(1), b.skip(1))
    }
}

proof fn lemma_before_total(a: Seq<char>, b: Seq<char>)
    ensures
        before(a, b) || before(b, a) || a == b,
        !(before(a, b) && before(b, a)),
        before(a, b) ==> a != b,
    decreases a.len(),
{
    if a.len() > 0 && b.len() > 0 {
        lemma_before_total(a.skip(1), b.skip(1));
        if a[0] == b[0] && a.skip(1) == b.skip(1) {
            assert(a =~= seq![a[0]] + a.skip(1));
            assert(b =~= seq![b[0]] + b.skip(1));
        }
    } else if a.len() == 0 && b.len() == 0 {
        assert(a =~= b);
    }
}

proof fn lemma_before_transitive(a: Seq<char>, b: Seq<char>, c: Seq<char>)
    requires
        before(a, b),
        before(b, c),
    ensures
        before(a, c),
    decreases a.len(),
{
    if a.len() > 0 && b.len() > 0 && c.len() > 0 && a[0] == b[0] && b[0] == c[0] {
        lemma_before_transitive(a.skip(1), b.skip(1), c.skip(1));
    }
}

/// Whether `a` stands before `b`.
pub fn text_before(a: &str, b: &str) -> (res: bool)
    ensures
        res == before(a@, b@),
{
    let x = to_chars(a);
    let y = to_chars(b);
    let mut i: usize = 0;
    assert(x@.skip(0) =~= x@);
    assert(y@.skip(0) =~= y@);
    while i < x.len() && i < y.len()
        invariant
            i <= x@.len(),
            i <= y@.len(),
            before(x@, y@) == before(x@.skip(i as int), y@.skip(i as int)),
            x@ == a@,
            y@ == b@,
        decreases x@.len() - i,
    {
        assert(x@.skip(i as int)[0] == x@[i as int]);
        assert(y@.skip(i as int)[0] == y@[i as int]);
        if x[i] != y[i] {
            return x[i] < y[i];
        }
        assert(x@.skip(i as int).skip(1) =~= x@.skip(i + 1));
        assert(y@.skip(i as int).skip(1) =~= y@.skip(i + 1));
        i += 1;
    }
    i < y.len()
}

/// Each name stands before all that follow it.
pub open spec fn ascending(names: Seq<Seq<char>>) -> bool {
    forall|i: int, j: int|
        0 <= i < j < names.len() ==> before(#[trigger] names[i], #[trigger] names[j])
}

/// `names` are the namespaces of the entries, each once, in order.
pub open spec fn namespaces_of(entries: Seq<ServiceEntryView>, names: Seq<Seq<char>>) -> bool {
    &&& ascending(names)
    &&& forall|name: Seq<char>| #[trigger]
        names.contains(name) <==> exists|i: int|
            0 <= i < entries.len() && (#[trigger] entries[i]).namespace == name
}

/// Puts a name where it belongs, unless it is there already.
fn insert_name(names: &mut Vec<String>, name: &String)
    requires
        ascending(old(names).deep_view()),
    ensures
        ascending(final(names).deep_view()),
        forall|n: Seq<char>| #[trigger]
            final(names).deep_view().contains(n) <==> old(names).deep_view().contains(n) || n
                == name@,
{
    let ghost was = names.deep_view();
    let mut i: usize = 0;
    while i < names.len() && text_before(names[i].as_str(), name.as_str())
        invariant
            i <= names@.len(),
            names.deep_view() == was,
            forall|k: int| 0 <= k < i ==> before(#[trigger] was[k], name@),
        decreases names@.len() - i,
    {
        i += 1;
    }
    if i < names.len() && same_text(names[i].as_str(), name.as_str()) {
        proof {
            assert(was[i as int] == name@);
        }
        return;
    }
    names.insert(i, name.clone());
    proof {
        let now = names.deep_view();
        assert(now =~= was.insert(i as int, name@));
        if i < was.len() {
            lemma_before_total(was[i as int], name@);
        }
        assert forall|a: int, b: int| 0 <= a < b < now.len() implies before(
            #[trigger] now[a],
            #[trigger] now[b],
        ) by {
            if a < i && b == i {
                assert(now[a] == was[a]);
            } else if a == i {
                assert(now[b] == was[b - 1]);
                if b - 1 > i {
                    lemma_before_transitive(name@, was[i as int], was[b - 1]);
                }
            } else {
                assert(now[a] == was[if a < i { a } else { a - 1 }]);
                assert(now[b] == was[if b < i { b } else { b - 1 }]);
            }
        }
        assert forall|n: Seq<char>| #[trigger] now.contains(n) <==> was.contains(n) || n == name@ by {
            if now.contains(n) {
                let k = choose|k: int| 0 <= k < now.len() && now[k] == n;
                if k != i {
                    assert(was[if k < i { k } else { k - 1 }] == n);
                }
            }
            if was.contains(n) {
                let k = choose|k: int| 0 <= k < was.len() && was[k] == n;
                assert(now[if k < i { k } else { k + 1 }] == n);
            }
            assert(now[i as int] == name@);
        }
    }
}

/// Collects the namespaces of the entries.
pub fn collect_namespaces(entries: &Vec<ServiceEntry>) -> (res: Vec<String>)
    ensures
        namespaces_of(entries.deep_view(), res.deep_view()),
{
    let ghost all = entries.deep_view();
    let mut names: Vec<String> = Vec::new();
    let mut i: usize = 0;
    assert(names.deep_view() =~= Seq::empty());
    while i < entries.len()
        invariant
            i <= entries@.len(),
            all == entries.deep_view(),
            namespaces_of(all.take(i as int), names.deep_view()),
        decreases entries@.len() - i,
    {
        let ghost was = names.deep_view();
        insert_name(&mut names, &entries[i].namespace);
        proof {
            let sofar = all.take(i as int);
            let next = all.take(i + 1);
            assert(all[i as int].namespace == entries@[i as int].namespace@);
            assert forall|name: Seq<char>| #[trigger]
                names.deep_view().contains(name) <==> exists|k: int|
                    0 <= k < next.len() && (#[trigger] next[k]).namespace == name by {
                if names.deep_view().contains(name) {
                    if was.contains(name) {
                        let k = choose|k: int|
                            0 <= k < sofar.len() && (#[trigger] sofar[k]).namespace == name;
                        assert(next[k] == sofar[k]);
                    } else {
                        assert(next[i as int].namespace == name);
                    }
                }
                if exists|k: int| 0 <= k < next.len() && (#[trigger] next[k]).namespace == name {
                    let k = choose|k: int|
                        0 <= k < next.len() && (#[trigger] next[k]).namespace == name;
                    if k < i {
                        assert(sofar[k] == next[k]);
                        assert(was.contains(name));
                    }
                }
            }
        }
        i += 1;
    }
    assert(all.take(i as int) =~= all);
    names
}

/// There is only one way to list the namespaces in order.
pub proof fn law_namespaces_unique(
    entries: Seq<ServiceEntryView>,
    a: Seq<Seq<char>>,
    b: Seq<Seq<char>>,
)
    requires
        namespaces_of(entries, a),
        namespaces_of(entries, b),
    ensures
        a == b,
{
    assert forall|name: Seq<char>| a.contains(name) <==> b.contains(name) by {
        assert(a.contains(name) <==> b.contains(name));
    }
    lemma_ascending_unique(a, b);
}

proof fn lemma_ascending_unique(a: Seq<Seq<char>>, b: Seq<Seq<char>>)
    requires
        ascending(a),
        ascending(b),
        forall|name: Seq<char>| #[trigger] a.contains(name) <==> b.contains(name),
    ensures
        a == b,
    decreases a.len(),
{
    if a.len() == 0 {
        if b.len() > 0 {
            assert(b.contains(b[0]));
            assert(a.contains(b[0]));
        }
        assert(a =~= b);
    } else {
        assert(a.contains(a[a.len() - 1]));
        assert(b.contains(a.last()));
        let i = choose|i: int| 0 <= i < b.len() && b[i] == a.last();
        assert(b.contains(b[b.len() - 1]));
        assert(a.contains(b.last()));
        let j = choose|j: int| 0 <= j < a.len() && a[j] == b.last();
        lemma_before_total(a.last(), b.last());
        if i < b.len() - 1 {
            assert(before(b[i], b[b.len() - 1]));
            if j < a.len() - 1 {
                assert(before(a[j], a[a.len() - 1]));
            }
        }
        assert(a.last() == b.last());
        let x = a.drop_last();
        let y = b.drop_last();
        assert forall|name: Seq<char>| #[trigger] x.contains(name) <==> y.contains(name) by {
            lemma_shorter(a, name);
            lemma_shorter(b, name);
            assert(a.contains(name) <==> b.contains(name));
        }
        assert(ascending(x));
        assert(ascending(y));
        lemma_ascending_unique(x, y);
        assert(a =~= x.push(a.last()));
        assert(b =~= y.push(b.last()));
    }
}

proof fn lemma_shorter(a: Seq<Seq<char>>, name: Seq<char>)
    requires
        ascending(a),
        a.len() > 0,
    ensures
        a.drop_last().contains(name) <==> a.contains(name) && name != a.last(),
{
    let x = a.drop_last();
    if x.contains(name) {
        let k = choose|k: int| 0 <= k < x.len() && x[k] == name;
        assert(a[k] == name);
        assert(before(a[k], a[a.len() - 1]));
        lemma_before_total(a[k], a.last());
    }
    if a.contains(name) && name != a.last() {
        let k = choose|k: int| 0 <= k < a.len() && a[k] == name;
        assert(x[k] == name);
    }
}

// ── The setup ───────────────────────────────────────────

/// What came of the latest step.
#[derive(Debug)]
pub enum SetupEvent {
    /// Nothing has been done yet.
    Begin,
    /// There is no device. Proxies still work through loopback aliases.
    DeviceSkipped { message: String },
    DeviceOpened,
    /// The route into the device was set up or not; the device is there either way.
    DeviceReady { name: String, route: Result<(), String> },
    ProxyStarted { handle: TaskId, ip: Ipv4Addr },
    ProxySkipped { message: String },
    ResolverInstalled,
    ResolverFailed { message: String },
    DnsStarted { handle: TaskId },
    DnsFailed { message: String },
}

pub enum SetupEventView {
    Begin,
    DeviceSkipped { message: Seq<char> },
    DeviceOpened,
    DeviceReady { name: Seq<char>, route: Result<(), Seq<char>> },
    ProxyStarted { handle: TaskId, ip: Ipv4Addr },
    ProxySkipped { message: Seq<char> },
    ResolverInstalled,
    ResolverFailed { message: Seq<char> },
    DnsStarted { handle: TaskId },
    DnsFailed { message: Seq<char> },
}

impl View for SetupEvent {
    type V = SetupEventView;

    open spec fn view(&self) -> SetupEventView {
        match self {
            SetupEvent::Begin => SetupEventView::Begin,
            SetupEvent::DeviceSkipped { message } => SetupEventView::DeviceSkipped {
                message: message@,
            },
            SetupEvent::DeviceOpened => SetupEventView::DeviceOpened,
            SetupEvent::DeviceReady { name, route } => SetupEventView::DeviceReady {
                name: name@,
                route: text::report(*route),
            },
            SetupEvent::ProxyStarted { handle, ip } => SetupEventView::ProxyStarted {
                handle: *handle,
                ip: *ip,
            },
            SetupEvent::ProxySkipped { message } => SetupEventView::ProxySkipped {
                message: message@,
            },
            SetupEvent::ResolverInstalled => SetupEventView::ResolverInstalled,
            SetupEvent::ResolverFailed { message } => SetupEventView::ResolverFailed {
                message: message@,
            },
            SetupEvent::DnsStarted { handle } => SetupEventView::DnsStarted { handle: *handle },
            SetupEvent::DnsFailed { message } => SetupEventView::DnsFailed { message: message@ },
        }
    }
}

impl DeepView for SetupEvent {
    type V = SetupEventView;

    open spec fn deep_view(&self) -> SetupEventView {
        self@
    }
}


/// What to do next.
#[derive(Debug)]
pub enum SetupStep {
    OpenDevice,
    RouteDevice { cidr: String },
    StartProxy { entry: ServiceEntry },
    InstallResolver { namespaces: Vec<String> },
    StartDns { namespaces: Vec<String> },
    Finish,
}

#[verifier::ext_equal]
pub enum SetupStepView {
    OpenDevice,
    RouteDevice { cidr: Seq<char> },
    StartProxy { entry: ServiceEntryView },
    InstallResolver { namespaces: Seq<Seq<char>> },
    StartDns { namespaces: Seq<Seq<char>> },
    Finish,
}

impl View for SetupStep {
    type V = SetupStepView;

    open spec fn view(&self) -> SetupStepView {
        match self {
            SetupStep::OpenDevice => SetupStepView::OpenDevice,
            SetupStep::RouteDevice { cidr } => SetupStepView::RouteDevice { cidr: cidr@ },
            SetupStep::StartProxy { entry } => SetupStepView::StartProxy { entry: entry@ },
            SetupStep::InstallResolver { namespaces } => SetupStepView::InstallResolver {
                namespaces: namespaces.deep_view(),
            },
            SetupStep::StartDns { namespaces } => SetupStepView::StartDns {
                namespaces: namespaces.deep_view(),
            },
            SetupStep::Finish => SetupStepView::Finish,
        }
    }
}

impl DeepView for SetupStep {
    type V = SetupStepView;

    open spec fn deep_view(&self) -> SetupStepView {
        self@
    }
}


/// How far the setup has come.
#[derive(Debug)]
pub struct NetworkSetup {
    cidr: String,
    announced: Vec<ServiceEntry>,
    entries: Vec<ServiceEntry>,
    namespaces: Vec<String>,
    tried: usize,
    proxied: usize,
}

#[verifier::ext_equal]
pub struct NetworkSetupView {
    /// The service network.
    pub cidr: Seq<char>,
    /// Every entry of the service map.
    pub announced: Seq<ServiceEntryView>,
    /// The entries that get a proxy.
    pub entries: Seq<ServiceEntryView>,
    /// The namespaces of those entries.
    pub namespaces: Seq<Seq<char>>,
    /// How many proxies were tried.
    pub tried: nat,
    /// How many of them were started.
    pub proxied: nat,
}

impl View for NetworkSetup {
    type V = NetworkSetupView;

    closed spec fn view(&self) -> NetworkSetupView {
        NetworkSetupView {
            cidr: self.cidr@,
            announced: self.announced.deep_view(),
            entries: self.entries.deep_view(),
            namespaces: self.namespaces.deep_view(),
            tried: self.tried as nat,
            proxied: self.proxied as nat,
        }
    }
}

/// The entries outside of the system namespaces.
pub open spec fn proxied_entries(announced: Seq<ServiceEntryView>) -> Seq<ServiceEntryView> {
    announced.filter(|e: ServiceEntryView| !system_namespace(e.namespace))
}

/// The message that ends the setup.
pub open spec fn ready_message(proxied: nat) -> Seq<char> {
    "Ready — "@ + text::digits(proxied) + " service(s), use <svc>.<ns> in browser"@
}

impl NetworkSetupView {
    /// The next proxy; once all were tried, the resolver.
    pub open spec fn next(self) -> SetupStepView {
        if self.tried < self.entries.len() {
            SetupStepView::StartProxy { entry: self.entries[self.tried as int] }
        } else {
            SetupStepView::InstallResolver { namespaces: self.namespaces }
        }
    }

    /// The state after the event. A report of a proxy counts only while one is being tried.
    pub open spec fn after(self, event: SetupEventView) -> NetworkSetupView {
        if self.tried < self.entries.len() {
            match event {
                SetupEventView::ProxyStarted { .. } => NetworkSetupView {
                    tried: self.tried + 1,
                    proxied: self.proxied + 1,
                    ..self
                },
                SetupEventView::ProxySkipped { .. } => NetworkSetupView {
                    tried: self.tried + 1,
                    ..self
                },
                _ => self,
            }
        } else {
            self
        }
    }

    /// What to tell the user interface about the event, in order.
    pub open spec fn reports(self, event: SetupEventView) -> Seq<AppEventView> {
        match event {
            SetupEventView::Begin | SetupEventView::DeviceOpened => Seq::empty(),
            SetupEventView::DeviceSkipped { message } => seq![
                AppEventView::Toast { msg: "utun skipped: "@ + message, is_error: false },
                AppEventView::TunReady { device_name: "none"@, service_cidr: self.cidr },
                AppEventView::ServiceMapBuilt { entries: self.announced },
            ],
            SetupEventView::DeviceReady { name, route } => (match route {
                Ok(()) => Seq::empty(),
                Err(e) => seq![
                    AppEventView::Toast { msg: "utun route skipped: "@ + e, is_error: false },
                ],
            }) + seq![
                AppEventView::TunReady { device_name: name, service_cidr: self.cidr },
                AppEventView::ServiceMapBuilt { entries: self.announced },
            ],
            SetupEventView::ProxyStarted { handle, ip } => seq![
                AppEventView::BgHandle { handle },
                AppEventView::AliasAdded { ip },
            ],
            SetupEventView::ProxySkipped { message } => if self.tried < self.entries.len() {
                seq![
                    AppEventView::Toast {
                        msg: "skip "@ + self.entries[self.tried as int].name + ": "@ + message,
                        is_error: false,
                    },
                ]
            } else {
                Seq::empty()
            },
            SetupEventView::ResolverInstalled => Seq::empty(),
            SetupEventView::ResolverFailed { message } => seq![
                AppEventView::Error { msg: "Resolver failed: "@ + message },
            ],
            SetupEventView::DnsStarted { handle } => seq![
                AppEventView::BgHandle { handle },
                AppEventView::Toast { msg: ready_message(self.proxied), is_error: false },
            ],
            SetupEventView::DnsFailed { message } => seq![
                AppEventView::Error { msg: "DNS proxy failed: "@ + message },
            ],
        }
    }

    /// What to do after the event.
    pub open spec fn step(self, event: SetupEventView) -> SetupStepView {
        match event {
            SetupEventView::Begin => SetupStepView::OpenDevice,
            SetupEventView::DeviceOpened => SetupStepView::RouteDevice { cidr: self.cidr },
            SetupEventView::ResolverInstalled => SetupStepView::StartDns {
                namespaces: self.namespaces,
            },
            SetupEventView::ResolverFailed { .. } | SetupEventView::DnsStarted { .. }
            | SetupEventView::DnsFailed { .. } => SetupStepView::Finish,
            _ => self.after(event).next(),
        }
    }
}

fn keep_proxied(announced: &Vec<ServiceEntry>) -> (res: Vec<ServiceEntry>)
    ensures
        res.deep_view() == proxied_entries(announced.deep_view()),
{
    let ghost all = announced.deep_view();
    let ghost keep = |e: ServiceEntryView| !system_namespace(e.namespace);
    let mut res: Vec<ServiceEntry> = Vec::new();
    let mut i: usize = 0;
    proof {
        reveal(Seq::filter);
        assert(all.take(0).filter(keep) =~= Seq::empty());
        assert(res.deep_view() =~= Seq::empty());
    }
    while i < announced.len()
        invariant
            i <= announced@.len(),
            all == announced.deep_view(),
            keep == (|e: ServiceEntryView| !system_namespace(e.namespace)),
            res.deep_view() == all.take(i as int).filter(keep),
        decreases announced@.len() - i,
    {
        let e = &announced[i];
        proof {
            reveal(Seq::filter);
            assert(all.take(i + 1).drop_last() =~= all.take(i as int));
            assert(all.take(i + 1).last() == e@);
        }
        if !is_system_namespace(e.namespace.as_str()) {
            push_viewed(&mut res, e.clone());
        }
        i += 1;
    }
    assert(all.take(i as int) =~= all);
    res
}

impl NetworkSetup {
    #[verifier::type_invariant]
    spec fn counts(self) -> bool {
        self.proxied <= self.tried <= self.entries@.len()
    }

    /// A setup for the entries of a service map, before its first step.
    pub fn new(announced: Vec<ServiceEntry>, cidr: &str) -> (res: NetworkSetup)
        ensures
            res@.cidr == cidr@,
            res@.announced == announced.deep_view(),
            res@.entries == proxied_entries(announced.deep_view()),
            namespaces_of(res@.entries, res@.namespaces),
            res@.tried == 0,
            res@.proxied == 0,
    {
        let entries = keep_proxied(&announced);
        let namespaces = collect_namespaces(&entries);
        NetworkSetup { cidr: cidr.to_string(), announced, entries, namespaces, tried: 0, proxied: 0 }
    }

    fn next_step(&self) -> (res: SetupStep)
        ensures
            res@ == self@.next(),
    {
        proof {
            use_type_invariant(self);
        }
        if self.tried < self.entries.len() {
            SetupStep::StartProxy { entry: self.entries[self.tried].clone() }
        } else {
            SetupStep::InstallResolver { namespaces: self.namespaces.clone() }
        }
    }

    fn report(&self, event: &SetupEvent) -> (res: Vec<AppEvent>)
        ensures
            res.deep_view() == self@.reports(event@),
    {
        let mut res: Vec<AppEvent> = Vec::new();
        assert(res.deep_view() =~= Seq::empty());
        match event {
            SetupEvent::Begin => {},
            SetupEvent::DeviceOpened => {},
            SetupEvent::DeviceSkipped { message } => {
                let msg = concat_text("utun skipped: ", message.as_str());
                push_viewed(&mut res, AppEvent::Toast { msg, is_error: false });
                let device_name = "none".to_string();
                push_viewed(
                    &mut res,
                    AppEvent::TunReady { device_name, service_cidr: self.cidr.clone() },
                );
                push_viewed(&mut res, AppEvent::ServiceMapBuilt { entries: self.announced.clone() });
            },
            SetupEvent::DeviceReady { name, route } => {
                if let Err(e) = route {
                    let msg = concat_text("utun route skipped: ", e.as_str());
                    push_viewed(&mut res, AppEvent::Toast { msg, is_error: false });
                }
                push_viewed(
                    &mut res,
                    AppEvent::TunReady {
                        device_name: name.clone(),
                        service_cidr: self.cidr.clone(),
                    },
                );
                push_viewed(&mut res, AppEvent::ServiceMapBuilt { entries: self.announced.clone() });
            },
            SetupEvent::ProxyStarted { handle, ip } => {
                push_viewed(&mut res, AppEvent::BgHandle { handle: *handle });
                push_viewed(&mut res, AppEvent::AliasAdded { ip: *ip });
            },
            SetupEvent::ProxySkipped { message } => {
                if self.tried < self.entries.len() {
                    let mut msg = concat_text("skip ", self.entries[self.tried].name.as_str());
                    msg.append(": ");
                    msg.append(message.as_str());
                    push_viewed(&mut res, AppEvent::Toast { msg, is_error: false });
                }
            },
            SetupEvent::ResolverInstalled => {},
            SetupEvent::ResolverFailed { message } => {
                let msg = concat_text("Resolver failed: ", message.as_str());
                push_viewed(&mut res, AppEvent::Error { msg });
            },
            SetupEvent::DnsStarted { handle } => {
                push_viewed(&mut res, AppEvent::BgHandle { handle: *handle });
                let mut msg = "Ready — ".to_string();
                push_digits(&mut msg, self.proxied as u64);
                msg.append(" service(s), use <svc>.<ns> in browser");
                push_viewed(&mut res, AppEvent::Toast { msg, is_error: false });
            },
            SetupEvent::DnsFailed { message } => {
                let msg = concat_text("DNS proxy failed: ", message.as_str());
                push_viewed(&mut res, AppEvent::Error { msg });
            },
        }
        assert(res.deep_view() =~= self@.reports(event@));
        res
    }

    /// Takes the event in: what to tell the user interface, and what to do next.
    pub fn proceed(&mut self, event: SetupEvent) -> (res: (Vec<AppEvent>, SetupStep))
        ensures
            res.0.deep_view() == old(self)@.reports(event@),
            res.1@ == old(self)@.step(event@),
            final(self)@ == old(self)@.after(event@),
    {
        let events = self.report(&event);
        proof {
            use_type_invariant(&*self);
        }
        let more = self.tried < self.entries.len();
        match event {
            SetupEvent::ProxyStarted { .. } => {
                if more {
                    self.tried = self.tried + 1;
                    self.proxied = self.proxied + 1;
                }
            },
            SetupEvent::ProxySkipped { .. } => {
                if more {
                    self.tried = self.tried + 1;
                }
            },
            _ => {},
        }
        let step = match event {
            SetupEvent::Begin => SetupStep::OpenDevice,
            SetupEvent::DeviceOpened => SetupStep::RouteDevice { cidr: self.cidr.clone() },
            SetupEvent::ResolverInstalled => SetupStep::StartDns {
                namespaces: self.namespaces.clone(),
            },
            SetupEvent::ResolverFailed { .. } => SetupStep::Finish,
            SetupEvent::DnsStarted { .. } => SetupStep::Finish,
            SetupEvent::DnsFailed { .. } => SetupStep::Finish,
            _ => self.next_step(),
        };
        (events, step)
    }
}

/// Builds the service map and the setup for it. The entries are announced in the order in which the
/// map is walked, which is not fixed.
pub fn plan_network(services: &Vec<KubeService>, cidr: &str) -> (res: (ServiceMap, NetworkSetup))
    ensures
        res.0@ == service_map::grouped(service_map::all_entries(services.deep_view())),
        exists|keys: Seq<u32>| #[trigger]
            service_map::walks(res.0@, keys) && res.1@.announced == service_map::listed(
                res.0@,
                keys,
            ),
        res.1@.cidr == cidr@,
        res.1@.entries == proxied_entries(res.1@.announced),
        namespaces_of(res.1@.entries, res.1@.namespaces),
        res.1@.tried == 0,
        res.1@.proxied == 0,
{
    let map = build_service_map(services);
    let setup = NetworkSetup::new(map.entries(), cidr);
    (map, setup)
}

// ── Laws ────────────────────────────────────────────────

/// Every service outside of the system namespaces that has a port and an address to route to is
/// served: its namespace is one of those that the setup hands to the resolver and to DNS.
pub proof fn law_services_are_served(
    services: Seq<KubeServiceView>,
    i: int,
    keys: Seq<u32>,
    names: Seq<Seq<char>>,
)
    requires
        0 <= i < services.len(),
        services[i].ports.len() > 0,
        service_map::routable(services[i].cluster_ip) is Some,
        services[i].namespace != "kube-system"@,
        services[i].namespace != "kube-public"@,
        services[i].namespace != "kube-node-lease"@,
        service_map::walks(service_map::grouped(service_map::all_entries(services)), keys),
        namespaces_of(
            proxied_entries(
                service_map::listed(
                    service_map::grouped(service_map::all_entries(services)),
                    keys,
                ),
            ),
            names,
        ),
    ensures
        names.contains(services[i].namespace),
{
    broadcast use vstd::seq_lib::group_to_multiset_ensures;

    let ip = service_map::routable(services[i].cluster_ip).unwrap();
    let e = service_map::entry_of(services[i], services[i].ports[0], ip);
    let all = service_map::all_entries(services);
    let announced = service_map::listed(service_map::grouped(all), keys);
    service_map::lemma_service_has_entry(services, i, ip);
    service_map::law_map_keeps_entries(services, keys);
    assert(all.to_multiset().count(e) > 0);
    assert(announced.contains(e));
    let k = choose|k: int| 0 <= k < announced.len() && announced[k] == e;
    let keep = |e: ServiceEntryView| !system_namespace(e.namespace);
    announced.lemma_filter_contains(keep, k);
    let kept = proxied_entries(announced);
    assert(kept.contains(e));
    let m = choose|m: int| 0 <= m < kept.len() && kept[m] == e;
    assert(kept[m].namespace == services[i].namespace);
}

/// From the listed services to the reply: once the setup is done, a DNS query for a service outside
/// of the system namespaces is answered with an address of a service of that name.
pub proof fn law_set_up_services_are_answered(
    services: Seq<KubeServiceView>,
    i: int,
    keys: Seq<u32>,
    names: Seq<Seq<char>>,
    packet: Seq<u8>,
    name: Seq<char>,
    action: QueryActionView,
)
    requires
        0 <= i < services.len(),
        services[i].ports.len() > 0,
        service_map::routable(services[i].cluster_ip) is Some,
        services[i].namespace != "kube-system"@,
        services[i].namespace != "kube-public"@,
        services[i].namespace != "kube-node-lease"@,
        service_map::walks(service_map::grouped(service_map::all_entries(services)), keys),
        namespaces_of(
            proxied_entries(
                service_map::listed(
                    service_map::grouped(service_map::all_entries(services)),
                    keys,
                ),
            ),
            names,
        ),
        dns::query_name(packet) == Some(name),
        text::split(name, '.').len() >= 2,
        text::split(name, '.')[0] == services[i].name,
        text::split(name, '.')[1] == services[i].namespace,
        dns::handled(
            packet,
            names,
            service_map::grouped(service_map::all_entries(services)),
            action,
        ),
    ensures
        exists|ip: Ipv4Addr| #[trigger]
            service_map::routed_at(services, services[i].name, services[i].namespace, ip) && action
                == (QueryActionView::Reply { response: dns::dns_answer(packet, ip) }),
{
    law_services_are_served(services, i, keys, names);
    dns::law_service_is_answered(services, i, packet, name, names, action);
}

/// The system namespaces are three, and a proxy is started for every entry outside of them, in order,
/// and for no other: one more entry is one more proxy unless it is in one of the three.
pub proof fn law_proxies_outside_of_system_namespaces(
    announced: Seq<ServiceEntryView>,
    e: ServiceEntryView,
)
    ensures
        system_namespace(e.namespace) <==> e.namespace == "kube-system"@ || e.namespace
            == "kube-public"@ || e.namespace == "kube-node-lease"@,
        proxied_entries(Seq::empty()).len() == 0,
        e.namespace == "kube-system"@ || e.namespace == "kube-public"@ || e.namespace
            == "kube-node-lease"@ ==> proxied_entries(announced.push(e)) == proxied_entries(announced),
        e.namespace != "kube-system"@ && e.namespace != "kube-public"@ && e.namespace
            != "kube-node-lease"@ ==> proxied_entries(announced.push(e)) == proxied_entries(
            announced,
        ).push(e),
{
    reveal(Seq::filter);
    assert(announced.push(e).drop_last() =~= announced);
}

/// Texts are ordered by the first character in which they differ; where one is the beginning of the
/// other, the shorter one stands before the longer.
pub proof fn law_first_difference_orders(p: Seq<char>, a: Seq<char>, b: Seq<char>)
    ensures
        a.len() > 0 && b.len() > 0 && a[0] != b[0] ==> (before(p + a, p + b) <==> a[0] < b[0]),
        b.len() > 0 ==> before(p, p + b),
        !before(p + a, p),
    decreases p.len(),
{
    if p.len() > 0 {
        let rest = p.skip(1);
        law_first_difference_orders(rest, a, b);
        assert((p + a).skip(1) =~= rest + a);
        assert((p + b).skip(1) =~= rest + b);
        assert((p + a)[0] == p[0]);
        assert((p + b)[0] == p[0]);
    } else {
        assert(p + a =~= a);
        assert(p + b =~= b);
    }
}

/// The namespaces of the entries: each entry's own is among them, each of them is that of an entry, and
/// they stand in ascending order, so that none is there twice.
pub proof fn law_namespaces_of_entries(entries: Seq<ServiceEntryView>, names: Seq<Seq<char>>)
    requires
        namespaces_of(entries, names),
    ensures
        forall|k: int| 0 <= k < entries.len() ==> names.contains((#[trigger] entries[k]).namespace),
        forall|name: Seq<char>| #[trigger]
            names.contains(name) ==> exists|k: int|
                0 <= k < entries.len() && (#[trigger] entries[k]).namespace == name,
        forall|i: int, j: int|
            0 <= i < j < names.len() ==> before(#[trigger] names[i], #[trigger] names[j]) && names[i]
                != names[j],
{
    assert forall|i: int, j: int| 0 <= i < j < names.len() implies before(
        #[trigger] names[i],
        #[trigger] names[j],
    ) && names[i] != names[j] by {
        lemma_before_total(names[i], names[j]);
    }
}

/// Every proxy is tried once, in the order of the entries. Only one that was started counts as one; one
/// that was skipped does not. Once all were tried the namespaces go to the resolver.
pub proof fn law_proxies_are_tried_in_turn(
    setup: NetworkSetupView,
    handle: TaskId,
    ip: Ipv4Addr,
    message: Seq<char>,
)
    requires
        setup.tried < setup.entries.len(),
    ensures
        ({
            let started = SetupEventView::ProxyStarted { handle, ip };
            let skipped = SetupEventView::ProxySkipped { message };
            let left = setup.tried + 1 < setup.entries.len();
            &&& setup.after(started).tried == setup.tried + 1
            &&& setup.after(started).proxied == setup.proxied + 1
            &&& setup.after(skipped).tried == setup.tried + 1
            &&& setup.after(skipped).proxied == setup.proxied
            &&& setup.after(started) == (NetworkSetupView {
                tried: setup.tried + 1,
                proxied: setup.proxied + 1,
                ..setup
            })
            &&& setup.after(skipped) == (NetworkSetupView { tried: setup.tried + 1, ..setup })
            &&& left ==> setup.step(started) == (SetupStepView::StartProxy {
                entry: setup.entries[setup.tried as int + 1],
            }) && setup.step(skipped) == setup.step(started)
            &&& !left ==> setup.step(started) == (SetupStepView::InstallResolver {
                namespaces: setup.namespaces,
            }) && setup.step(skipped) == setup.step(started)
        }),
{
}

/// The device comes first: it is opened, and routes the service network. With or without it the proxies
/// follow, and where there are none to start, the resolver. DNS is started once the resolver is
/// installed. A resolver or a DNS proxy that failed ends the setup, as one that was started does.
pub proof fn law_setup_order(
    setup: NetworkSetupView,
    name: Seq<char>,
    message: Seq<char>,
    route: Result<(), Seq<char>>,
    handle: TaskId,
)
    ensures
        ({
            let first = if setup.tried < setup.entries.len() {
                SetupStepView::StartProxy { entry: setup.entries[setup.tried as int] }
            } else {
                SetupStepView::InstallResolver { namespaces: setup.namespaces }
            };
            &&& setup.step(SetupEventView::Begin) == SetupStepView::OpenDevice
            &&& setup.step(SetupEventView::DeviceOpened) == (SetupStepView::RouteDevice {
                cidr: setup.cidr,
            })
            &&& setup.step(SetupEventView::DeviceReady { name, route }) == first
            &&& setup.step(SetupEventView::DeviceSkipped { message }) == first
            &&& setup.step(SetupEventView::ResolverInstalled) == (SetupStepView::StartDns {
                namespaces: setup.namespaces,
            })
            &&& setup.step(SetupEventView::ResolverFailed { message }) == SetupStepView::Finish
            &&& setup.step(SetupEventView::DnsStarted { handle }) == SetupStepView::Finish
            &&& setup.step(SetupEventView::DnsFailed { message }) == SetupStepView::Finish
            &&& setup.after(SetupEventView::Begin) == setup
            &&& setup.after(SetupEventView::DeviceOpened) == setup
            &&& setup.after(SetupEventView::DeviceReady { name, route }) == setup
            &&& setup.after(SetupEventView::DeviceSkipped { message }) == setup
            &&& setup.after(SetupEventView::ResolverInstalled) == setup
            &&& setup.after(SetupEventView::ResolverFailed { message }) == setup
            &&& setup.after(SetupEventView::DnsStarted { handle }) == setup
            &&& setup.after(SetupEventView::DnsFailed { message }) == setup
        }),
{
}

/// Once all proxies were tried, a further report of one changes nothing.
pub proof fn law_late_proxy_does_not_count(
    setup: NetworkSetupView,
    handle: TaskId,
    ip: Ipv4Addr,
    message: Seq<char>,
)
    requires
        setup.tried >= setup.entries.len(),
    ensures
        setup.after(SetupEventView::ProxyStarted { handle, ip }) == setup,
        setup.after(SetupEventView::ProxySkipped { message }) == setup,
        setup.step(SetupEventView::ProxyStarted { handle, ip }) == (SetupStepView::InstallResolver {
            namespaces: setup.namespaces,
        }),
        setup.step(SetupEventView::ProxySkipped { message }) == (SetupStepView::InstallResolver {
            namespaces: setup.namespaces,
        }),
        setup.reports(SetupEventView::ProxySkipped { message }).len() == 0,
{
}

/// Every started proxy and the DNS proxy are reported with the task that runs them, and every proxy
/// with the address that it put on the loopback interface, so that they can be taken down again. What
/// was skipped is no error; a resolver or a DNS proxy that failed is one.
pub proof fn law_setup_reports_tasks_and_failures(
    setup: NetworkSetupView,
    handle: TaskId,
    ip: Ipv4Addr,
    message: Seq<char>,
)
    ensures
        setup.reports(SetupEventView::Begin).len() == 0,
        setup.reports(SetupEventView::DeviceOpened).len() == 0,
        setup.reports(SetupEventView::ResolverInstalled).len() == 0,
        setup.reports(SetupEventView::ProxyStarted { handle, ip }) == seq![
            AppEventView::BgHandle { handle },
            AppEventView::AliasAdded { ip },
        ],
        setup.tried < setup.entries.len() ==> setup.reports(SetupEventView::ProxySkipped { message })
            == seq![
            AppEventView::Toast {
                msg: "skip "@ + setup.entries[setup.tried as int].name + ": "@ + message,
                is_error: false,
            },
        ],
        setup.reports(SetupEventView::ResolverFailed { message }) == seq![
            AppEventView::Error { msg: "Resolver failed: "@ + message },
        ],
        setup.reports(SetupEventView::DnsFailed { message }) == seq![
            AppEventView::Error { msg: "DNS proxy failed: "@ + message },
        ],
        setup.reports(SetupEventView::DnsStarted { handle }) == seq![
            AppEventView::BgHandle { handle },
            AppEventView::Toast {
                msg: "Ready — "@ + text::digits(setup.proxied)
                    + " service(s), use <svc>.<ns> in browser"@,
                is_error: false,
            },
        ],
{
}

/// Whatever became of the device, the service network and every entry of the service map are reported,
/// those of the system namespaces too. A device or a route that is missing is told before, as no error.
pub proof fn law_setup_announces_all_entries(
    setup: NetworkSetupView,
    name: Seq<char>,
    message: Seq<char>,
)
    ensures
        setup.reports(SetupEventView::DeviceReady { name, route: Ok(()) }) == seq![
            AppEventView::TunReady { device_name: name, service_cidr: setup.cidr },
            AppEventView::ServiceMapBuilt { entries: setup.announced },
        ],
        setup.reports(SetupEventView::DeviceReady { name, route: Err(message) }) == seq![
            AppEventView::Toast { msg: "utun route skipped: "@ + message, is_error: false },
            AppEventView::TunReady { device_name: name, service_cidr: setup.cidr },
            AppEventView::ServiceMapBuilt { entries: setup.announced },
        ],
        setup.reports(SetupEventView::DeviceSkipped { message }) == seq![
            AppEventView::Toast { msg: "utun skipped: "@ + message, is_error: false },
            AppEventView::TunReady { device_name: "none"@, service_cidr: setup.cidr },
            AppEventView::ServiceMapBuilt { entries: setup.announced },
        ],
{
}

} // verus!
