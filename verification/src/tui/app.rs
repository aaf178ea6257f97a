//! All state of the user interface, and what background work reports to it.
use crate::kube::context::{self, list_contexts, KubeContext, KubeContextView, Kubeconfig};
use crate::kube::services::{self, scheme_of, KubeService, KubeServiceView};
use crate::network::ipv4::Ipv4Addr;
use crate::network::service_map::{self, ServiceEntry, ServiceEntryView};
use crate::network::tun::{TunDevice, TunDeviceView};
use crate::text::{self, concat_text, push_decimal, push_viewed};
use vstd::prelude::*;

verus! {

// ── Handles ─────────────────────────────────────────────

/// Names a client that the program holds.
#[derive(Debug, Clone, Copy, PartialEq, Eq, Structural)]
pub struct ClientId {
    pub id: u64,
}

/// Names a background task that the program runs.
#[derive(Debug, Clone, Copy, PartialEq, Eq, Structural)]
pub struct TaskId {
    pub id: u64,
}

// ── Events (background → main loop) ─────────────────────

/// What background work reports.
#[derive(Debug)]
pub enum AppEvent {
    ContextsLoaded { contexts: Vec<KubeContext> },
    Connected { client: ClientId },
    ServicesLoaded { services: Vec<KubeService> },
    TunReady { device_name: String, service_cidr: String },
    ServiceMapBuilt { entries: Vec<ServiceEntry> },
    AliasAdded { ip: Ipv4Addr },
    BgHandle { handle: TaskId },
    Toast { msg: String, is_error: bool },
    Error { msg: String },
}

#[verifier::ext_equal]
pub enum AppEventView {
    ContextsLoaded { contexts: Seq<KubeContextView> },
    Connected { client: ClientId },
    ServicesLoaded { services: Seq<KubeServiceView> },
    TunReady { device_name: Seq<char>, service_cidr: Seq<char> },
    ServiceMapBuilt { entries: Seq<ServiceEntryView> },
    AliasAdded { ip: Ipv4Addr },
    BgHandle { handle: TaskId },
    Toast { msg: Seq<char>, is_error: bool },
    Error { msg: Seq<char> },
}

impl View for AppEvent {
    type V = AppEventView;

    open spec fn view(&self) -> AppEventView {
        match self {
            AppEvent::ContextsLoaded { contexts } => AppEventView::ContextsLoaded {
                contexts: contexts.deep_view(),
            },
            AppEvent::Connected { client } => AppEventView::Connected { client: *client },
            AppEvent::ServicesLoaded { services } => AppEventView::ServicesLoaded {
                services: services.deep_view(),
            },
            AppEvent::TunReady { device_name, service_cidr } => AppEventView::TunReady {
                device_name: device_name@,
                service_cidr: service_cidr@,
            },
            AppEvent::ServiceMapBuilt { entries } => AppEventView::ServiceMapBuilt {
                entries: entries.deep_view(),
            },
            AppEvent::AliasAdded { ip } => AppEventView::AliasAdded { ip: *ip },
            AppEvent::BgHandle { handle } => AppEventView::BgHandle { handle: *handle },
            AppEvent::Toast { msg, is_error } => AppEventView::Toast {
                msg: msg@,
                is_error: *is_error,
            },
            AppEvent::Error { msg } => AppEventView::Error { msg: msg@ },
        }
    }
}

impl DeepView for AppEvent {
    type V = AppEventView;

    open spec fn deep_view(&self) -> AppEventView {
        self@
    }
}


// ── Screens & Modes ─────────────────────────────────────

#[derive(Debug, Clone, Copy, PartialEq, Eq, Structural)]
pub enum Screen {
    Splash,
    Contexts,
    Services,
}

#[derive(Debug, Clone, Copy, PartialEq, Eq, Structural)]
pub enum Mode {
    Normal,
    Connecting,
}

// ── Context row ─────────────────────────────────────────

/// A row of the context list.
#[derive(Debug)]
pub struct ContextRow {
    pub ctx: KubeContext,
}

pub struct ContextRowView {
    pub ctx: KubeContextView,
}

impl View for ContextRow {
    type V = ContextRowView;

    open spec fn view(&self) -> ContextRowView {
        ContextRowView { ctx: self.ctx@ }
    }
}

impl DeepView for ContextRow {
    type V = ContextRowView;

    open spec fn deep_view(&self) -> ContextRowView {
        self@
    }
}

impl Clone for ContextRow {
    fn clone(&self) -> (res: ContextRow)
        ensures
            res@ == self@,
    {
        ContextRow { ctx: self.ctx.clone() }
    }
}


// ── Toast ───────────────────────────────────────────────

/// A message that is shown for some ticks.
#[derive(Debug)]
pub struct Toast {
    pub message: String,
    pub is_error: bool,
    pub tick: u16,
}

pub struct ToastView {
    pub message: Seq<char>,
    pub is_error: bool,
    pub tick: u16,
}

impl View for Toast {
    type V = ToastView;

    open spec fn view(&self) -> ToastView {
        ToastView { message: self.message@, is_error: self.is_error, tick: self.tick }
    }
}

impl DeepView for Toast {
    type V = ToastView;

    open spec fn deep_view(&self) -> ToastView {
        self@
    }
}

impl Clone for Toast {
    fn clone(&self) -> (res: Toast)
        ensures
            res@ == self@,
    {
        Toast { message: self.message.clone(), is_error: self.is_error, tick: self.tick }
    }
}


// ── Splash state ────────────────────────────────────────

/// How far the current work has come.
#[derive(Debug)]
pub struct SplashState {
    pub current_step: usize,
    pub total_steps: usize,
    pub message: String,
    pub spinner_frame: usize,
}

pub struct SplashStateView {
    pub current_step: usize,
    pub total_steps: usize,
    pub message: Seq<char>,
    pub spinner_frame: usize,
}

impl View for SplashState {
    type V = SplashStateView;

    open spec fn view(&self) -> SplashStateView {
        SplashStateView {
            current_step: self.current_step,
            total_steps: self.total_steps,
            message: self.message@,
            spinner_frame: self.spinner_frame,
        }
    }
}

impl DeepView for SplashState {
    type V = SplashStateView;

    open spec fn deep_view(&self) -> SplashStateView {
        self@
    }
}


/// Nothing has been done yet.
pub open spec fn fresh_splash() -> SplashStateView {
    SplashStateView {
        current_step: 0,
        total_steps: 2,
        message: "Initializing..."@,
        spinner_frame: 0,
    }
}

/// The frame of the spinner that follows.
pub open spec fn next_frame(frame: usize) -> usize {
    ((frame + 1) % 10) as usize
}

/// One more step has been done, and the message says what comes now.
pub open spec fn advanced(splash: SplashStateView, msg: Seq<char>) -> SplashStateView {
    SplashStateView {
        current_step: (splash.current_step + 1) as usize,
        message: msg,
        spinner_frame: next_frame(splash.spinner_frame),
        ..splash
    }
}

impl SplashState {
    pub fn new() -> (res: Self)
        ensures
            res@ == fresh_splash(),
    {
        SplashState {
            current_step: 0,
            total_steps: 2,
            message: "Initializing...".to_string(),
            spinner_frame: 0,
        }
    }

    pub fn advance(&mut self, msg: &str)
        requires
            old(self)@.current_step < usize::MAX,
            old(self)@.spinner_frame < usize::MAX,
        ensures
            final(self)@ == advanced(old(self)@, msg@),
    {
        self.current_step = self.current_step + 1;
        self.message = msg.to_string();
        self.spinner_frame = (self.spinner_frame + 1) % 10;
    }

    pub fn tick_spinner(&mut self)
        requires
            old(self)@.spinner_frame < usize::MAX,
        ensures
            final(self)@ == (SplashStateView {
                spinner_frame: next_frame(old(self)@.spinner_frame),
                ..old(self)@
            }),
    {
        self.spinner_frame = (self.spinner_frame + 1) % 10;
    }
}

// ── Actions (main loop → background) ────────────────────

/// What the program has to do outside of its own state.
#[derive(Debug)]
pub enum Action {
    Nothing,
    /// Make a client for the context and report with `connection_event`.
    Connect { context: String },
    /// List the services and report with `listing_event`.
    ListServices { client: ClientId, refresh: bool },
    /// Set up the tunnel, the proxies and DNS.
    SetUpNetwork { client: ClientId, services: Vec<KubeService> },
    /// Read the kubeconfig and hand it to `refresh_contexts`.
    RefreshContexts,
    /// Open the URL and hand what came of it to `open_in_browser`.
    OpenUrl { url: String },
    /// Copy the URL and hand what came of it to `copy_url`.
    CopyUrl { url: String },
    /// Stop the tasks, take the aliases away and uninstall the resolver.
    Disconnect { tasks: Vec<TaskId>, aliases: Vec<Ipv4Addr> },
}

#[verifier::ext_equal]
pub enum ActionView {
    Nothing,
    Connect { context: Seq<char> },
    ListServices { client: ClientId, refresh: bool },
    SetUpNetwork { client: ClientId, services: Seq<KubeServiceView> },
    RefreshContexts,
    OpenUrl { url: Seq<char> },
    CopyUrl { url: Seq<char> },
    Disconnect { tasks: Seq<TaskId>, aliases: Seq<Ipv4Addr> },
}

impl View for Action {
    type V = ActionView;

    open spec fn view(&self) -> ActionView {
        match self {
            Action::Nothing => ActionView::Nothing,
            Action::Connect { context } => ActionView::Connect { context: context@ },
            Action::ListServices { client, refresh } => ActionView::ListServices {
                client: *client,
                refresh: *refresh,
            },
            Action::SetUpNetwork { client, services } => ActionView::SetUpNetwork {
                client: *client,
                services: services.deep_view(),
            },
            Action::RefreshContexts => ActionView::RefreshContexts,
            Action::OpenUrl { url } => ActionView::OpenUrl { url: url@ },
            Action::CopyUrl { url } => ActionView::CopyUrl { url: url@ },
            Action::Disconnect { tasks, aliases } => ActionView::Disconnect {
                tasks: tasks@,
                aliases: aliases@,
            },
        }
    }
}

impl DeepView for Action {
    type V = ActionView;

    open spec fn deep_view(&self) -> ActionView {
        self@
    }
}


// ── App (all state) ─────────────────────────────────────

/// The whole state.
#[derive(Debug)]
pub struct App {
    pub screen: Screen,
    pub mode: Mode,
    pub should_quit: bool,
    pub contexts: Vec<ContextRow>,
    pub ctx_selected: usize,
    pub services: Vec<KubeService>,
    pub svc_selected: usize,
    pub connected_context: Option<String>,
    pub client: Option<ClientId>,
    pub tun_device: Option<TunDevice>,
    pub tun_device_name: Option<String>,
    pub service_cidr: Option<String>,
    pub service_entries: Vec<ServiceEntry>,
    pub alias_ips: Vec<Ipv4Addr>,
    pub bg_handles: Vec<TaskId>,
    pub splash: SplashState,
    pub toast: Option<Toast>,
}

#[verifier::ext_equal]
pub struct AppView {
    pub screen: Screen,
    pub mode: Mode,
    pub should_quit: bool,
    pub contexts: Seq<ContextRowView>,
    pub ctx_selected: usize,
    pub services: Seq<KubeServiceView>,
    pub svc_selected: usize,
    pub connected_context: Option<Seq<char>>,
    pub client: Option<ClientId>,
    pub tun_device: Option<TunDeviceView>,
    pub tun_device_name: Option<Seq<char>>,
    pub service_cidr: Option<Seq<char>>,
    pub service_entries: Seq<ServiceEntryView>,
    pub alias_ips: Seq<Ipv4Addr>,
    pub bg_handles: Seq<TaskId>,
    pub splash: SplashStateView,
    pub toast: Option<ToastView>,
}

impl View for App {
    type V = AppView;

    open spec fn view(&self) -> AppView {
        AppView {
            screen: self.screen,
            mode: self.mode,
            should_quit: self.should_quit,
            contexts: self.contexts.deep_view(),
            ctx_selected: self.ctx_selected,
            services: self.services.deep_view(),
            svc_selected: self.svc_selected,
            connected_context: self.connected_context.deep_view(),
            client: self.client,
            tun_device: self.tun_device.deep_view(),
            tun_device_name: self.tun_device_name.deep_view(),
            service_cidr: self.service_cidr.deep_view(),
            service_entries: self.service_entries.deep_view(),
            alias_ips: self.alias_ips@,
            bg_handles: self.bg_handles@,
            splash: self.splash@,
            toast: self.toast.deep_view(),
        }
    }
}

impl DeepView for App {
    type V = AppView;

    open spec fn deep_view(&self) -> AppView {
        self@
    }
}


/// The state that the program starts in.
pub open spec fn fresh_app() -> AppView {
    AppView {
        screen: Screen::Splash,
        mode: Mode::Normal,
        should_quit: false,
        contexts: Seq::empty(),
        ctx_selected: 0,
        services: Seq::empty(),
        svc_selected: 0,
        connected_context: None,
        client: None,
        tun_device: None,
        tun_device_name: None,
        service_cidr: None,
        service_entries: Seq::empty(),
        alias_ips: Seq::empty(),
        bg_handles: Seq::empty(),
        splash: fresh_splash(),
        toast: None,
    }
}

/// Rows for contexts, in order.
pub open spec fn context_rows(contexts: Seq<KubeContextView>) -> Seq<ContextRowView> {
    contexts.map_values(|ctx: KubeContextView| ContextRowView { ctx })
}

/// The first entry of the named service.
pub open spec fn find_entry(
    entries: Seq<ServiceEntryView>,
    name: Seq<char>,
    namespace: Seq<char>,
) -> Option<ServiceEntryView>
    decreases entries.len(),
{
    if entries.len() == 0 {
        None
    } else if service_map::entry_is(entries[0], name, namespace) {
        Some(entries[0])
    } else {
        find_entry(entries.skip(1), name, namespace)
    }
}

/// The URL of a service: that of its first entry; without an entry, that of its first port.
pub open spec fn service_url(entries: Seq<ServiceEntryView>, svc: KubeServiceView) -> Option<
    Seq<char>,
> {
    match find_entry(entries, svc.name, svc.namespace) {
        Some(entry) => Some(service_map::entry_url(entry)),
        None => if svc.ports.len() == 0 {
            None
        } else {
            Some(
                services::url_scheme(svc.ports[0].port as int) + "://"@ + svc.name + "."@
                    + svc.namespace + ":"@ + text::decimal(svc.ports[0].port as int),
            )
        },
    }
}

impl AppView {
    /// The selected context is one of the list, where there are any.
    pub open spec fn context_in_range(self) -> bool {
        self.contexts.len() == 0 || self.ctx_selected < self.contexts.len()
    }

    /// The selected service is one of the list, where there are any.
    pub open spec fn service_in_range(self) -> bool {
        self.services.len() == 0 || self.svc_selected < self.services.len()
    }

    /// The counters of the splash have room for one more step.
    pub open spec fn has_room(self) -> bool {
        self.splash.current_step < usize::MAX && self.splash.spinner_frame < usize::MAX
    }

    /// The state with a message to show for thirty ticks.
    pub open spec fn with_toast(self, msg: Seq<char>, is_error: bool) -> AppView {
        AppView { toast: Some(ToastView { message: msg, is_error, tick: 30 }), ..self }
    }

    /// The state with one more step of the splash done.
    pub open spec fn with_step(self, msg: Seq<char>) -> AppView {
        AppView { splash: advanced(self.splash, msg), ..self }
    }

    /// The URL of the selected service.
    pub open spec fn url(self) -> Option<Seq<char>> {
        if self.svc_selected < self.services.len() {
            service_url(self.service_entries, self.services[self.svc_selected as int])
        } else {
            None
        }
    }

    /// The state while the selected context is connected to.
    pub open spec fn connecting(self) -> AppView {
        let name = self.contexts[self.ctx_selected as int].ctx.name;
        AppView {
            connected_context: Some(name),
            mode: Mode::Connecting,
            splash: advanced(
                SplashStateView { total_steps: 5, ..fresh_splash() },
                "Connecting to "@ + name + "..."@,
            ),
            ..self
        }
    }

    /// The state with a new list of contexts; the selection moves to the last one where it would
    /// otherwise leave the list.
    pub open spec fn with_contexts(self, contexts: Seq<KubeContextView>) -> AppView {
        AppView {
            contexts: context_rows(contexts),
            ctx_selected: if contexts.len() == 0 {
                0
            } else if self.ctx_selected < contexts.len() {
                self.ctx_selected
            } else {
                (contexts.len() - 1) as usize
            },
            ..self
        }
    }
}

/// Makes a row for each context.
pub fn make_rows(contexts: Vec<KubeContext>) -> (res: Vec<ContextRow>)
    ensures
        res.deep_view() == context_rows(contexts.deep_view()),
{
    let ghost all = context_rows(contexts.deep_view());
    let mut res: Vec<ContextRow> = Vec::new();
    let mut i: usize = 0;
    assert(res.deep_view() =~= all.take(0));
    while i < contexts.len()
        invariant
            i <= contexts@.len(),
            all == context_rows(contexts.deep_view()),
            res.deep_view() == all.take(i as int),
        decreases contexts@.len() - i,
    {
        push_viewed(&mut res, ContextRow { ctx: contexts[i].clone() });
        assert(all.take(i as int).push(all[i as int]) =~= all.take(i + 1));
        i += 1;
    }
    assert(all.take(i as int) =~= all);
    res
}

/// The position of the first entry of the named service.
pub fn position_of_entry(entries: &Vec<ServiceEntry>, name: &str, namespace: &str) -> (res: Option<
    usize,
>)
    ensures
        match res {
            Some(i) => i < entries@.len() && find_entry(entries.deep_view(), name@, namespace@)
                == Some(entries.deep_view()[i as int]),
            None => find_entry(entries.deep_view(), name@, namespace@) is None,
        },
{
    let mut i: usize = 0;
    assert(entries.deep_view().skip(0) =~= entries.deep_view());
    while i < entries.len()
        invariant
            i <= entries@.len(),
            find_entry(entries.deep_view(), name@, namespace@) == find_entry(
                entries.deep_view().skip(i as int),
                name@,
                namespace@,
            ),
        decreases entries@.len() - i,
    {
        assert(entries.deep_view().skip(i as int)[0] == entries@[i as int]@);
        if entries[i].belongs_to(name, namespace) {
            return Some(i);
        }
        assert(entries.deep_view().skip(i as int).skip(1) =~= entries.deep_view().skip(i + 1));
        i += 1;
    }
    None
}

impl App {
    pub fn new() -> (res: Self)
        ensures
            res@ == fresh_app(),
    {
        let res = App {
            screen: Screen::Splash,
            mode: Mode::Normal,
            should_quit: false,
            contexts: Vec::new(),
            ctx_selected: 0,
            services: Vec::new(),
            svc_selected: 0,
            connected_context: None,
            client: None,
            tun_device: None,
            tun_device_name: None,
            service_cidr: None,
            service_entries: Vec::new(),
            alias_ips: Vec::new(),
            bg_handles: Vec::new(),
            splash: SplashState::new(),
            toast: None,
        };
        assert(res@ =~= fresh_app());
        res
    }

    // ── Background actions ───────────────────────────────

    /// Starts to connect to the selected context.
    pub fn connect_async(&mut self) -> (res: Action)
        requires
            old(self)@.context_in_range(),
        ensures
            old(self)@.contexts.len() == 0 ==> res@ == ActionView::Nothing && final(self)@ == old(
                self,
            )@,
            old(self)@.contexts.len() > 0 ==> res@ == (ActionView::Connect {
                context: old(self)@.contexts[old(self)@.ctx_selected as int].ctx.name,
            }) && final(self)@ == old(self)@.connecting(),
    {
        if self.contexts.len() == 0 {
            return Action::Nothing;
        }
        let name = self.contexts[self.ctx_selected].ctx.name.clone();
        self.connected_context = Some(name.clone());
        self.mode = Mode::Connecting;
        self.splash = SplashState::new();
        self.splash.total_steps = 5;
        let mut msg = "Connecting to ".to_string();
        msg.append(name.as_str());
        msg.append("...");
        self.splash.advance(msg.as_str());
        Action::Connect { context: name }
    }

    /// Starts to set the network up, where there is a client.
    pub fn setup_network_async(&self) -> (res: Action)
        ensures
            res@ == (match self@.client {
                Some(client) => ActionView::SetUpNetwork { client, services: self@.services },
                None => ActionView::Nothing,
            }),
    {
        match self.client {
            Some(client) => Action::SetUpNetwork { client, services: self.services.clone() },
            None => Action::Nothing,
        }
    }

    // ── Helpers ──────────────────────────────────────────

    /// Takes over the contexts of the kubeconfig that was read; none where it could not be read.
    pub fn refresh_contexts(&mut self, read: Result<Kubeconfig, String>)
        ensures
            final(self)@ == old(self)@.with_contexts(
                match read {
                    Ok(config) => context::contexts_of(config@),
                    Err(_) => Seq::empty(),
                },
            ),
    {
        let contexts = match list_contexts(read) {
            Ok(contexts) => contexts,
            Err(_) => {
                let none: Vec<KubeContext> = Vec::new();
                assert(none.deep_view() =~= Seq::empty());
                none
            },
        };
        let size: usize = contexts.len();
        assert(size == contexts.deep_view().len());
        self.contexts = make_rows(contexts);
        if size == 0 {
            self.ctx_selected = 0;
        } else if self.ctx_selected >= size {
            self.ctx_selected = size - 1;
        }
    }

    /// Tells what came of opening the selected URL.
    pub fn open_in_browser(&mut self, opened: Result<(), String>)
        ensures
            final(self)@ == (match (old(self)@.url(), text::report(opened)) {
                (None, _) => old(self)@,
                (Some(url), Ok(())) => old(self)@.with_toast("Opened "@ + url, false),
                (Some(_), Err(e)) => old(self)@.with_toast("Browser error: "@ + e, true),
            }),
    {
        if let Some(url) = self.selected_url() {
            match opened {
                Ok(_) => self.show_toast(concat_text("Opened ", url.as_str()).as_str(), false),
                Err(e) => self.show_toast(concat_text("Browser error: ", e.as_str()).as_str(), true),
            }
        }
    }

    /// Tells what came of copying the selected URL.
    pub fn copy_url(&mut self, copied: Result<(), String>)
        ensures
            final(self)@ == (match (old(self)@.url(), text::report(copied)) {
                (None, _) => old(self)@,
                (Some(url), Ok(())) => old(self)@.with_toast("Copied: "@ + url, false),
                (Some(_), Err(e)) => old(self)@.with_toast("Clipboard: "@ + e, true),
            }),
    {
        if let Some(url) = self.selected_url() {
            match copied {
                Ok(_) => self.show_toast(concat_text("Copied: ", url.as_str()).as_str(), false),
                Err(e) => self.show_toast(concat_text("Clipboard: ", e.as_str()).as_str(), true),
            }
        }
    }

    /// The URL of the selected service.
    pub fn selected_url(&self) -> (res: Option<String>)
        ensures
            res.deep_view() == self@.url(),
    {
        if self.svc_selected >= self.services.len() {
            return None;
        }
        let svc = &self.services[self.svc_selected];
        match position_of_entry(&self.service_entries, svc.name.as_str(), svc.namespace.as_str()) {
            Some(i) => Some(self.service_entries[i].url()),
            None => {
                if svc.ports.len() == 0 {
                    return None;
                }
                let port = svc.ports[0].port;
                let mut url = scheme_of(port).to_string();
                url.append("://");
                url.append(svc.name.as_str());
                url.append(".");
                url.append(svc.namespace.as_str());
                url.append(":");
                push_decimal(&mut url, port as i64);
                Some(url)
            },
        }
    }

    pub fn show_toast(&mut self, msg: &str, is_error: bool)
        ensures
            final(self)@ == old(self)@.with_toast(msg@, is_error),
    {
        self.toast = Some(Toast { message: msg.to_string(), is_error, tick: 30 });
    }
}

// ── Reports of background work ──────────────────────────

/// What to report of an attempt to connect.
pub fn connection_event(connected: Result<ClientId, String>) -> (res: AppEvent)
    ensures
        res@ == (match connected {
            Ok(client) => AppEventView::Connected { client },
            Err(e) => AppEventView::Error { msg: "Connection failed: "@ + e@ },
        }),
{
    match connected {
        Ok(client) => AppEvent::Connected { client },
        Err(e) => AppEvent::Error { msg: concat_text("Connection failed: ", e.as_str()) },
    }
}

/// What to report of an attempt to list the services: a first one, or one on request.
pub fn listing_event(listed: Result<Vec<KubeService>, String>, refresh: bool) -> (res: AppEvent)
    ensures
        res@ == (match listed {
            Ok(services) => AppEventView::ServicesLoaded { services: services.deep_view() },
            Err(e) => AppEventView::Error {
                msg: if refresh {
                    "Refresh failed: "@ + e@
                } else {
                    "Service listing failed: "@ + e@
                },
            },
        }),
{
    match listed {
        Ok(services) => AppEvent::ServicesLoaded { services },
        Err(e) => AppEvent::Error {
            msg: if refresh {
                concat_text("Refresh failed: ", e.as_str())
            } else {
                concat_text("Service listing failed: ", e.as_str())
            },
        },
    }
}

// ── Laws ────────────────────────────────────────────────

/// The entry that is found for a service carries both the name and the namespace that were asked for,
/// and no earlier entry carries both.
pub proof fn law_found_entry_is_first_of_service(
    entries: Seq<ServiceEntryView>,
    name: Seq<char>,
    namespace: Seq<char>,
    entry: ServiceEntryView,
)
    requires
        find_entry(entries, name, namespace) == Some(entry),
    ensures
        exists|i: int|
            {
                &&& 0 <= i < entries.len()
                &&& #[trigger] entries[i] == entry
                &&& entries[i].name == name
                &&& entries[i].namespace == namespace
                &&& forall|j: int|
                    0 <= j < i ==> (#[trigger] entries[j]).name != name || entries[j].namespace
                        != namespace
            },
{
    let i = lemma_found_at(entries, name, namespace);
    assert(entries[i] == entry);
}

/// The place of the entry that is found.
proof fn lemma_found_at(
    entries: Seq<ServiceEntryView>,
    name: Seq<char>,
    namespace: Seq<char>,
) -> (i: int)
    requires
        find_entry(entries, name, namespace) is Some,
    ensures
        0 <= i < entries.len(),
        find_entry(entries, name, namespace) == Some(entries[i]),
        entries[i].name == name,
        entries[i].namespace == namespace,
        forall|j: int|
            0 <= j < i ==> (#[trigger] entries[j]).name != name || entries[j].namespace != namespace,
    decreases entries.len(),
{
    if entries[0].name == name && entries[0].namespace == namespace {
        0
    } else {
        let rest = entries.skip(1);
        let i = lemma_found_at(rest, name, namespace);
        assert(entries[i + 1] == rest[i]);
        assert forall|j: int| 0 <= j < i + 1 implies (#[trigger] entries[j]).name != name
            || entries[j].namespace != namespace by {
            if j > 0 {
                assert(entries[j] == rest[j - 1]);
            }
        }
        i + 1
    }
}

/// An entry is found wherever one carries both the name and the namespace.
pub proof fn law_entry_of_service_is_found(
    entries: Seq<ServiceEntryView>,
    name: Seq<char>,
    namespace: Seq<char>,
    i: int,
)
    requires
        0 <= i < entries.len(),
        entries[i].name == name,
        entries[i].namespace == namespace,
    ensures
        find_entry(entries, name, namespace) is Some,
    decreases i,
{
    if i > 0 {
        assert(entries.skip(1)[i - 1] == entries[i]);
        law_entry_of_service_is_found(entries.skip(1), name, namespace, i - 1);
    }
}

/// The URL of the selected service has `<name>.<namespace>` as its host, with that service's own name
/// and namespace. It begins with `http` or `https`, and behind the host comes nothing or a port.
pub proof fn law_selected_url_names_selected_service(app: AppView, url: Seq<char>)
    requires
        app.url() == Some(url),
    ensures
        app.svc_selected < app.services.len(),
        ({
            let svc = app.services[app.svc_selected as int];
            let host = svc.name + "."@ + svc.namespace;
            exists|scheme: Seq<char>, port: Seq<char>|
                {
                    &&& url == #[trigger] (scheme + "://"@ + host + port)
                    &&& scheme == "http"@ || scheme == "https"@
                    &&& port.len() == 0 || exists|n: int| port == ":"@ + #[trigger] text::decimal(n)
                }
        }),
{
    let svc = app.services[app.svc_selected as int];
    let host = svc.name + "."@ + svc.namespace;
    let none = Seq::<char>::empty();
    match find_entry(app.service_entries, svc.name, svc.namespace) {
        Some(entry) => {
            law_found_entry_is_first_of_service(
                app.service_entries,
                svc.name,
                svc.namespace,
                entry,
            );
            service_map::law_entry_url(entry);
            if entry.port == 80 {
                assert(url =~= "http"@ + "://"@ + host + none);
            } else if entry.port == 443 {
                assert(url =~= "https"@ + "://"@ + host + none);
            } else {
                let port = ":"@ + text::decimal(entry.port as int);
                assert(url =~= "http"@ + "://"@ + host + port);
            }
        },
        None => {
            let port = ":"@ + text::decimal(svc.ports[0].port as int);
            let scheme = services::url_scheme(svc.ports[0].port as int);
            assert(url =~= scheme + "://"@ + host + port);
        },
    }
}

/// Where an entry carries the name and the namespace of the selected service, its URL is that of the
/// first such entry; where none does, it is made of the first port, and where there is no port either,
/// there is no URL.
pub proof fn law_selected_url(app: AppView, i: int)
    requires
        app.svc_selected < app.services.len(),
    ensures
        ({
            let svc = app.services[app.svc_selected as int];
            let host = svc.name + "."@ + svc.namespace;
            &&& 0 <= i < app.service_entries.len() && app.service_entries[i].name == svc.name
                && app.service_entries[i].namespace == svc.namespace && (forall|j: int|
                0 <= j < i ==> (#[trigger] app.service_entries[j]).name != svc.name
                    || app.service_entries[j].namespace != svc.namespace) ==> {
                let port = app.service_entries[i].port;
                &&& port == 80 ==> app.url() == Some("http"@ + "://"@ + host)
                &&& port == 443 ==> app.url() == Some("https"@ + "://"@ + host)
                &&& port != 80 && port != 443 ==> app.url() == Some(
                    "http"@ + "://"@ + host + ":"@ + text::digits(port as nat),
                )
            }
            &&& (forall|j: int|
                0 <= j < app.service_entries.len() ==> (#[trigger] app.service_entries[j]).name
                    != svc.name || app.service_entries[j].namespace != svc.namespace) ==> {
                &&& svc.ports.len() == 0 ==> app.url() is None
                &&& svc.ports.len() > 0 && svc.ports[0].port == 443 ==> app.url() == Some(
                    "https"@ + "://"@ + host + ":"@ + text::decimal(443),
                )
                &&& svc.ports.len() > 0 && svc.ports[0].port != 443 ==> app.url() == Some(
                    "http"@ + "://"@ + host + ":"@ + text::decimal(svc.ports[0].port as int),
                )
            }
        }),
{
    let svc = app.services[app.svc_selected as int];
    let host = svc.name + "."@ + svc.namespace;
    let entries = app.service_entries;
    if find_entry(entries, svc.name, svc.namespace) is Some {
        let k = lemma_found_at(entries, svc.name, svc.namespace);
        service_map::law_entry_url(entries[k]);
    } else {
        if 0 <= i < entries.len() && entries[i].name == svc.name && entries[i].namespace
            == svc.namespace {
            law_entry_of_service_is_found(entries, svc.name, svc.namespace, i);
        }
        if svc.ports.len() > 0 {
            let scheme = services::url_scheme(svc.ports[0].port as int);
            assert(app.url().unwrap() =~= scheme + "://"@ + host + ":"@ + text::decimal(
                svc.ports[0].port as int,
            ));
        }
    }
}

/// No service is selected past the end of the list.
pub proof fn law_no_url_past_the_end(app: AppView)
    requires
        app.svc_selected >= app.services.len(),
    ensures
        app.url() is None,
{
}

/// The spinner has ten frames: each is followed by the next, and the last by the first.
pub proof fn law_spinner_turns(frame: usize)
    ensures
        frame < 9 ==> next_frame(frame) == frame + 1,
        frame == 9 ==> next_frame(frame) == 0,
        next_frame(frame) < 10,
{
}

/// One step more counts one up, shows its message and turns the spinner; how many steps there are stays.
pub proof fn law_step_advances(app: AppView, msg: Seq<char>)
    requires
        app.has_room(),
    ensures
        app.with_step(msg).splash.current_step == app.splash.current_step + 1,
        app.with_step(msg).splash.total_steps == app.splash.total_steps,
        app.with_step(msg).splash.message == msg,
        app.with_step(msg).splash.spinner_frame == next_frame(app.splash.spinner_frame),
        app.with_step(msg) == (AppView { splash: app.with_step(msg).splash, ..app }),
{
}

/// A message is shown for thirty ticks, as the kind of message that it is; nothing else changes.
pub proof fn law_message_is_shown(app: AppView, msg: Seq<char>, is_error: bool)
    ensures
        app.with_toast(msg, is_error).toast matches Some(toast) && toast.message == msg
            && toast.is_error == is_error && toast.tick == 30,
        app.with_toast(msg, is_error) == (AppView {
            toast: app.with_toast(msg, is_error).toast,
            ..app
        }),
{
}

/// The program starts with the splash, with nothing loaded, connected or shown, and with the first of
/// two steps ahead.
pub proof fn law_start()
    ensures
        fresh_app().screen == Screen::Splash,
        fresh_app().mode == Mode::Normal,
        !fresh_app().should_quit,
        fresh_app().contexts.len() == 0,
        fresh_app().ctx_selected == 0,
        fresh_app().services.len() == 0,
        fresh_app().svc_selected == 0,
        fresh_app().connected_context is None,
        fresh_app().client is None,
        fresh_app().tun_device is None,
        fresh_app().tun_device_name is None,
        fresh_app().service_cidr is None,
        fresh_app().service_entries.len() == 0,
        fresh_app().alias_ips.len() == 0,
        fresh_app().bg_handles.len() == 0,
        fresh_app().toast is None,
        fresh_app().splash.current_step == 0,
        fresh_app().splash.total_steps == 2,
        fresh_app().splash.spinner_frame == 0,
        fresh_app().splash.message == "Initializing..."@,
{
}

/// To connect is to name the selected context as the connected one, and to show the first of five steps;
/// nothing else changes.
pub proof fn law_connecting(app: AppView)
    requires
        app.ctx_selected < app.contexts.len(),
    ensures
        ({
            let name = app.contexts[app.ctx_selected as int].ctx.name;
            let next = app.connecting();
            &&& next.connected_context == Some(name)
            &&& next.mode == Mode::Connecting
            &&& next.splash.current_step == 1
            &&& next.splash.total_steps == 5
            &&& next.splash.spinner_frame == 1
            &&& next.splash.message == "Connecting to "@ + name + "..."@
            &&& next == (AppView {
                connected_context: next.connected_context,
                mode: next.mode,
                splash: next.splash,
                ..app
            })
        }),
{
}

/// A new list of contexts replaces the old one, row for row. The selection stays where it is, as far as
/// the list reaches, and on its last row otherwise; nothing else changes.
pub proof fn law_contexts_are_replaced(app: AppView, contexts: Seq<KubeContextView>)
    requires
        contexts.len() <= usize::MAX,
    ensures
        ({
            let next = app.with_contexts(contexts);
            &&& next.contexts.len() == contexts.len()
            &&& forall|i: int|
                0 <= i < contexts.len() ==> (#[trigger] next.contexts[i]).ctx == contexts[i]
            &&& app.ctx_selected < contexts.len() ==> next.ctx_selected == app.ctx_selected
            &&& 0 < contexts.len() <= app.ctx_selected ==> next.ctx_selected == contexts.len() - 1
            &&& contexts.len() == 0 ==> next.ctx_selected == 0
            &&& next == (AppView {
                contexts: next.contexts,
                ctx_selected: next.ctx_selected,
                ..app
            })
        }),
{
}

} // verus!
