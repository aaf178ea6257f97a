//! What keys, ticks and background events do to the state.
use crate::kube::context::KubeContextView;
use crate::kube::services::KubeServiceView;
use crate::network::command::{self, Command, CommandView, Platform};
use crate::network::ipv4::{self, Ipv4Addr};
use crate::network::service_map::ServiceEntryView;
use crate::network::tun::{self, cleanup_aliases, cleanup_tun};
use crate::text::{self, concat_text, contains_text, push_digits, push_viewed};
use crate::tui::app::{
    self, make_rows, Action, ActionView, App, AppEvent, AppEventView, AppView, Mode, Screen,
    SplashState, SplashStateView, TaskId, ToastView,
};
use crate::tui::setup;
use vstd::prelude::*;

verus! {

/// A key on the keyboard; every key without a meaning here is `Other`.
#[derive(Debug, Clone, Copy, PartialEq, Eq, Structural)]
pub enum KeyCode {
    Char(char),
    Up,
    Down,
    Home,
    End,
    Enter,
    Esc,
    Backspace,
    Other,
}

// ── Moving through a list ───────────────────────────────

/// The ways to move through a list.
#[derive(Debug, Clone, Copy, PartialEq, Eq, Structural)]
pub enum Move {
    Previous,
    Next,
    First,
    Last,
}

/// What a key means in a list.
pub open spec fn list_move(key: KeyCode) -> Option<Move> {
    match key {
        KeyCode::Up => Some(Move::Previous),
        KeyCode::Down => Some(Move::Next),
        KeyCode::Home => Some(Move::First),
        KeyCode::End => Some(Move::Last),
        KeyCode::Char(c) => if c == 'k' {
            Some(Move::Previous)
        } else if c == 'j' {
            Some(Move::Next)
        } else if c == 'g' {
            Some(Move::First)
        } else if c == 'G' {
            Some(Move::Last)
        } else {
            None
        },
        _ => None,
    }
}

/// Where a move leads in a list of the given length. No move leaves the list.
pub open spec fn moved(m: Move, selected: int, len: int) -> int {
    match m {
        Move::Previous => if selected > 0 {
            selected - 1
        } else {
            0
        },
        Move::Next => if selected + 1 < len {
            selected + 1
        } else {
            selected
        },
        Move::First => 0,
        Move::Last => if len > 0 {
            len - 1
        } else {
            0
        },
    }
}

fn read_move(key: KeyCode) -> (res: Option<Move>)
    ensures
        res == list_move(key),
{
    match key {
        KeyCode::Up => Some(Move::Previous),
        KeyCode::Down => Some(Move::Next),
        KeyCode::Home => Some(Move::First),
        KeyCode::End => Some(Move::Last),
        KeyCode::Char(c) => {
            if c == 'k' {
                Some(Move::Previous)
            } else if c == 'j' {
                Some(Move::Next)
            } else if c == 'g' {
                Some(Move::First)
            } else if c == 'G' {
                Some(Move::Last)
            } else {
                None
            }
        },
        _ => None,
    }
}

fn make_move(m: Move, selected: usize, len: usize) -> (res: usize)
    ensures
        res == moved(m, selected as int, len as int),
{
    match m {
        Move::Previous => if selected > 0 {
            selected - 1
        } else {
            0
        },
        Move::Next => if len > 0 && selected < len - 1 {
            selected + 1
        } else {
            selected
        },
        Move::First => 0,
        Move::Last => if len > 0 {
            len - 1
        } else {
            0
        },
    }
}

// ── Keys ────────────────────────────────────────────────

/// What a key does on the context list.
pub open spec fn ctx_key(app: AppView, key: KeyCode) -> (AppView, ActionView) {
    match list_move(key) {
        Some(m) => (
            AppView {
                ctx_selected: moved(m, app.ctx_selected as int, app.contexts.len() as int) as usize,
                ..app
            },
            ActionView::Nothing,
        ),
        None => if key == KeyCode::Char('q') {
            (AppView { should_quit: true, ..app }, ActionView::Nothing)
        } else if key == KeyCode::Char('r') {
            (app.with_toast("Refreshed"@, false), ActionView::RefreshContexts)
        } else if key == KeyCode::Enter && app.contexts.len() > 0 {
            (
                app.connecting(),
                ActionView::Connect { context: app.contexts[app.ctx_selected as int].ctx.name },
            )
        } else {
            (app, ActionView::Nothing)
        },
    }
}

/// The state after leaving a cluster: nothing of it is left.
pub open spec fn disconnected(app: AppView) -> AppView {
    AppView {
        bg_handles: Seq::empty(),
        alias_ips: Seq::empty(),
        service_entries: Seq::empty(),
        services: Seq::empty(),
        client: None,
        connected_context: None,
        tun_device_name: None,
        service_cidr: None,
        screen: Screen::Contexts,
        ..app
    }.with_toast("Disconnected"@, false)
}

/// What a key does on the service list.
pub open spec fn svc_key(app: AppView, key: KeyCode) -> (AppView, ActionView) {
    match list_move(key) {
        Some(m) => (
            AppView {
                svc_selected: moved(m, app.svc_selected as int, app.services.len() as int) as usize,
                ..app
            },
            ActionView::Nothing,
        ),
        None => if key == KeyCode::Char('q') {
            (AppView { should_quit: true, ..app }, ActionView::Nothing)
        } else if key == KeyCode::Enter || key == KeyCode::Char('o') {
            (
                app,
                match app.url() {
                    Some(url) => ActionView::OpenUrl { url },
                    None => ActionView::Nothing,
                },
            )
        } else if key == KeyCode::Char('y') {
            (
                app,
                match app.url() {
                    Some(url) => ActionView::CopyUrl { url },
                    None => ActionView::Nothing,
                },
            )
        } else if key == KeyCode::Char('r') {
            (
                app,
                match app.client {
                    Some(client) => ActionView::ListServices { client, refresh: true },
                    None => ActionView::Nothing,
                },
            )
        } else if key == KeyCode::Esc || key == KeyCode::Backspace {
            (
                disconnected(app),
                ActionView::Disconnect { tasks: app.bg_handles, aliases: app.alias_ips },
            )
        } else {
            (app, ActionView::Nothing)
        },
    }
}

/// The key connects to the selected context.
pub open spec fn connects(app: AppView, key: KeyCode) -> bool {
    app.screen == Screen::Contexts && key == KeyCode::Enter
}

/// What a key does in normal mode.
pub open spec fn normal_key(app: AppView, key: KeyCode) -> (AppView, ActionView) {
    match app.screen {
        Screen::Splash => (app, ActionView::Nothing),
        Screen::Contexts => ctx_key(app, key),
        Screen::Services => svc_key(app, key),
    }
}

/// What a key press does. Ctrl-C always quits; the splash takes no other key; while connecting,
/// the other keys that quit are `q` and Esc.
pub open spec fn key_press(app: AppView, key: KeyCode, ctrl: bool) -> (AppView, ActionView) {
    if key == KeyCode::Char('c') && ctrl {
        (AppView { should_quit: true, ..app }, ActionView::Nothing)
    } else if app.screen == Screen::Splash {
        (app, ActionView::Nothing)
    } else if app.mode == Mode::Normal {
        normal_key(app, key)
    } else if key == KeyCode::Char('q') || key == KeyCode::Esc {
        (AppView { should_quit: true, ..app }, ActionView::Nothing)
    } else {
        (app, ActionView::Nothing)
    }
}

/// Handles a key on the context list.
pub fn handle_ctx_key(app: &mut App, key: KeyCode) -> (res: Action)
    requires
        key == KeyCode::Enter ==> old(app)@.context_in_range(),
    ensures
        (final(app)@, res@) == ctx_key(old(app)@, key),
{
    if let Some(m) = read_move(key) {
        let len: usize = app.contexts.len();
        assert(len == app@.contexts.len());
        app.ctx_selected = make_move(m, app.ctx_selected, len);
        return Action::Nothing;
    }
    match key {
        KeyCode::Char(c) => {
            if c == 'q' {
                app.should_quit = true;
                Action::Nothing
            } else if c == 'r' {
                app.show_toast("Refreshed", false);
                Action::RefreshContexts
            } else {
                Action::Nothing
            }
        },
        KeyCode::Enter => app.connect_async(),
        _ => Action::Nothing,
    }
}

/// Handles a key on the service list.
pub fn handle_svc_key(app: &mut App, key: KeyCode) -> (res: Action)
    ensures
        (final(app)@, res@) == svc_key(old(app)@, key),
{
    if let Some(m) = read_move(key) {
        let len: usize = app.services.len();
        assert(len == app@.services.len());
        app.svc_selected = make_move(m, app.svc_selected, len);
        return Action::Nothing;
    }
    match key {
        KeyCode::Char(c) => {
            if c == 'q' {
                app.should_quit = true;
                Action::Nothing
            } else if c == 'o' {
                open_selected(app)
            } else if c == 'y' {
                match app.selected_url() {
                    Some(url) => Action::CopyUrl { url },
                    None => Action::Nothing,
                }
            } else if c == 'r' {
                match app.client {
                    Some(client) => Action::ListServices { client, refresh: true },
                    None => Action::Nothing,
                }
            } else {
                Action::Nothing
            }
        },
        KeyCode::Enter => open_selected(app),
        KeyCode::Esc => disconnect(app),
        KeyCode::Backspace => disconnect(app),
        _ => Action::Nothing,
    }
}

fn open_selected(app: &App) -> (res: Action)
    ensures
        res@ == (match app@.url() {
            Some(url) => ActionView::OpenUrl { url },
            None => ActionView::Nothing,
        }),
{
    match app.selected_url() {
        Some(url) => Action::OpenUrl { url },
        None => Action::Nothing,
    }
}

fn disconnect(app: &mut App) -> (res: Action)
    ensures
        final(app)@ == disconnected(old(app)@),
        res@ == (ActionView::Disconnect {
            tasks: old(app)@.bg_handles,
            aliases: old(app)@.alias_ips,
        }),
{
    let mut tasks: Vec<TaskId> = Vec::new();
    let mut aliases: Vec<Ipv4Addr> = Vec::new();
    std::mem::swap(&mut tasks, &mut app.bg_handles);
    std::mem::swap(&mut aliases, &mut app.alias_ips);
    app.service_entries = Vec::new();
    app.services = Vec::new();
    app.client = None;
    app.connected_context = None;
    app.tun_device_name = None;
    app.service_cidr = None;
    app.screen = Screen::Contexts;
    app.show_toast("Disconnected", false);
    assert(app@ =~= disconnected(old(app)@));
    Action::Disconnect { tasks, aliases }
}

/// Handles a key in normal mode.
pub fn handle_normal_key(app: &mut App, key: KeyCode) -> (res: Action)
    requires
        connects(old(app)@, key) ==> old(app)@.context_in_range(),
    ensures
        (final(app)@, res@) == normal_key(old(app)@, key),
{
    match app.screen {
        Screen::Splash => Action::Nothing,
        Screen::Contexts => handle_ctx_key(app, key),
        Screen::Services => handle_svc_key(app, key),
    }
}

/// Handles a key press.
pub fn handle_key(app: &mut App, key: KeyCode, ctrl: bool) -> (res: Action)
    requires
        connects(old(app)@, key) && old(app)@.mode == Mode::Normal ==> old(
            app,
        )@.context_in_range(),
    ensures
        (final(app)@, res@) == key_press(old(app)@, key, ctrl),
{
    if key == KeyCode::Char('c') && ctrl {
        app.should_quit = true;
        Action::Nothing
    } else if app.screen == Screen::Splash {
        Action::Nothing
    } else if app.mode == Mode::Normal {
        handle_normal_key(app, key)
    } else {
        if key == KeyCode::Char('q') || key == KeyCode::Esc {
            app.should_quit = true;
        }
        Action::Nothing
    }
}

// ── Ticks ───────────────────────────────────────────────

/// The toast after one more tick: it counts down, and goes when it has nothing left.
pub open spec fn toast_after_tick(toast: Option<ToastView>) -> Option<ToastView> {
    match toast {
        Some(t) => if t.tick == 0 {
            None
        } else {
            Some(ToastView { tick: (t.tick - 1) as u16, ..t })
        },
        None => None,
    }
}

/// Something is being waited for.
pub open spec fn waiting(app: AppView) -> bool {
    app.screen == Screen::Splash || app.mode == Mode::Connecting
}

/// The state after one more tick. The spinner turns while something is being waited for.
pub open spec fn after_tick(app: AppView) -> AppView {
    AppView {
        toast: toast_after_tick(app.toast),
        splash: if waiting(app) {
            SplashStateView { spinner_frame: app::next_frame(app.splash.spinner_frame), ..app.splash }
        } else {
            app.splash
        },
        ..app
    }
}

/// Lets one tick pass.
pub fn tick(app: &mut App)
    requires
        waiting(old(app)@) ==> old(app)@.splash.spinner_frame < usize::MAX,
    ensures
        final(app)@ == after_tick(old(app)@),
{
    let toast = app.toast.take();
    if let Some(t) = toast {
        let mut t = t;
        if t.tick > 0 {
            t.tick = t.tick - 1;
            app.toast = Some(t);
        }
    }
    if app.screen == Screen::Splash || app.mode == Mode::Connecting {
        app.splash.tick_spinner();
    }
}

// ── Background events ───────────────────────────────────

/// The message says that the network is set up.
pub open spec fn ends_setup(msg: Seq<char>) -> bool {
    text::has_text(msg, "Ready"@) || text::has_text(msg, "proxied"@) || text::has_text(
        msg,
        "use <svc>"@,
    )
}

/// The event does one more step of the splash.
pub open spec fn advances(app: AppView, event: AppEventView) -> bool {
    match event {
        AppEventView::AliasAdded { .. } | AppEventView::BgHandle { .. } => false,
        AppEventView::Error { .. } => false,
        AppEventView::Toast { msg, is_error } => app.mode == Mode::Connecting && !is_error
            && !ends_setup(msg),
        _ => true,
    }
}

/// What a background event does.
pub open spec fn after_event(app: AppView, event: AppEventView) -> (AppView, ActionView) {
    match event {
        AppEventView::ContextsLoaded { contexts } => (
            AppView {
                contexts: app::context_rows(contexts),
                screen: Screen::Contexts,
                ..app
            }.with_step(text::digits(contexts.len()) + " contexts loaded"@),
            ActionView::Nothing,
        ),
        AppEventView::Connected { client } => (
            AppView { client: Some(client), ..app }.with_step("Discovering services..."@),
            ActionView::ListServices { client, refresh: false },
        ),
        AppEventView::ServicesLoaded { services } => (
            AppView { services, svc_selected: 0, ..app }.with_step(
                text::digits(services.len()) + " services found — setting up network..."@,
            ),
            match app.client {
                Some(client) => ActionView::SetUpNetwork { client, services },
                None => ActionView::Nothing,
            },
        ),
        AppEventView::TunReady { device_name, service_cidr } => (
            AppView {
                tun_device_name: Some(device_name),
                service_cidr: Some(service_cidr),
                ..app
            }.with_step("Network device "@ + device_name + " ready"@),
            ActionView::Nothing,
        ),
        AppEventView::ServiceMapBuilt { entries } => (
            AppView { service_entries: entries, ..app }.with_step("Starting service proxies..."@),
            ActionView::Nothing,
        ),
        AppEventView::AliasAdded { ip } => (
            AppView { alias_ips: app.alias_ips.push(ip), ..app },
            ActionView::Nothing,
        ),
        AppEventView::BgHandle { handle } => (
            AppView { bg_handles: app.bg_handles.push(handle), ..app },
            ActionView::Nothing,
        ),
        AppEventView::Toast { msg, is_error } => (
            if app.mode == Mode::Connecting && !is_error {
                if ends_setup(msg) {
                    AppView {
                        mode: Mode::Normal,
                        screen: Screen::Services,
                        splash: app::fresh_splash(),
                        ..app
                    }.with_toast(msg, false)
                } else {
                    app.with_step(msg)
                }
            } else {
                app.with_toast(msg, is_error)
            },
            ActionView::Nothing,
        ),
        AppEventView::Error { msg } => (
            AppView { mode: Mode::Normal, splash: app::fresh_splash(), ..app }.with_toast(msg, true),
            ActionView::Nothing,
        ),
    }
}

fn count_text(n: usize, rest: &str) -> (res: String)
    ensures
        res@ == text::digits(n as nat) + rest@,
{
    let mut res = String::new();
    push_digits(&mut res, n as u64);
    res.append(rest);
    assert(res@ =~= text::digits(n as nat) + rest@);
    res
}

fn says_ready(msg: &str) -> (res: bool)
    ensures
        res == ends_setup(msg@),
{
    contains_text(msg, "Ready") || contains_text(msg, "proxied") || contains_text(msg, "use <svc>")
}

/// Whether the event does one more step of the splash, so that its counters need room.
pub fn takes_step(app: &App, event: &AppEvent) -> (res: bool)
    ensures
        res == advances(app@, event@),
{
    match event {
        AppEvent::AliasAdded { .. } => false,
        AppEvent::BgHandle { .. } => false,
        AppEvent::Error { .. } => false,
        AppEvent::Toast { msg, is_error } => app.mode == Mode::Connecting && !*is_error
            && !says_ready(msg.as_str()),
        _ => true,
    }
}

/// Takes a background event in.
pub fn process_event(app: &mut App, event: AppEvent) -> (res: Action)
    requires
        advances(old(app)@, event@) ==> old(app)@.has_room(),
    ensures
        (final(app)@, res@) == after_event(old(app)@, event@),
{
    match event {
        AppEvent::ContextsLoaded { contexts } => {
            let len: usize = contexts.len();
            assert(len == contexts.deep_view().len());
            app.contexts = make_rows(contexts);
            app.splash.advance(count_text(len, " contexts loaded").as_str());
            app.screen = Screen::Contexts;
            Action::Nothing
        },
        AppEvent::Connected { client } => {
            app.client = Some(client);
            app.splash.advance("Discovering services...");
            Action::ListServices { client, refresh: false }
        },
        AppEvent::ServicesLoaded { services } => {
            let len: usize = services.len();
            assert(len == services.deep_view().len());
            app.services = services;
            app.svc_selected = 0;
            app.splash.advance(
                count_text(len, " services found — setting up network...").as_str(),
            );
            app.setup_network_async()
        },
        AppEvent::TunReady { device_name, service_cidr } => {
            let mut msg = concat_text("Network device ", device_name.as_str());
            msg.append(" ready");
            app.tun_device_name = Some(device_name);
            app.service_cidr = Some(service_cidr);
            app.splash.advance(msg.as_str());
            Action::Nothing
        },
        AppEvent::ServiceMapBuilt { entries } => {
            app.service_entries = entries;
            app.splash.advance("Starting service proxies...");
            Action::Nothing
        },
        AppEvent::AliasAdded { ip } => {
            app.alias_ips.push(ip);
            Action::Nothing
        },
        AppEvent::BgHandle { handle } => {
            app.bg_handles.push(handle);
            Action::Nothing
        },
        AppEvent::Toast { msg, is_error } => {
            if app.mode == Mode::Connecting && !is_error {
                if says_ready(msg.as_str()) {
                    app.mode = Mode::Normal;
                    app.screen = Screen::Services;
                    app.splash = SplashState::new();
                    app.show_toast(msg.as_str(), false);
                } else {
                    app.splash.advance(msg.as_str());
                }
            } else {
                app.show_toast(msg.as_str(), is_error);
            }
            Action::Nothing
        },
        AppEvent::Error { msg } => {
            app.show_toast(msg.as_str(), true);
            app.mode = Mode::Normal;
            app.splash = SplashState::new();
            Action::Nothing
        },
    }
}

// ── Leaving ─────────────────────────────────────────────

/// What has to be undone before the program ends: tasks to stop, then commands to run.
#[derive(Debug)]
pub struct Shutdown {
    pub tasks: Vec<TaskId>,
    pub commands: Vec<Command>,
}

/// The commands that take the aliases away, and then the route of the device.
pub open spec fn shutdown_commands(app: AppView, platform: Platform) -> Seq<CommandView> {
    let aliases = tun::alias_removals(platform, app.alias_ips);
    match app.tun_device {
        Some(device) => match tun::cleanup_command(platform, device.service_cidr) {
            Some(command) => aliases.push(command),
            None => aliases,
        },
        None => aliases,
    }
}

/// Takes everything down: no task is left.
pub fn shut_down(app: &mut App, platform: Platform) -> (res: Shutdown)
    ensures
        res.tasks@ == old(app)@.bg_handles,
        res.commands.deep_view() == shutdown_commands(old(app)@, platform),
        final(app)@ == (AppView { bg_handles: Seq::empty(), ..old(app)@ }),
{
    let mut tasks: Vec<TaskId> = Vec::new();
    std::mem::swap(&mut tasks, &mut app.bg_handles);
    let mut commands = cleanup_aliases(platform, &app.alias_ips);
    if let Some(device) = &app.tun_device {
        if let Some(command) = cleanup_tun(device, platform) {
            push_viewed(&mut commands, command);
        }
    }
    assert(app@ =~= (AppView { bg_handles: Seq::empty(), ..old(app)@ }));
    Shutdown { tasks, commands }
}

// ── Laws ────────────────────────────────────────────────

/// What holds of the state at all times: both selections stand on an entry of their list, where it
/// has any; before the contexts are loaded the first one is selected; the spinner has ten frames.
pub open spec fn valid(app: AppView) -> bool {
    &&& app.context_in_range()
    &&& app.service_in_range()
    &&& app.screen == Screen::Splash ==> app.ctx_selected == 0
    &&& app.splash.spinner_frame < 10
}

/// The state that the program starts in is valid.
pub proof fn law_start_is_valid()
    ensures
        valid(app::fresh_app()),
{
}

/// No key press makes the state invalid.
pub proof fn law_keys_keep_state_valid(app: AppView, key: KeyCode, ctrl: bool)
    requires
        valid(app),
    ensures
        valid(key_press(app, key, ctrl).0),
{
}

/// No tick makes the state invalid.
pub proof fn law_ticks_keep_state_valid(app: AppView)
    requires
        valid(app),
    ensures
        valid(after_tick(app)),
{
}

/// No background event makes the state invalid, as long as the contexts are loaded only once, from
/// the splash.
pub proof fn law_events_keep_state_valid(app: AppView, event: AppEventView)
    requires
        valid(app),
        event is ContextsLoaded ==> app.screen == Screen::Splash,
    ensures
        valid(after_event(app, event).0),
{
}

/// Reading the contexts again never makes the state invalid.
pub proof fn law_refresh_keeps_state_valid(app: AppView, contexts: Seq<KubeContextView>)
    requires
        valid(app),
        contexts.len() <= usize::MAX,
    ensures
        valid(app.with_contexts(contexts)),
{
}

/// Ctrl-C quits in every state, and changes nothing else.
pub proof fn law_ctrl_c_quits(app: AppView)
    ensures
        key_press(app, KeyCode::Char('c'), true) == (
            (AppView { should_quit: true, ..app }),
            ActionView::Nothing,
        ),
{
}

/// On the splash no other key does anything.
pub proof fn law_splash_ignores_keys(app: AppView, key: KeyCode, ctrl: bool)
    requires
        app.screen == Screen::Splash,
        !(key == KeyCode::Char('c') && ctrl),
    ensures
        key_press(app, key, ctrl) == (app, ActionView::Nothing),
{
}

/// A program that was told to quit stays so.
pub proof fn law_quit_is_final(app: AppView, key: KeyCode, ctrl: bool, event: AppEventView)
    requires
        app.should_quit,
    ensures
        key_press(app, key, ctrl).0.should_quit,
        after_tick(app).should_quit,
        after_event(app, event).0.should_quit,
{
}

/// The toast after a number of ticks.
pub open spec fn toast_after(toast: Option<ToastView>, ticks: nat) -> Option<ToastView>
    decreases ticks,
{
    if ticks == 0 {
        toast
    } else {
        toast_after_tick(toast_after(toast, (ticks - 1) as nat))
    }
}

/// A toast is shown for as many ticks as it was given, with the same message, and is gone with the
/// next one.
pub proof fn law_toast_expires(toast: ToastView, ticks: nat)
    ensures
        ticks <= toast.tick ==> toast_after(Some(toast), ticks) == Some(
            ToastView { tick: (toast.tick - ticks) as u16, ..toast },
        ),
        ticks > toast.tick ==> toast_after(Some(toast), ticks) is None,
    decreases ticks,
{
    if ticks > 0 {
        law_toast_expires(toast, (ticks - 1) as nat);
    }
}

/// The message that ends a successful setup leads from connecting to the service list, whatever the
/// number of proxies, and is shown there.
pub proof fn law_ready_shows_services(app: AppView, proxied: nat)
    requires
        app.mode == Mode::Connecting,
    ensures
        ({
            let event = AppEventView::Toast { msg: setup::ready_message(proxied), is_error: false };
            let (now, action) = after_event(app, event);
            &&& now.mode == Mode::Normal
            &&& now.screen == Screen::Services
            &&& now.toast == Some(
                ToastView { message: setup::ready_message(proxied), is_error: false, tick: 30 },
            )
            &&& action == ActionView::Nothing
        }),
{
    reveal_strlit("Ready — ");
    reveal_strlit("Ready");
    let msg = setup::ready_message(proxied);
    assert(msg.subrange(0, 5) =~= "Ready"@);
    assert(text::occurs_at(msg, "Ready"@, 0));
}

/// An error ends connecting on whatever screen it comes, and is shown as one.
pub proof fn law_error_ends_connecting(app: AppView, msg: Seq<char>)
    ensures
        ({
            let now = after_event(app, AppEventView::Error { msg }).0;
            &&& now.mode == Mode::Normal
            &&& now.screen == app.screen
            &&& now.toast == Some(ToastView { message: msg, is_error: true, tick: 30 })
        }),
{
}

/// Leaving a cluster hands back every task and every alias that was reported, and keeps nothing of
/// the cluster.
pub proof fn law_disconnect_hands_everything_back(app: AppView, key: KeyCode)
    requires
        app.screen == Screen::Services,
        app.mode == Mode::Normal,
        key == KeyCode::Esc || key == KeyCode::Backspace,
    ensures
        ({
            let (now, action) = key_press(app, key, false);
            &&& action == (ActionView::Disconnect {
                tasks: app.bg_handles,
                aliases: app.alias_ips,
            })
            &&& now.bg_handles.len() == 0
            &&& now.alias_ips.len() == 0
            &&& now.services.len() == 0
            &&& now.service_entries.len() == 0
            &&& now.client is None
            &&& now.connected_context is None
            &&& now.tun_device_name is None
            &&& now.service_cidr is None
            &&& now.screen == Screen::Contexts
        }),
{
}

// ── Laws of the keys ────────────────────────────────────

/// In either list Up and `k` lead to the row before, Down and `j` to the row behind, Home and `g` to
/// the first row, End and `G` to the last one. No move leads out of the list, and none changes anything
/// but the selection or asks for anything.
pub proof fn law_keys_move_selection(app: AppView, key: KeyCode, ctrl: bool)
    requires
        app.mode == Mode::Normal,
        app.screen == Screen::Contexts || app.screen == Screen::Services,
        key == KeyCode::Up || key == KeyCode::Down || key == KeyCode::Home || key == KeyCode::End || key
            == KeyCode::Char('k') || key == KeyCode::Char('j') || key == KeyCode::Char('g') || key
            == KeyCode::Char('G'),
        app.screen == Screen::Contexts ==> app.ctx_selected < app.contexts.len() <= usize::MAX,
        app.screen == Screen::Services ==> app.svc_selected < app.services.len() <= usize::MAX,
    ensures
        ({
            let (now, action) = key_press(app, key, ctrl);
            let contexts = app.screen == Screen::Contexts;
            let len = if contexts {
                app.contexts.len() as int
            } else {
                app.services.len() as int
            };
            let was = if contexts {
                app.ctx_selected as int
            } else {
                app.svc_selected as int
            };
            let is = if contexts {
                now.ctx_selected as int
            } else {
                now.svc_selected as int
            };
            &&& action == ActionView::Nothing
            &&& contexts ==> now == (AppView { ctx_selected: now.ctx_selected, ..app })
            &&& !contexts ==> now == (AppView { svc_selected: now.svc_selected, ..app })
            &&& 0 <= is < len
            &&& key == KeyCode::Up || key == KeyCode::Char('k') ==> is == if was > 0 {
                was - 1
            } else {
                0
            }
            &&& key == KeyCode::Down || key == KeyCode::Char('j') ==> is == if was < len - 1 {
                was + 1
            } else {
                was
            }
            &&& key == KeyCode::Home || key == KeyCode::Char('g') ==> is == 0
            &&& key == KeyCode::End || key == KeyCode::Char('G') ==> is == len - 1
        }),
{
}

/// In an empty list no move leads past the first row.
pub proof fn law_empty_list_has_no_moves(app: AppView, key: KeyCode, ctrl: bool)
    requires
        app.mode == Mode::Normal,
    ensures
        app.screen == Screen::Contexts && app.contexts.len() == 0 && app.ctx_selected == 0
            ==> key_press(app, key, ctrl).0.ctx_selected == 0,
        app.screen == Screen::Services && app.services.len() == 0 && app.svc_selected == 0
            ==> key_press(app, key, ctrl).0.svc_selected == 0,
{
}

/// On the context list Enter connects to the selected context, by its name; without contexts it does
/// nothing. `r` asks for the contexts again and says so, and `q` quits.
pub proof fn law_context_keys(app: AppView, ctrl: bool)
    requires
        app.mode == Mode::Normal,
        app.screen == Screen::Contexts,
    ensures
        app.ctx_selected < app.contexts.len() ==> key_press(app, KeyCode::Enter, ctrl).1 == (
        ActionView::Connect { context: app.contexts[app.ctx_selected as int].ctx.name })
            && key_press(app, KeyCode::Enter, ctrl).0.connected_context == Some(
            app.contexts[app.ctx_selected as int].ctx.name,
        ) && key_press(app, KeyCode::Enter, ctrl).0.mode == Mode::Connecting && key_press(
            app,
            KeyCode::Enter,
            ctrl,
        ).0.screen == Screen::Contexts,
        app.contexts.len() == 0 ==> key_press(app, KeyCode::Enter, ctrl) == (
            app,
            ActionView::Nothing,
        ),
        key_press(app, KeyCode::Char('r'), ctrl) == (
            (AppView {
                toast: Some(ToastView { message: "Refreshed"@, is_error: false, tick: 30 }),
                ..app
            }),
            ActionView::RefreshContexts,
        ),
        key_press(app, KeyCode::Char('q'), ctrl) == (
            (AppView { should_quit: true, ..app }),
            ActionView::Nothing,
        ),
{
}

/// On the service list Enter and `o` open the URL of the selected service, and `y` copies it; without a
/// URL they do nothing. `r` lists the services of the client again, where there is one, and `q` quits.
/// Of these only `q` changes the state.
pub proof fn law_service_keys(app: AppView, key: KeyCode, ctrl: bool)
    requires
        app.mode == Mode::Normal,
        app.screen == Screen::Services,
    ensures
        key == KeyCode::Enter || key == KeyCode::Char('o') ==> {
            &&& key_press(app, key, ctrl).0 == app
            &&& app.url() matches Some(url) ==> key_press(app, key, ctrl).1 == (
            ActionView::OpenUrl { url })
            &&& app.url() is None ==> key_press(app, key, ctrl).1 == ActionView::Nothing
        },
        key == KeyCode::Char('y') ==> {
            &&& key_press(app, key, ctrl).0 == app
            &&& app.url() matches Some(url) ==> key_press(app, key, ctrl).1 == (
            ActionView::CopyUrl { url })
            &&& app.url() is None ==> key_press(app, key, ctrl).1 == ActionView::Nothing
        },
        key == KeyCode::Char('r') ==> {
            &&& key_press(app, key, ctrl).0 == app
            &&& app.client matches Some(client) ==> key_press(app, key, ctrl).1 == (
            ActionView::ListServices { client, refresh: true })
            &&& app.client is None ==> key_press(app, key, ctrl).1 == ActionView::Nothing
        },
        key == KeyCode::Char('q') ==> key_press(app, key, ctrl) == (
            (AppView { should_quit: true, ..app }),
            ActionView::Nothing,
        ),
{
}

/// Every other key does nothing: on the context list Esc and Backspace, `o` and `y` among them.
pub proof fn law_other_keys_do_nothing(app: AppView, key: KeyCode, ctrl: bool)
    requires
        app.mode == Mode::Normal,
        !(key == KeyCode::Char('c') && ctrl),
        key != KeyCode::Up && key != KeyCode::Down && key != KeyCode::Home && key != KeyCode::End && key
            != KeyCode::Char('k') && key != KeyCode::Char('j') && key != KeyCode::Char('g') && key
            != KeyCode::Char('G'),
        key != KeyCode::Char('q') && key != KeyCode::Char('r') && key != KeyCode::Enter,
        app.screen == Screen::Services ==> key != KeyCode::Char('o') && key != KeyCode::Char('y')
            && key != KeyCode::Esc && key != KeyCode::Backspace,
    ensures
        key_press(app, key, ctrl) == (app, ActionView::Nothing),
{
}

/// While connecting `q` and Esc quit, and every other key does nothing.
pub proof fn law_keys_while_connecting(app: AppView, key: KeyCode, ctrl: bool)
    requires
        app.mode == Mode::Connecting,
        app.screen != Screen::Splash,
        !(key == KeyCode::Char('c') && ctrl),
    ensures
        key == KeyCode::Char('q') || key == KeyCode::Esc ==> key_press(app, key, ctrl) == (
            (AppView { should_quit: true, ..app }),
            ActionView::Nothing,
        ),
        key != KeyCode::Char('q') && key != KeyCode::Esc ==> key_press(app, key, ctrl) == (
            app,
            ActionView::Nothing,
        ),
{
}

/// Leaving a cluster says so, and keeps all that is not of the cluster: the contexts and what is selected
/// of them, the device, and how far the splash has come.
pub proof fn law_disconnect_keeps_the_rest(app: AppView, key: KeyCode, ctrl: bool)
    requires
        app.screen == Screen::Services,
        app.mode == Mode::Normal,
        key == KeyCode::Esc || key == KeyCode::Backspace,
    ensures
        ({
            let (now, action) = key_press(app, key, ctrl);
            &&& action == (ActionView::Disconnect {
                tasks: app.bg_handles,
                aliases: app.alias_ips,
            })
            &&& now == (AppView {
                toast: Some(ToastView { message: "Disconnected"@, is_error: false, tick: 30 }),
                screen: Screen::Contexts,
                bg_handles: Seq::empty(),
                alias_ips: Seq::empty(),
                services: Seq::empty(),
                service_entries: Seq::empty(),
                client: None,
                connected_context: None,
                tun_device_name: None,
                service_cidr: None,
                ..app
            })
        }),
{
}

// ── Laws of ticks and events ────────────────────────────

/// A tick counts the message down and, on the splash and while connecting, turns the spinner. Nothing
/// else changes.
pub proof fn law_tick(app: AppView)
    ensures
        ({
            let now = after_tick(app);
            &&& app.toast is None ==> now.toast is None
            &&& app.toast matches Some(toast) ==> (toast.tick == 0 ==> now.toast is None) && (
            toast.tick > 0 ==> now.toast == Some(
                ToastView {
                    message: toast.message,
                    is_error: toast.is_error,
                    tick: (toast.tick - 1) as u16,
                },
            ))
            &&& app.screen == Screen::Splash || app.mode == Mode::Connecting ==> now.splash == (
            SplashStateView {
                spinner_frame: app::next_frame(app.splash.spinner_frame),
                ..app.splash
            })
            &&& app.screen != Screen::Splash && app.mode == Mode::Normal ==> now.splash
                == app.splash
            &&& now == (AppView { toast: now.toast, splash: now.splash, ..app })
        }),
{
}

/// Contexts that were loaded are listed, and the context list is shown.
pub proof fn law_loaded_contexts_are_shown(app: AppView, contexts: Seq<KubeContextView>)
    requires
        app.has_room(),
    ensures
        ({
            let (now, action) = after_event(app, AppEventView::ContextsLoaded { contexts });
            &&& action == ActionView::Nothing
            &&& now.screen == Screen::Contexts
            &&& now.contexts.len() == contexts.len()
            &&& forall|i: int|
                0 <= i < contexts.len() ==> (#[trigger] now.contexts[i]).ctx == contexts[i]
            &&& now.splash.current_step == app.splash.current_step + 1
            &&& now.splash.message == text::digits(contexts.len()) + " contexts loaded"@
            &&& now == (AppView {
                screen: now.screen,
                contexts: now.contexts,
                splash: now.splash,
                ..app
            })
        }),
{
}

/// A client that was made is kept, and its services are listed. Services that were listed are kept, with
/// the first one selected, and the network is set up for them with the client, where there is one.
pub proof fn law_connection_leads_to_services(
    app: AppView,
    client: app::ClientId,
    found: Seq<KubeServiceView>,
)
    requires
        app.has_room(),
    ensures
        ({
            let (now, action) = after_event(app, AppEventView::Connected { client });
            &&& action == (ActionView::ListServices { client, refresh: false })
            &&& now.client == Some(client)
            &&& now.splash.current_step == app.splash.current_step + 1
            &&& now.splash.message == "Discovering services..."@
            &&& now == (AppView { client: now.client, splash: now.splash, ..app })
        }),
        ({
            let (now, action) = after_event(app, AppEventView::ServicesLoaded { services: found });
            &&& app.client matches Some(client) ==> action == (ActionView::SetUpNetwork {
                client,
                services: found,
            })
            &&& app.client is None ==> action == ActionView::Nothing
            &&& now.services == found
            &&& now.svc_selected == 0
            &&& now.splash.current_step == app.splash.current_step + 1
            &&& now.splash.message == text::digits(found.len())
                + " services found — setting up network..."@
            &&& now == (AppView {
                services: now.services,
                svc_selected: now.svc_selected,
                splash: now.splash,
                ..app
            })
        }),
{
}

/// The device, the service network and the entries that were reported are kept as they are; each report
/// is one more step.
pub proof fn law_network_reports_are_kept(
    app: AppView,
    device_name: Seq<char>,
    service_cidr: Seq<char>,
    entries: Seq<ServiceEntryView>,
)
    requires
        app.has_room(),
    ensures
        ({
            let (now, action) = after_event(
                app,
                AppEventView::TunReady { device_name, service_cidr },
            );
            &&& action == ActionView::Nothing
            &&& now.tun_device_name == Some(device_name)
            &&& now.service_cidr == Some(service_cidr)
            &&& now.splash.current_step == app.splash.current_step + 1
            &&& now.splash.message == "Network device "@ + device_name + " ready"@
            &&& now == (AppView {
                tun_device_name: now.tun_device_name,
                service_cidr: now.service_cidr,
                splash: now.splash,
                ..app
            })
        }),
        ({
            let (now, action) = after_event(app, AppEventView::ServiceMapBuilt { entries });
            &&& action == ActionView::Nothing
            &&& now.service_entries == entries
            &&& now.splash.current_step == app.splash.current_step + 1
            &&& now.splash.message == "Starting service proxies..."@
            &&& now == (AppView {
                service_entries: now.service_entries,
                splash: now.splash,
                ..app
            })
        }),
{
}

/// Every alias and every task that is reported is remembered behind those before it, though it be one of
/// them, and nothing else changes.
pub proof fn law_aliases_and_tasks_are_remembered(app: AppView, ip: Ipv4Addr, handle: TaskId)
    ensures
        after_event(app, AppEventView::AliasAdded { ip }) == (
            (AppView { alias_ips: app.alias_ips.push(ip), ..app }),
            ActionView::Nothing,
        ),
        after_event(app, AppEventView::BgHandle { handle }) == (
            (AppView { bg_handles: app.bg_handles.push(handle), ..app }),
            ActionView::Nothing,
        ),
{
}

/// While connecting, a message that is no error and holds none of "Ready", "proxied" and "use <svc>" is
/// one more step, and connecting goes on.
pub proof fn law_progress_is_one_more_step(app: AppView, msg: Seq<char>)
    requires
        app.has_room(),
        app.mode == Mode::Connecting,
        !text::has_text(msg, "Ready"@),
        !text::has_text(msg, "proxied"@),
        !text::has_text(msg, "use <svc>"@),
    ensures
        ({
            let (now, action) = after_event(app, AppEventView::Toast { msg, is_error: false });
            &&& action == ActionView::Nothing
            &&& now.mode == Mode::Connecting
            &&& now.splash.current_step == app.splash.current_step + 1
            &&& now.splash.message == msg
            &&& now == (AppView { splash: now.splash, ..app })
        }),
{
}

/// While connecting, a message that is no error and holds "Ready", "proxied" or "use <svc>" ends
/// connecting: the service list is shown, with the message, and the splash is as at the start.
pub proof fn law_final_message_shows_services(app: AppView, msg: Seq<char>)
    requires
        app.mode == Mode::Connecting,
        text::has_text(msg, "Ready"@) || text::has_text(msg, "proxied"@) || text::has_text(
            msg,
            "use <svc>"@,
        ),
    ensures
        ({
            let (now, action) = after_event(app, AppEventView::Toast { msg, is_error: false });
            &&& action == ActionView::Nothing
            &&& now == (AppView {
                mode: Mode::Normal,
                screen: Screen::Services,
                splash: app::fresh_splash(),
                toast: Some(ToastView { message: msg, is_error: false, tick: 30 }),
                ..app
            })
        }),
{
}

/// A message that is an error, or that comes while nothing is being connected to, is shown, and changes
/// nothing else. An error report also ends connecting, and sets the splash back.
pub proof fn law_other_messages_are_shown(app: AppView, msg: Seq<char>, is_error: bool)
    ensures
        app.mode == Mode::Normal || is_error ==> after_event(
            app,
            AppEventView::Toast { msg, is_error },
        ) == (
            (AppView { toast: Some(ToastView { message: msg, is_error, tick: 30 }), ..app }),
            ActionView::Nothing,
        ),
        after_event(app, AppEventView::Error { msg }) == (
            (AppView {
                mode: Mode::Normal,
                splash: app::fresh_splash(),
                toast: Some(ToastView { message: msg, is_error: true, tick: 30 }),
                ..app
            }),
            ActionView::Nothing,
        ),
{
}

/// Shutting down takes every alias off the loopback interface, in order, and then the route of the
/// device, where there is a device that has one.
pub proof fn law_shutdown_undoes_everything(app: AppView, platform: Platform)
    ensures
        ({
            let commands = shutdown_commands(app, platform);
            let n = app.alias_ips.len() as int;
            let route = match app.tun_device {
                Some(device) => tun::cleanup_command(platform, device.service_cidr),
                None => None,
            };
            &&& forall|i: int|
                0 <= i < n ==> #[trigger] commands[i] == command::remove_alias(
                    platform,
                    ipv4::dotted(app.alias_ips[i]),
                )
            &&& route is None ==> commands.len() == n
            &&& route matches Some(command) ==> commands.len() == n + 1 && commands[n] == command
        }),
{
}

/// An event is said to do one more step exactly where the count of steps goes up by one.
pub proof fn law_announced_steps_are_taken(app: AppView, event: AppEventView)
    requires
        app.has_room(),
    ensures
        advances(app, event) <==> after_event(app, event).0.splash.current_step
            == app.splash.current_step + 1,
{
}

} // verus!
