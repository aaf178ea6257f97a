//! DNS resolver setup for portkube.
//!
//! We use short DNS names: `nginx.default` instead of
//! `nginx.default.svc.cluster.local`.
//!
//! Platform-specific setup:
//!   - macOS: `/etc/resolver/<namespace>` files (resolver(5))
//!   - Linux: modifies `/etc/resolv.conf` (saves backup)
//!   - Windows: adds DNS suffix via netsh
//!
//! This module says which steps to take and what to write; the caller takes them, as root/admin.
use crate::network::command::{
    self, add_alias_command, remove_alias_command, Command, CommandView, Platform,
};
use crate::text::{self, contains_text, is_blank, join_text, lines_of, push_viewed};
use vstd::prelude::*;

verus! {

/// Where the DNS proxy answers.
pub const DNS_PROXY_IP: &'static str = "127.0.0.53";

/// The file that remembers which namespaces were set up.
pub const MANAGED_LIST: &'static str = "/tmp/portkube-managed-resolvers";

/// The directory of resolver(5) files.
pub const RESOLVER_DIR: &'static str = "/etc/resolver";

/// The resolver configuration of a Linux machine.
pub const RESOLV_CONF: &'static str = "/etc/resolv.conf";

/// What the name of a backup ends with.
pub const BACKUP_SUFFIX: &'static str = ".portkube-backup";

/// The line that marks the configuration as changed.
pub const MARK_LINE: &'static str = "# portkube — do not edit this line";

// ── Contents ────────────────────────────────────────────

/// The resolver(5) file that sends a domain to the proxy.
pub open spec fn resolver_file() -> Seq<char> {
    "# portkube — do not edit\nnameserver "@ + DNS_PROXY_IP@ + "\nport 53\ntimeout 2\n"@
}

/// The resolver(5) file that sends a domain to the proxy.
pub fn resolver_content() -> (res: String)
    ensures
        res@ == resolver_file(),
{
    let mut res = "# portkube — do not edit\nnameserver ".to_string();
    res.append(DNS_PROXY_IP);
    res.append("\nport 53\ntimeout 2\n");
    res
}

/// A line that was there before: it names neither portkube nor the proxy.
pub open spec fn foreign(line: Seq<char>) -> bool {
    !text::has_text(line, "portkube"@) && !text::has_text(line, DNS_PROXY_IP@)
}

/// The lines of a configuration that were there before.
pub open spec fn foreign_lines(content: Seq<char>) -> Seq<Seq<char>> {
    text::lines(content).filter(|line: Seq<char>| foreign(line))
}

/// The line that names the proxy as a server.
pub open spec fn server_line() -> Seq<char> {
    "nameserver "@ + DNS_PROXY_IP@
}

/// The lines that send every name to the proxy.
pub open spec fn proxy_lines() -> Seq<Seq<char>> {
    seq![MARK_LINE@, server_line()]
}

/// A configuration made of the given lines, each ended by a line feed.
pub open spec fn written(ls: Seq<Seq<char>>) -> Seq<char> {
    text::join(ls, "\n"@) + "\n"@
}

/// The configuration with the proxy in front of what was there before.
pub open spec fn with_proxy(content: Seq<char>) -> Seq<char> {
    written(proxy_lines() + foreign_lines(content))
}

/// The configuration with only what was there before.
pub open spec fn without_proxy(content: Seq<char>) -> Seq<char> {
    written(foreign_lines(content))
}

fn push_foreign_lines(res: &mut Vec<String>, content: &str)
    ensures
        final(res).deep_view() == old(res).deep_view() + foreign_lines(content@),
{
    let ls = lines_of(content);
    let ghost all = ls.deep_view();
    let ghost keep = |line: Seq<char>| foreign(line);
    let ghost before = res.deep_view();
    let mut i: usize = 0;
    proof {
        reveal(Seq::filter);
        assert(all.take(0).filter(keep) =~= Seq::empty());
        assert(before + all.take(0).filter(keep) =~= before);
    }
    while i < ls.len()
        invariant
            i <= ls@.len(),
            all == ls.deep_view(),
            keep == (|line: Seq<char>| foreign(line)),
            res.deep_view() == before + all.take(i as int).filter(keep),
        decreases ls@.len() - i,
    {
        let line = &ls[i];
        proof {
            reveal(Seq::filter);
            assert(all.take(i + 1).drop_last() =~= all.take(i as int));
            assert(all.take(i + 1).last() == line@);
        }
        if !contains_text(line.as_str(), "portkube") && !contains_text(line.as_str(), DNS_PROXY_IP) {
            push_viewed(res, line.clone());
            assert(before + all.take(i + 1).filter(keep) =~= (before + all.take(i as int).filter(
                keep,
            )).push(line@));
        }
        i += 1;
    }
    assert(all.take(i as int) =~= all);
}

fn write_lines(ls: &Vec<String>) -> (res: String)
    ensures
        res@ == written(ls.deep_view()),
{
    let mut res = join_text(ls, "\n");
    res.append("\n");
    res
}

/// Puts the proxy in front of what a configuration held before.
pub fn add_proxy(existing: &str) -> (res: String)
    ensures
        res@ == with_proxy(existing@),
{
    let mut ls: Vec<String> = Vec::new();
    push_viewed(&mut ls, MARK_LINE.to_string());
    let mut server = "nameserver ".to_string();
    server.append(DNS_PROXY_IP);
    push_viewed(&mut ls, server);
    assert(ls.deep_view() =~= proxy_lines());
    push_foreign_lines(&mut ls, existing);
    write_lines(&ls)
}

/// Leaves only what a configuration held before.
pub fn remove_proxy(content: &str) -> (res: String)
    ensures
        res@ == without_proxy(content@),
{
    let mut ls: Vec<String> = Vec::new();
    assert(ls.deep_view() =~= Seq::empty());
    push_foreign_lines(&mut ls, content);
    assert(ls.deep_view() =~= foreign_lines(content@));
    write_lines(&ls)
}

// ── Managed namespaces ──────────────────────────────────

/// The namespaces that a managed list names: its lines, without blank ones.
pub open spec fn managed_in(list: Seq<char>) -> Seq<Seq<char>> {
    text::lines(list).filter(|line: Seq<char>| !text::blank(line))
}

/// The managed list: one namespace to a line.
pub fn managed_list(namespaces: &Vec<String>) -> (res: String)
    ensures
        res@ == text::join(namespaces.deep_view(), "\n"@),
{
    join_text(namespaces, "\n")
}

/// Reads the managed list back.
pub fn managed_namespaces(list: &str) -> (res: Vec<String>)
    ensures
        res.deep_view() == managed_in(list@),
{
    let ls = lines_of(list);
    let ghost all = ls.deep_view();
    let ghost keep = |line: Seq<char>| !text::blank(line);
    let mut res: Vec<String> = Vec::new();
    let mut i: usize = 0;
    proof {
        reveal(Seq::filter);
        assert(all.take(0).filter(keep) =~= Seq::empty());
        assert(res.deep_view() =~= Seq::empty());
    }
    while i < ls.len()
        invariant
            i <= ls@.len(),
            all == ls.deep_view(),
            keep == (|line: Seq<char>| !text::blank(line)),
            res.deep_view() == all.take(i as int).filter(keep),
        decreases ls@.len() - i,
    {
        let line = &ls[i];
        proof {
            reveal(Seq::filter);
            assert(all.take(i + 1).drop_last() =~= all.take(i as int));
            assert(all.take(i + 1).last() == line@);
        }
        if !is_blank(line.as_str()) {
            push_viewed(&mut res, line.clone());
        }
        i += 1;
    }
    assert(all.take(i as int) =~= all);
    res
}

// ── Steps ───────────────────────────────────────────────

/// Something to do to the machine.
#[derive(Debug)]
pub enum StepAction {
    Run { command: Command },
    CreateDir { path: String },
    /// Rename the file to its backup, where `needs_backup` says so.
    MoveAside { path: String, backup: String },
    /// Copy the file to its backup, where `needs_backup` says so.
    CopyAside { path: String, backup: String },
    Write { path: String, content: String },
    /// Write what `add_proxy` makes of the file; a file that cannot be read counts as empty.
    AddProxy { path: String },
    Remove { path: String },
    /// Rename the backup to the file, where there is a backup.
    Restore { path: String, backup: String },
    /// Do what `restore_or_strip` says.
    RestoreOrStrip { path: String, backup: String },
}

#[verifier::ext_equal]
pub enum StepActionView {
    Run { command: CommandView },
    CreateDir { path: Seq<char> },
    MoveAside { path: Seq<char>, backup: Seq<char> },
    CopyAside { path: Seq<char>, backup: Seq<char> },
    Write { path: Seq<char>, content: Seq<char> },
    AddProxy { path: Seq<char> },
    Remove { path: Seq<char> },
    Restore { path: Seq<char>, backup: Seq<char> },
    RestoreOrStrip { path: Seq<char>, backup: Seq<char> },
}

impl View for StepAction {
    type V = StepActionView;

    open spec fn view(&self) -> StepActionView {
        match self {
            StepAction::Run { command } => StepActionView::Run { command: command@ },
            StepAction::CreateDir { path } => StepActionView::CreateDir { path: path@ },
            StepAction::MoveAside { path, backup } => StepActionView::MoveAside {
                path: path@,
                backup: backup@,
            },
            StepAction::CopyAside { path, backup } => StepActionView::CopyAside {
                path: path@,
                backup: backup@,
            },
            StepAction::Write { path, content } => StepActionView::Write {
                path: path@,
                content: content@,
            },
            StepAction::AddProxy { path } => StepActionView::AddProxy { path: path@ },
            StepAction::Remove { path } => StepActionView::Remove { path: path@ },
            StepAction::Restore { path, backup } => StepActionView::Restore {
                path: path@,
                backup: backup@,
            },
            StepAction::RestoreOrStrip { path, backup } => StepActionView::RestoreOrStrip {
                path: path@,
                backup: backup@,
            },
        }
    }
}

impl DeepView for StepAction {
    type V = StepActionView;

    open spec fn deep_view(&self) -> StepActionView {
        self@
    }
}


/// A step, and what its failure is called. Where that is missing, a failure changes nothing.
#[derive(Debug)]
pub struct Step {
    pub action: StepAction,
    pub failure: Option<String>,
}

#[verifier::ext_equal]
pub struct StepView {
    pub action: StepActionView,
    pub failure: Option<Seq<char>>,
}

impl View for Step {
    type V = StepView;

    open spec fn view(&self) -> StepView {
        StepView { action: self.action@, failure: self.failure.deep_view() }
    }
}

impl DeepView for Step {
    type V = StepView;

    open spec fn deep_view(&self) -> StepView {
        self@
    }
}


/// The path with the suffix of a backup.
pub open spec fn backup_of(path: Seq<char>) -> Seq<char> {
    path + BACKUP_SUFFIX@
}

/// The resolver(5) file of a namespace.
pub open spec fn resolver_path(namespace: Seq<char>) -> Seq<char> {
    RESOLVER_DIR@ + "/"@ + namespace
}

/// The steps that send one namespace to the proxy.
pub open spec fn namespace_steps(namespace: Seq<char>) -> Seq<StepView> {
    let path = resolver_path(namespace);
    seq![
        StepView {
            action: StepActionView::MoveAside { path, backup: backup_of(path) },
            failure: None,
        },
        StepView {
            action: StepActionView::Write { path, content: resolver_file() },
            failure: Some("write "@ + path),
        },
    ]
}

/// The steps that send the namespaces to the proxy, one namespace after the other.
pub open spec fn all_namespace_steps(namespaces: Seq<Seq<char>>) -> Seq<StepView>
    decreases namespaces.len(),
{
    if namespaces.len() == 0 {
        Seq::empty()
    } else {
        all_namespace_steps(namespaces.drop_last()) + namespace_steps(namespaces.last())
    }
}

/// The command that points the machine at the proxy.
pub open spec fn point_command(platform: Platform) -> CommandView {
    match platform {
        Platform::Windows => CommandView {
            program: "netsh"@,
            args: seq![
                "interface"@,
                "ip"@,
                "add"@,
                "dns"@,
                "Loopback Pseudo-Interface 1"@,
                DNS_PROXY_IP@,
                "index=1"@,
            ],
        },
        _ => command::add_alias(platform, DNS_PROXY_IP@),
    }
}

/// The command that takes the machine off the proxy.
pub open spec fn unpoint_command(platform: Platform) -> CommandView {
    match platform {
        Platform::Windows => CommandView {
            program: "netsh"@,
            args: seq![
                "interface"@,
                "ip"@,
                "delete"@,
                "dns"@,
                "Loopback Pseudo-Interface 1"@,
                DNS_PROXY_IP@,
            ],
        },
        _ => command::remove_alias(platform, DNS_PROXY_IP@),
    }
}

/// The steps that send the namespaces to the proxy. The first one that has a name for its failure
/// and fails ends the setup.
pub open spec fn install_steps(platform: Platform, namespaces: Seq<Seq<char>>) -> Seq<StepView> {
    let point = StepActionView::Run { command: point_command(platform) };
    let remember = StepView {
        action: StepActionView::Write {
            path: MANAGED_LIST@,
            content: text::join(namespaces, "\n"@),
        },
        failure: Some("save managed list"@),
    };
    match platform {
        Platform::MacOs => (seq![
            StepView { action: point, failure: Some("create loopback alias 127.0.0.53"@) },
            StepView {
                action: StepActionView::CreateDir { path: RESOLVER_DIR@ },
                failure: Some("create /etc/resolver"@),
            },
        ] + all_namespace_steps(namespaces)).push(remember),
        Platform::Linux => seq![
            StepView { action: point, failure: Some("create loopback alias 127.0.0.53"@) },
            StepView {
                action: StepActionView::CopyAside {
                    path: RESOLV_CONF@,
                    backup: backup_of(RESOLV_CONF@),
                },
                failure: None,
            },
            StepView {
                action: StepActionView::AddProxy { path: RESOLV_CONF@ },
                failure: Some("write /etc/resolv.conf"@),
            },
            remember,
        ],
        Platform::Windows => seq![
            StepView { action: point, failure: Some("configure DNS via netsh"@) },
            remember,
        ],
    }
}

/// The steps that give one namespace its old resolver back.
pub open spec fn restore_steps(namespace: Seq<char>) -> Seq<StepView> {
    let path = resolver_path(namespace);
    seq![
        StepView { action: StepActionView::Remove { path }, failure: None },
        StepView {
            action: StepActionView::Restore { path, backup: backup_of(path) },
            failure: None,
        },
    ]
}

/// The steps that give the namespaces their old resolvers back.
pub open spec fn all_restore_steps(namespaces: Seq<Seq<char>>) -> Seq<StepView>
    decreases namespaces.len(),
{
    if namespaces.len() == 0 {
        Seq::empty()
    } else {
        all_restore_steps(namespaces.drop_last()) + restore_steps(namespaces.last())
    }
}

/// The steps that take the proxy out again. None of them can fail the whole.
pub open spec fn uninstall_steps(platform: Platform, list: Seq<char>) -> Seq<StepView> {
    let restore = match platform {
        Platform::MacOs => all_restore_steps(managed_in(list)),
        Platform::Linux => seq![
            StepView {
                action: StepActionView::RestoreOrStrip {
                    path: RESOLV_CONF@,
                    backup: backup_of(RESOLV_CONF@),
                },
                failure: None,
            },
        ],
        Platform::Windows => Seq::empty(),
    };
    restore + seq![
        StepView {
            action: StepActionView::Run { command: unpoint_command(platform) },
            failure: None,
        },
        StepView { action: StepActionView::Remove { path: MANAGED_LIST@ }, failure: None },
    ]
}

fn push_step(steps: &mut Vec<Step>, action: StepAction, failure: Option<String>)
    ensures
        final(steps).deep_view() == old(steps).deep_view().push(
            StepView { action: action@, failure: failure.deep_view() },
        ),
{
    push_viewed(steps, Step { action, failure });
}

fn backup_path(path: &str) -> (res: String)
    ensures
        res@ == backup_of(path@),
{
    let mut res = path.to_string();
    res.append(BACKUP_SUFFIX);
    res
}

fn path_of(namespace: &str) -> (res: String)
    ensures
        res@ == resolver_path(namespace@),
{
    let mut res = RESOLVER_DIR.to_string();
    res.append("/");
    res.append(namespace);
    res
}

fn point(platform: Platform) -> (res: StepAction)
    ensures
        res@ == (StepActionView::Run { command: point_command(platform) }),
{
    let command = match platform {
        Platform::Windows => Command::new("netsh").arg("interface").arg("ip").arg("add").arg(
            "dns",
        ).arg("Loopback Pseudo-Interface 1").arg(DNS_PROXY_IP).arg("index=1"),
        _ => add_alias_command(platform, DNS_PROXY_IP),
    };
    StepAction::Run { command }
}

fn unpoint(platform: Platform) -> (res: StepAction)
    ensures
        res@ == (StepActionView::Run { command: unpoint_command(platform) }),
{
    let command = match platform {
        Platform::Windows => Command::new("netsh").arg("interface").arg("ip").arg("delete").arg(
            "dns",
        ).arg("Loopback Pseudo-Interface 1").arg(DNS_PROXY_IP),
        _ => remove_alias_command(platform, DNS_PROXY_IP),
    };
    StepAction::Run { command }
}

/// The steps that send the namespaces to the proxy.
pub fn install(platform: Platform, namespaces: &Vec<String>) -> (res: Vec<Step>)
    ensures
        res.deep_view() == install_steps(platform, namespaces.deep_view()),
{
    let mut steps: Vec<Step> = Vec::new();
    assert(steps.deep_view() =~= Seq::empty());
    match platform {
        Platform::MacOs => {
            push_step(
                &mut steps,
                point(platform),
                Some("create loopback alias 127.0.0.53".to_string()),
            );
            push_step(
                &mut steps,
                StepAction::CreateDir { path: RESOLVER_DIR.to_string() },
                Some("create /etc/resolver".to_string()),
            );
            let ghost all = namespaces.deep_view();
            let ghost start = steps.deep_view();
            let mut i: usize = 0;
            assert(start + all_namespace_steps(all.take(0)) =~= start);
            while i < namespaces.len()
                invariant
                    i <= namespaces@.len(),
                    all == namespaces.deep_view(),
                    steps.deep_view() == start + all_namespace_steps(all.take(i as int)),
                decreases namespaces@.len() - i,
            {
                let path = path_of(namespaces[i].as_str());
                let mut failure = "write ".to_string();
                failure.append(path.as_str());
                let backup = backup_path(path.as_str());
                push_step(&mut steps, StepAction::MoveAside { path: path.clone(), backup }, None);
                push_step(
                    &mut steps,
                    StepAction::Write { path, content: resolver_content() },
                    Some(failure),
                );
                proof {
                    assert(all.take(i + 1).drop_last() =~= all.take(i as int));
                    assert(all.take(i + 1).last() == namespaces@[i as int]@);
                    assert(steps.deep_view() =~= start + all_namespace_steps(all.take(i + 1)));
                }
                i += 1;
            }
            assert(all.take(i as int) =~= all);
        },
        Platform::Linux => {
            push_step(
                &mut steps,
                point(platform),
                Some("create loopback alias 127.0.0.53".to_string()),
            );
            push_step(
                &mut steps,
                StepAction::CopyAside {
                    path: RESOLV_CONF.to_string(),
                    backup: backup_path(RESOLV_CONF),
                },
                None,
            );
            push_step(
                &mut steps,
                StepAction::AddProxy { path: RESOLV_CONF.to_string() },
                Some("write /etc/resolv.conf".to_string()),
            );
        },
        Platform::Windows => {
            push_step(&mut steps, point(platform), Some("configure DNS via netsh".to_string()));
        },
    }
    push_step(
        &mut steps,
        StepAction::Write { path: MANAGED_LIST.to_string(), content: managed_list(namespaces) },
        Some("save managed list".to_string()),
    );
    assert(steps.deep_view() =~= install_steps(platform, namespaces.deep_view()));
    steps
}

/// The steps that take the proxy out again, given what the managed list holds; a list that cannot
/// be read counts as empty.
pub fn uninstall(platform: Platform, list: &str) -> (res: Vec<Step>)
    ensures
        res.deep_view() == uninstall_steps(platform, list@),
{
    let mut steps: Vec<Step> = Vec::new();
    assert(steps.deep_view() =~= Seq::empty());
    match platform {
        Platform::MacOs => {
            let namespaces = managed_namespaces(list);
            let ghost all = namespaces.deep_view();
            let mut i: usize = 0;
            assert(all_restore_steps(all.take(0)) =~= Seq::empty());
            while i < namespaces.len()
                invariant
                    i <= namespaces@.len(),
                    all == namespaces.deep_view(),
                    steps.deep_view() == all_restore_steps(all.take(i as int)),
                decreases namespaces@.len() - i,
            {
                let path = path_of(namespaces[i].as_str());
                let backup = backup_path(path.as_str());
                push_step(&mut steps, StepAction::Remove { path: path.clone() }, None);
                push_step(&mut steps, StepAction::Restore { path, backup }, None);
                proof {
                    assert(all.take(i + 1).drop_last() =~= all.take(i as int));
                    assert(all.take(i + 1).last() == namespaces@[i as int]@);
                    assert(steps.deep_view() =~= all_restore_steps(all.take(i + 1)));
                }
                i += 1;
            }
            assert(all.take(i as int) =~= all);
        },
        Platform::Linux => {
            push_step(
                &mut steps,
                StepAction::RestoreOrStrip {
                    path: RESOLV_CONF.to_string(),
                    backup: backup_path(RESOLV_CONF),
                },
                None,
            );
        },
        Platform::Windows => {},
    }
    push_step(&mut steps, unpoint(platform), None);
    push_step(&mut steps, StepAction::Remove { path: MANAGED_LIST.to_string() }, None);
    assert(steps.deep_view() =~= uninstall_steps(platform, list@));
    steps
}

/// A file is put aside only where there is one, and never over an older backup.
pub open spec fn backup_needed(exists: bool, backup_exists: bool) -> bool {
    exists && !backup_exists
}

/// Whether a file is put aside.
pub fn needs_backup(exists: bool, backup_exists: bool) -> (res: bool)
    ensures
        res == backup_needed(exists, backup_exists),
{
    exists && !backup_exists
}

/// How a configuration gets its old contents back.
#[derive(Debug)]
pub enum Cleanup {
    /// By renaming the backup.
    Rename,
    /// By writing it without the lines of the proxy.
    Write { content: String },
    /// It cannot be read: leave it.
    Leave,
}

pub enum CleanupView {
    Rename,
    Write { content: Seq<char> },
    Leave,
}

impl View for Cleanup {
    type V = CleanupView;

    open spec fn view(&self) -> CleanupView {
        match self {
            Cleanup::Rename => CleanupView::Rename,
            Cleanup::Write { content } => CleanupView::Write { content: content@ },
            Cleanup::Leave => CleanupView::Leave,
        }
    }
}

impl DeepView for Cleanup {
    type V = CleanupView;

    open spec fn deep_view(&self) -> CleanupView {
        self@
    }
}


/// The backup comes back where there is one; otherwise the lines of the proxy go.
pub open spec fn cleanup_of(backup_exists: bool, content: Option<Seq<char>>) -> CleanupView {
    if backup_exists {
        CleanupView::Rename
    } else {
        match content {
            Some(c) => CleanupView::Write { content: without_proxy(c) },
            None => CleanupView::Leave,
        }
    }
}

/// Decides how a configuration gets its old contents back.
pub fn restore_or_strip(backup_exists: bool, content: Option<String>) -> (res: Cleanup)
    ensures
        res@ == cleanup_of(backup_exists, content.deep_view()),
{
    if backup_exists {
        Cleanup::Rename
    } else {
        match content {
            Some(c) => Cleanup::Write { content: remove_proxy(c.as_str()) },
            None => Cleanup::Leave,
        }
    }
}

// ── Laws ────────────────────────────────────────────────

/// No line that was there before ends with a carriage return.
pub open spec fn plainly_ended(content: Seq<char>) -> bool {
    forall|i: int|
        0 <= i < foreign_lines(content).len() ==> text::strip_return(
            #[trigger] foreign_lines(content)[i],
        ) == foreign_lines(content)[i]
}

proof fn lemma_filter_keeps(s: Seq<Seq<char>>, keep: spec_fn(Seq<char>) -> bool)
    requires
        forall|i: int| 0 <= i < s.len() ==> keep(#[trigger] s[i]),
    ensures
        s.filter(keep) == s,
    decreases s.len(),
{
    reveal(Seq::filter);
    if s.len() > 0 {
        let init = s.drop_last();
        assert forall|i: int| 0 <= i < init.len() implies keep(#[trigger] init[i]) by {
            assert(init[i] == s[i]);
        }
        lemma_filter_keeps(init, keep);
        assert(keep(s[s.len() - 1]));
        assert(init.push(s.last()) =~= s);
    } else {
        assert(s.filter(keep) =~= s);
    }
}

proof fn lemma_filter_origin(s: Seq<Seq<char>>, keep: spec_fn(Seq<char>) -> bool)
    ensures
        forall|i: int|
            0 <= i < s.filter(keep).len() ==> keep(#[trigger] s.filter(keep)[i]) && s.contains(
                s.filter(keep)[i],
            ),
    decreases s.len(),
{
    reveal(Seq::filter);
    if s.len() > 0 {
        let init = s.drop_last();
        lemma_filter_origin(init, keep);
        assert forall|i: int| 0 <= i < s.filter(keep).len() implies keep(
            #[trigger] s.filter(keep)[i],
        ) && s.contains(s.filter(keep)[i]) by {
            if i < init.filter(keep).len() {
                let line = init.filter(keep)[i];
                assert(line == s.filter(keep)[i]);
                let k = choose|k: int| 0 <= k < init.len() && init[k] == line;
                assert(s[k] == line);
            } else {
                assert(s[s.len() - 1] == s.filter(keep)[i]);
            }
        }
    }
}

/// Lines that hold no line feed and end without a carriage return are read back as written.
proof fn lemma_written_read_back(ls: Seq<Seq<char>>)
    requires
        ls.len() >= 1,
        forall|i: int|
            0 <= i < ls.len() ==> !(#[trigger] ls[i]).contains('\n') && text::strip_return(ls[i])
                == ls[i],
    ensures
        text::lines(written(ls)) == ls,
{
    reveal_strlit("\n");
    assert("\n"@ =~= seq!['\n']);
    text::lemma_lines_written(ls);
}

/// The lines of the proxy are its own, and each is one line.
proof fn lemma_proxy_lines()
    ensures
        forall|i: int|
            0 <= i < proxy_lines().len() ==> !foreign(#[trigger] proxy_lines()[i])
                && !proxy_lines()[i].contains('\n') && text::strip_return(proxy_lines()[i])
                == proxy_lines()[i],
        proxy_lines().filter(|line: Seq<char>| foreign(line)) == Seq::<Seq<char>>::empty(),
{
    reveal_strlit("# portkube — do not edit this line");
    reveal_strlit("portkube");
    reveal_strlit("nameserver ");
    reveal_strlit("127.0.0.53");
    assert(text::occurs_at(MARK_LINE@, "portkube"@, 2)) by {
        assert(MARK_LINE@.subrange(2, 10) =~= "portkube"@);
    }
    assert(text::occurs_at(server_line(), DNS_PROXY_IP@, 11)) by {
        assert(server_line().subrange(11, 21) =~= DNS_PROXY_IP@);
    }
    reveal_with_fuel(Seq::filter, 3);
    let own = proxy_lines();
    assert(own.drop_last() =~= seq![MARK_LINE@]);
    assert(own.drop_last().drop_last() =~= Seq::empty());
}

/// Putting the proxy in front of a configuration keeps what was there before.
pub proof fn law_install_keeps_lines(content: Seq<char>)
    requires
        plainly_ended(content),
    ensures
        foreign_lines(with_proxy(content)) == foreign_lines(content),
{
    let keep = |line: Seq<char>| foreign(line);
    let kept = foreign_lines(content);
    let ls = proxy_lines() + kept;
    lemma_proxy_lines();
    lemma_filter_origin(text::lines(content), keep);
    text::lemma_lines_hold_no_feed(content);
    assert forall|i: int| 0 <= i < ls.len() implies !(#[trigger] ls[i]).contains('\n')
        && text::strip_return(ls[i]) == ls[i] by {
        if i < 2 {
            assert(ls[i] == proxy_lines()[i]);
        } else {
            assert(ls[i] == kept[i - 2]);
            let k = choose|k: int|
                0 <= k < text::lines(content).len() && text::lines(content)[k] == kept[i - 2];
            assert(!text::lines(content)[k].contains('\n'));
        }
    }
    lemma_written_read_back(ls);
    Seq::filter_distributes_over_add(proxy_lines(), kept, keep);
    lemma_filter_keeps(kept, keep);
    assert(Seq::<Seq<char>>::empty() + kept =~= kept);
}

/// Installing twice is installing once.
pub proof fn law_install_again(content: Seq<char>)
    requires
        plainly_ended(content),
    ensures
        with_proxy(with_proxy(content)) == with_proxy(content),
{
    law_install_keeps_lines(content);
}

/// Taking the proxy out after it was put in is taking it out of the configuration as it was.
pub proof fn law_uninstall_after_install(content: Seq<char>)
    requires
        plainly_ended(content),
    ensures
        without_proxy(with_proxy(content)) == without_proxy(content),
{
    law_install_keeps_lines(content);
}

/// A configuration that never named the proxy comes back character for character.
pub proof fn law_uninstall_restores(ls: Seq<Seq<char>>)
    requires
        ls.len() >= 1,
        forall|i: int|
            0 <= i < ls.len() ==> foreign(#[trigger] ls[i]) && !ls[i].contains('\n')
                && text::strip_return(ls[i]) == ls[i],
    ensures
        without_proxy(with_proxy(written(ls))) == written(ls),
{
    lemma_written_read_back(ls);
    lemma_filter_keeps(ls, |line: Seq<char>| foreign(line));
    law_uninstall_after_install(written(ls));
}

/// The managed list gives back the namespaces that it was made of.
pub proof fn law_managed_list_read_back(namespaces: Seq<Seq<char>>)
    requires
        forall|i: int|
            0 <= i < namespaces.len() ==> !text::blank(#[trigger] namespaces[i])
                && !namespaces[i].contains('\n') && text::strip_return(namespaces[i])
                == namespaces[i],
    ensures
        managed_in(text::join(namespaces, "\n"@)) == namespaces,
{
    reveal_strlit("\n");
    assert("\n"@ =~= seq!['\n']);
    let keep = |line: Seq<char>| !text::blank(line);
    if namespaces.len() == 0 {
        assert(text::lines(text::join(namespaces, "\n"@)) =~= namespaces);
    } else {
        assert(!text::blank(namespaces[namespaces.len() - 1]));
        text::lemma_lines_joined(namespaces);
    }
    lemma_filter_keeps(namespaces, keep);
}

// ── What the steps do to files ──────────────────────────

/// The files of a machine: texts by path.
pub type Files = Map<Seq<char>, Seq<char>>;

/// The files after one was renamed.
pub open spec fn renamed(files: Files, from: Seq<char>, to: Seq<char>) -> Files {
    files.remove(from).insert(to, files[from])
}

/// The files after a step that worked. Commands and directories leave them alone.
pub open spec fn after_step(files: Files, action: StepActionView) -> Files {
    match action {
        StepActionView::Run { .. } | StepActionView::CreateDir { .. } => files,
        StepActionView::MoveAside { path, backup } => if backup_needed(
            files.contains_key(path),
            files.contains_key(backup),
        ) {
            renamed(files, path, backup)
        } else {
            files
        },
        StepActionView::CopyAside { path, backup } => if backup_needed(
            files.contains_key(path),
            files.contains_key(backup),
        ) {
            files.insert(backup, files[path])
        } else {
            files
        },
        StepActionView::Write { path, content } => files.insert(path, content),
        StepActionView::AddProxy { path } => files.insert(
            path,
            with_proxy(
                if files.contains_key(path) {
                    files[path]
                } else {
                    Seq::empty()
                },
            ),
        ),
        StepActionView::Remove { path } => files.remove(path),
        StepActionView::Restore { path, backup } => if files.contains_key(backup) {
            renamed(files, backup, path)
        } else {
            files
        },
        StepActionView::RestoreOrStrip { path, backup } => match cleanup_of(
            files.contains_key(backup),
            if files.contains_key(path) {
                Some(files[path])
            } else {
                None
            },
        ) {
            CleanupView::Rename => renamed(files, backup, path),
            CleanupView::Write { content } => files.insert(path, content),
            CleanupView::Leave => files,
        },
    }
}

/// The files after steps that all worked, one after the other.
pub open spec fn after_steps(files: Files, steps: Seq<StepView>) -> Files
    decreases steps.len(),
{
    if steps.len() == 0 {
        files
    } else {
        after_step(after_steps(files, steps.drop_last()), steps.last().action)
    }
}

/// The files after the namespaces were sent to the proxy.
pub open spec fn after_install(
    platform: Platform,
    namespaces: Seq<Seq<char>>,
    files: Files,
) -> Files {
    after_steps(files, install_steps(platform, namespaces))
}

/// The files after the proxy was taken out again, by what the managed list then holds.
pub open spec fn after_uninstall(platform: Platform, files: Files) -> Files {
    after_steps(
        files,
        uninstall_steps(
            platform,
            if files.contains_key(MANAGED_LIST@) {
                files[MANAGED_LIST@]
            } else {
                Seq::empty()
            },
        ),
    )
}

proof fn lemma_steps_push(files: Files, steps: Seq<StepView>, step: StepView)
    ensures
        after_steps(files, steps.push(step)) == after_step(
            after_steps(files, steps),
            step.action,
        ),
{
    assert(steps.push(step).drop_last() =~= steps);
}

proof fn lemma_steps_add(files: Files, a: Seq<StepView>, b: Seq<StepView>)
    ensures
        after_steps(files, a + b) == after_steps(after_steps(files, a), b),
    decreases b.len(),
{
    if b.len() == 0 {
        assert(a + b =~= a);
    } else {
        lemma_steps_add(files, a, b.drop_last());
        assert((a + b).drop_last() =~= a + b.drop_last());
        assert((a + b).last() == b.last());
    }
}

/// The paths that a Linux machine is set up with are three.
proof fn lemma_linux_paths()
    ensures
        RESOLV_CONF@ != backup_of(RESOLV_CONF@),
        RESOLV_CONF@ != MANAGED_LIST@,
        backup_of(RESOLV_CONF@) != MANAGED_LIST@,
{
    reveal_strlit("/etc/resolv.conf");
    reveal_strlit(".portkube-backup");
    reveal_strlit("/tmp/portkube-managed-resolvers");
    assert(RESOLV_CONF@[1] == 'e');
    assert(backup_of(RESOLV_CONF@)[1] == 'e');
    assert(MANAGED_LIST@[1] == 't');
    assert(backup_of(RESOLV_CONF@).len() == RESOLV_CONF@.len() + BACKUP_SUFFIX@.len());
}

/// On Linux, where there was a configuration and no backup of it, uninstalling after installing gives
/// every file back as it was, the configuration with whatever lines it had; neither a backup nor a
/// managed list is left.
pub proof fn law_linux_uninstall_undoes_install(files: Files, namespaces: Seq<Seq<char>>)
    requires
        files.contains_key(RESOLV_CONF@),
        !files.contains_key(backup_of(RESOLV_CONF@)),
    ensures
        after_uninstall(Platform::Linux, after_install(Platform::Linux, namespaces, files))
            == files.remove(MANAGED_LIST@),
        files.remove(MANAGED_LIST@)[RESOLV_CONF@] == files[RESOLV_CONF@],
{
    let conf = RESOLV_CONF@;
    let backup = backup_of(conf);
    lemma_linux_paths();
    let into = install_steps(Platform::Linux, namespaces);
    let none = Seq::<StepView>::empty();
    assert(into =~= none.push(into[0]).push(into[1]).push(into[2]).push(into[3]));
    lemma_steps_push(files, none, into[0]);
    lemma_steps_push(files, none.push(into[0]), into[1]);
    lemma_steps_push(files, none.push(into[0]).push(into[1]), into[2]);
    lemma_steps_push(files, none.push(into[0]).push(into[1]).push(into[2]), into[3]);
    let set_up = after_install(Platform::Linux, namespaces, files);
    assert(set_up == files.insert(backup, files[conf]).insert(conf, with_proxy(files[conf])).insert(
        MANAGED_LIST@,
        text::join(namespaces, "\n"@),
    ));
    let out = uninstall_steps(Platform::Linux, set_up[MANAGED_LIST@]);
    assert(out =~= none.push(out[0]).push(out[1]).push(out[2]));
    lemma_steps_push(set_up, none, out[0]);
    lemma_steps_push(set_up, none.push(out[0]), out[1]);
    lemma_steps_push(set_up, none.push(out[0]).push(out[1]), out[2]);
    assert(after_steps(set_up, out) =~= files.remove(MANAGED_LIST@));
}

/// On Linux, where there was no configuration, uninstalling after installing leaves one without lines,
/// and neither a backup nor a managed list.
pub proof fn law_linux_uninstall_without_configuration(files: Files, namespaces: Seq<Seq<char>>)
    requires
        !files.contains_key(RESOLV_CONF@),
        !files.contains_key(backup_of(RESOLV_CONF@)),
    ensures
        after_uninstall(Platform::Linux, after_install(Platform::Linux, namespaces, files))
            == files.insert(RESOLV_CONF@, "\n"@).remove(MANAGED_LIST@),
{
    let conf = RESOLV_CONF@;
    lemma_linux_paths();
    let into = install_steps(Platform::Linux, namespaces);
    let none = Seq::<StepView>::empty();
    assert(into =~= none.push(into[0]).push(into[1]).push(into[2]).push(into[3]));
    lemma_steps_push(files, none, into[0]);
    lemma_steps_push(files, none.push(into[0]), into[1]);
    lemma_steps_push(files, none.push(into[0]).push(into[1]), into[2]);
    lemma_steps_push(files, none.push(into[0]).push(into[1]).push(into[2]), into[3]);
    let set_up = after_install(Platform::Linux, namespaces, files);
    let empty = Seq::<char>::empty();
    assert(set_up == files.insert(conf, with_proxy(empty)).insert(
        MANAGED_LIST@,
        text::join(namespaces, "\n"@),
    ));
    let out = uninstall_steps(Platform::Linux, set_up[MANAGED_LIST@]);
    assert(out =~= none.push(out[0]).push(out[1]).push(out[2]));
    lemma_steps_push(set_up, none, out[0]);
    lemma_steps_push(set_up, none.push(out[0]), out[1]);
    lemma_steps_push(set_up, none.push(out[0]).push(out[1]), out[2]);
    reveal(Seq::filter);
    assert(text::lines(empty) =~= Seq::empty());
    assert(foreign_lines(empty) =~= Seq::empty());
    law_uninstall_after_install(empty);
    assert(text::join(foreign_lines(empty), "\n"@) + "\n"@ =~= "\n"@);
    assert(after_steps(set_up, out) =~= files.insert(conf, "\n"@).remove(MANAGED_LIST@));
}

/// On Windows uninstalling after installing gives every file back as it was, without a managed list.
pub proof fn law_windows_uninstall_undoes_install(files: Files, namespaces: Seq<Seq<char>>)
    ensures
        after_uninstall(Platform::Windows, after_install(Platform::Windows, namespaces, files))
            == files.remove(MANAGED_LIST@),
{
    let into = install_steps(Platform::Windows, namespaces);
    let none = Seq::<StepView>::empty();
    assert(into =~= none.push(into[0]).push(into[1]));
    lemma_steps_push(files, none, into[0]);
    lemma_steps_push(files, none.push(into[0]), into[1]);
    let set_up = after_install(Platform::Windows, namespaces, files);
    let out = uninstall_steps(Platform::Windows, set_up[MANAGED_LIST@]);
    assert(out =~= none.push(out[0]).push(out[1]));
    lemma_steps_push(set_up, none, out[0]);
    lemma_steps_push(set_up, none.push(out[0]), out[1]);
    assert(after_steps(set_up, out) =~= files.remove(MANAGED_LIST@));
}

/// Namespaces whose resolver files and backups are all different files, and which a managed list can
/// hold.
pub open spec fn separate(namespaces: Seq<Seq<char>>) -> bool {
    &&& forall|i: int|
        0 <= i < namespaces.len() ==> !text::blank(#[trigger] namespaces[i])
            && !namespaces[i].contains('\n') && text::strip_return(namespaces[i]) == namespaces[i]
    &&& forall|i: int, j: int|
        0 <= i < j < namespaces.len() ==> #[trigger] namespaces[i] != #[trigger] namespaces[j]
    &&& forall|i: int, j: int|
        0 <= i < namespaces.len() && 0 <= j < namespaces.len() ==> #[trigger] namespaces[i]
            != #[trigger] backup_of(namespaces[j])
}

/// The path is the resolver file of one of the namespaces from `from` up to `to`, or its backup.
spec fn touched(namespaces: Seq<Seq<char>>, from: int, to: int, path: Seq<char>) -> bool {
    exists|i: int|
        from <= i < to && (path == resolver_path(#[trigger] namespaces[i]) || path == backup_of(
            resolver_path(namespaces[i]),
        ))
}

/// Both hold the same at the path.
spec fn same_at(a: Files, b: Files, path: Seq<char>) -> bool {
    &&& a.contains_key(path) <==> b.contains_key(path)
    &&& a.contains_key(path) ==> a[path] == b[path]
}

/// `now` is `was` with the files of the namespaces from `from` up to `to` put aside.
spec fn aside(was: Files, now: Files, namespaces: Seq<Seq<char>>, from: int, to: int) -> bool {
    &&& forall|i: int|
        from <= i < to ==> {
            let path = resolver_path(#[trigger] namespaces[i]);
            &&& now.contains_key(path)
            &&& now[path] == resolver_file()
            &&& now.contains_key(backup_of(path)) <==> was.contains_key(path)
            &&& was.contains_key(path) ==> now[backup_of(path)] == was[path]
            &&& !was.contains_key(backup_of(path))
        }
    &&& forall|path: Seq<char>|
        !(#[trigger] touched(namespaces, from, to, path)) ==> same_at(was, now, path)
}

proof fn lemma_prefix_injective(prefix: Seq<char>, a: Seq<char>, b: Seq<char>)
    requires
        prefix + a == prefix + b,
    ensures
        a == b,
{
    assert((prefix + a).skip(prefix.len() as int) =~= a);
    assert((prefix + b).skip(prefix.len() as int) =~= b);
}

proof fn lemma_backup_injective(a: Seq<char>, b: Seq<char>)
    requires
        backup_of(a) == backup_of(b),
    ensures
        a == b,
{
    let size = BACKUP_SUFFIX@.len() as int;
    assert(backup_of(a).take(backup_of(a).len() - size) =~= a);
    assert(backup_of(b).take(backup_of(b).len() - size) =~= b);
}

/// The files of two namespaces are different ones.
proof fn lemma_paths_apart(namespaces: Seq<Seq<char>>, i: int, j: int)
    requires
        separate(namespaces),
        0 <= i < namespaces.len(),
        0 <= j < namespaces.len(),
    ensures
        i != j ==> resolver_path(namespaces[i]) != resolver_path(namespaces[j]),
        i != j ==> backup_of(resolver_path(namespaces[i])) != backup_of(
            resolver_path(namespaces[j]),
        ),
        resolver_path(namespaces[i]) != backup_of(resolver_path(namespaces[j])),
        resolver_path(namespaces[i]) != MANAGED_LIST@,
        backup_of(resolver_path(namespaces[i])) != MANAGED_LIST@,
{
    let dir = RESOLVER_DIR@ + "/"@;
    let a = resolver_path(namespaces[i]);
    let b = resolver_path(namespaces[j]);
    if a == b {
        lemma_prefix_injective(dir, namespaces[i], namespaces[j]);
    }
    if backup_of(a) == backup_of(b) {
        lemma_backup_injective(a, b);
        lemma_prefix_injective(dir, namespaces[i], namespaces[j]);
    }
    if a == backup_of(b) {
        assert(backup_of(b) =~= dir + backup_of(namespaces[j]));
        lemma_prefix_injective(dir, namespaces[i], backup_of(namespaces[j]));
    }
    reveal_strlit("/etc/resolver");
    reveal_strlit("/");
    reveal_strlit("/tmp/portkube-managed-resolvers");
    assert(a[1] == 'e');
    assert(backup_of(a)[1] == 'e');
    assert(MANAGED_LIST@[1] == 't');
}

proof fn lemma_install_one(was: Files, now: Files, namespaces: Seq<Seq<char>>, n: int)
    requires
        separate(namespaces),
        0 <= n < namespaces.len(),
        aside(was, now, namespaces, 0, n),
        !was.contains_key(backup_of(resolver_path(namespaces[n]))),
    ensures
        aside(was, after_steps(now, namespace_steps(namespaces[n])), namespaces, 0, n + 1),
{
    let steps = namespace_steps(namespaces[n]);
    let none = Seq::<StepView>::empty();
    assert(steps =~= none.push(steps[0]).push(steps[1]));
    lemma_steps_push(now, none, steps[0]);
    lemma_steps_push(now, none.push(steps[0]), steps[1]);
    let next = after_steps(now, steps);
    let path = resolver_path(namespaces[n]);
    let backup = backup_of(path);
    assert forall|i: int| 0 <= i < n implies path != resolver_path(#[trigger] namespaces[i]) && path
        != backup_of(resolver_path(namespaces[i])) && backup != resolver_path(namespaces[i])
        && backup != backup_of(resolver_path(namespaces[i])) by {
        lemma_paths_apart(namespaces, n, i);
        lemma_paths_apart(namespaces, i, n);
    }
    lemma_paths_apart(namespaces, n, n);
    assert(!touched(namespaces, 0, n, path));
    assert(!touched(namespaces, 0, n, backup));
    assert(same_at(was, now, path));
    assert(same_at(was, now, backup));
    assert forall|i: int| 0 <= i < n + 1 implies ({
        let p = resolver_path(#[trigger] namespaces[i]);
        &&& next.contains_key(p)
        &&& next[p] == resolver_file()
        &&& next.contains_key(backup_of(p)) <==> was.contains_key(p)
        &&& was.contains_key(p) ==> next[backup_of(p)] == was[p]
        &&& !was.contains_key(backup_of(p))
    }) by {}
    assert forall|p: Seq<char>| !(#[trigger] touched(namespaces, 0, n + 1, p)) implies same_at(
        was,
        next,
        p,
    ) by {
        if touched(namespaces, 0, n, p) {
            let i = choose|i: int|
                0 <= i < n && (p == resolver_path(#[trigger] namespaces[i]) || p == backup_of(
                    resolver_path(namespaces[i]),
                ));
            assert(0 <= i < n + 1 && (p == resolver_path(namespaces[i]) || p == backup_of(
                resolver_path(namespaces[i]),
            )));
            assert(touched(namespaces, 0, n + 1, p));
        }
        assert(p != path && p != backup) by {
            if p == path || p == backup {
                assert(p == resolver_path(namespaces[n]) || p == backup_of(
                    resolver_path(namespaces[n]),
                ));
                assert(touched(namespaces, 0, n + 1, p));
            }
        }
    }
}

proof fn lemma_install_all(files: Files, namespaces: Seq<Seq<char>>, n: int)
    requires
        separate(namespaces),
        0 <= n <= namespaces.len(),
        forall|i: int|
            0 <= i < namespaces.len() ==> !files.contains_key(
                backup_of(resolver_path(#[trigger] namespaces[i])),
            ),
    ensures
        aside(
            files,
            after_steps(files, all_namespace_steps(namespaces.take(n))),
            namespaces,
            0,
            n,
        ),
    decreases n,
{
    if n > 0 {
        lemma_install_all(files, namespaces, n - 1);
        let done = namespaces.take(n - 1);
        assert(namespaces.take(n).drop_last() =~= done);
        assert(namespaces.take(n).last() == namespaces[n - 1]);
        lemma_steps_add(files, all_namespace_steps(done), namespace_steps(namespaces[n - 1]));
        lemma_install_one(
            files,
            after_steps(files, all_namespace_steps(done)),
            namespaces,
            n - 1,
        );
    } else {
        assert(namespaces.take(0) =~= Seq::empty());
    }
}

proof fn lemma_restore_one(was: Files, now: Files, namespaces: Seq<Seq<char>>, n: int)
    requires
        separate(namespaces),
        0 <= n < namespaces.len(),
        aside(was, now, namespaces, n, namespaces.len() as int),
    ensures
        aside(
            was,
            after_steps(now, restore_steps(namespaces[n])),
            namespaces,
            n + 1,
            namespaces.len() as int,
        ),
{
    let all = namespaces.len() as int;
    let steps = restore_steps(namespaces[n]);
    let none = Seq::<StepView>::empty();
    assert(steps =~= none.push(steps[0]).push(steps[1]));
    lemma_steps_push(now, none, steps[0]);
    lemma_steps_push(now, none.push(steps[0]), steps[1]);
    let next = after_steps(now, steps);
    let path = resolver_path(namespaces[n]);
    let backup = backup_of(path);
    assert forall|i: int| n < i < all implies path != resolver_path(#[trigger] namespaces[i])
        && path != backup_of(resolver_path(namespaces[i])) && backup != resolver_path(
        namespaces[i],
    ) && backup != backup_of(resolver_path(namespaces[i])) by {
        lemma_paths_apart(namespaces, n, i);
        lemma_paths_apart(namespaces, i, n);
    }
    lemma_paths_apart(namespaces, n, n);
    assert(same_at(was, next, path));
    assert(same_at(was, next, backup));
    assert forall|p: Seq<char>| !(#[trigger] touched(namespaces, n + 1, all, p)) implies same_at(
        was,
        next,
        p,
    ) by {
        if p != path && p != backup {
            if touched(namespaces, n, all, p) {
                let i = choose|i: int|
                    n <= i < all && (p == resolver_path(#[trigger] namespaces[i]) || p == backup_of(
                        resolver_path(namespaces[i]),
                    ));
                assert(n + 1 <= i < all && (p == resolver_path(namespaces[i]) || p == backup_of(
                    resolver_path(namespaces[i]),
                )));
                assert(touched(namespaces, n + 1, all, p));
            }
            assert(same_at(was, now, p));
        }
    }
}

proof fn lemma_restore_all(was: Files, now: Files, namespaces: Seq<Seq<char>>, n: int)
    requires
        separate(namespaces),
        0 <= n <= namespaces.len(),
        aside(was, now, namespaces, 0, namespaces.len() as int),
    ensures
        aside(
            was,
            after_steps(now, all_restore_steps(namespaces.take(n))),
            namespaces,
            n,
            namespaces.len() as int,
        ),
    decreases n,
{
    if n > 0 {
        lemma_restore_all(was, now, namespaces, n - 1);
        let done = namespaces.take(n - 1);
        assert(namespaces.take(n).drop_last() =~= done);
        assert(namespaces.take(n).last() == namespaces[n - 1]);
        lemma_steps_add(now, all_restore_steps(done), restore_steps(namespaces[n - 1]));
        lemma_restore_one(
            was,
            after_steps(now, all_restore_steps(done)),
            namespaces,
            n - 1,
        );
    } else {
        assert(namespaces.take(0) =~= Seq::empty());
    }
}

/// On macOS, where none of the namespaces had a backup of its resolver file, uninstalling after
/// installing gives every file back as it was; neither a backup nor a managed list is left.
pub proof fn law_macos_uninstall_undoes_install(files: Files, namespaces: Seq<Seq<char>>)
    requires
        separate(namespaces),
        forall|i: int|
            0 <= i < namespaces.len() ==> !files.contains_key(
                backup_of(resolver_path(#[trigger] namespaces[i])),
            ),
    ensures
        after_uninstall(Platform::MacOs, after_install(Platform::MacOs, namespaces, files))
            == files.remove(MANAGED_LIST@),
{
    let all = namespaces.len() as int;
    let list = text::join(namespaces, "\n"@);
    let none = Seq::<StepView>::empty();
    let into = install_steps(Platform::MacOs, namespaces);
    let middle = all_namespace_steps(namespaces);
    let head = none.push(into[0]).push(into[1]);
    assert(into =~= (head + middle).push(into.last()));
    lemma_steps_push(files, none, into[0]);
    lemma_steps_push(files, none.push(into[0]), into[1]);
    lemma_steps_add(files, head, middle);
    lemma_steps_push(files, head + middle, into.last());
    assert(namespaces.take(all) =~= namespaces);
    lemma_install_all(files, namespaces, all);
    let moved = after_steps(files, middle);
    let set_up = after_install(Platform::MacOs, namespaces, files);
    assert(set_up == moved.insert(MANAGED_LIST@, list));

    let was = files.insert(MANAGED_LIST@, list);
    assert forall|i: int| 0 <= i < all implies resolver_path(#[trigger] namespaces[i])
        != MANAGED_LIST@ && backup_of(resolver_path(namespaces[i])) != MANAGED_LIST@ by {
        lemma_paths_apart(namespaces, i, i);
    }
    assert forall|p: Seq<char>| !(#[trigger] touched(namespaces, 0, all, p)) implies same_at(
        was,
        set_up,
        p,
    ) by {
        assert(same_at(files, moved, p));
    }
    assert(aside(was, set_up, namespaces, 0, all));
    lemma_restore_all(was, set_up, namespaces, all);
    let back = after_steps(set_up, all_restore_steps(namespaces));
    assert forall|p: Seq<char>| same_at(was, back, p) by {
        assert(!touched(namespaces, all, all, p));
    }
    assert forall|p: Seq<char>| #[trigger] was.contains_key(p) <==> back.contains_key(p) by {
        assert(same_at(was, back, p));
    }
    assert(back =~= was) by {
        assert forall|p: Seq<char>| was.contains_key(p) implies #[trigger] was[p] == back[p] by {
            assert(same_at(was, back, p));
        }
        assert(back.dom() =~= was.dom());
    }

    law_managed_list_read_back(namespaces);
    let out = uninstall_steps(Platform::MacOs, list);
    let restore = all_restore_steps(namespaces);
    let stop = out[restore.len() as int];
    let forget = out[restore.len() as int + 1];
    assert(out =~= restore.push(stop).push(forget));
    lemma_steps_push(set_up, restore, stop);
    lemma_steps_push(set_up, restore.push(stop), forget);
    assert(after_steps(set_up, out) =~= files.remove(MANAGED_LIST@));
}

// ── What becomes of each line ───────────────────────────

/// Every line that holds neither the text `portkube` nor the address of the proxy is kept, in its
/// place: putting the proxy in gives its two lines and then those, and taking it out gives those alone.
pub proof fn law_plain_lines_are_kept(ls: Seq<Seq<char>>)
    requires
        ls.len() >= 1,
        forall|i: int|
            0 <= i < ls.len() ==> !(#[trigger] ls[i]).contains('\n') && (ls[i].len() > 0
                ==> ls[i].last() != '\r') && !text::has_text(ls[i], "portkube"@) && !text::has_text(
                ls[i],
                "127.0.0.53"@,
            ),
    ensures
        with_proxy(text::join(ls, "\n"@) + "\n"@) == text::join(
            seq!["# portkube — do not edit this line"@, "nameserver "@ + "127.0.0.53"@] + ls,
            "\n"@,
        ) + "\n"@,
        without_proxy(text::join(ls, "\n"@) + "\n"@) == text::join(ls, "\n"@) + "\n"@,
{
    lemma_written_read_back(ls);
    lemma_filter_keeps(ls, |line: Seq<char>| foreign(line));
    assert(text::join(ls, "\n"@) + "\n"@ == written(ls));
}

/// A line that holds the text `portkube` or the address of the proxy is dropped: the result is the same
/// as without it.
pub proof fn law_lines_of_the_proxy_are_dropped(ls: Seq<Seq<char>>, k: int, line: Seq<char>)
    requires
        ls.len() >= 1,
        0 <= k <= ls.len(),
        forall|i: int|
            0 <= i < ls.len() ==> !(#[trigger] ls[i]).contains('\n') && (ls[i].len() > 0
                ==> ls[i].last() != '\r'),
        !line.contains('\n'),
        line.len() > 0 ==> line.last() != '\r',
        text::has_text(line, "portkube"@) || text::has_text(line, "127.0.0.53"@),
    ensures
        with_proxy(text::join(ls.insert(k, line), "\n"@) + "\n"@) == with_proxy(
            text::join(ls, "\n"@) + "\n"@,
        ),
        without_proxy(text::join(ls.insert(k, line), "\n"@) + "\n"@) == without_proxy(
            text::join(ls, "\n"@) + "\n"@,
        ),
{
    let more = ls.insert(k, line);
    assert forall|i: int| 0 <= i < more.len() implies !(#[trigger] more[i]).contains('\n')
        && text::strip_return(more[i]) == more[i] by {
        if i < k {
            assert(more[i] == ls[i]);
        } else if i > k {
            assert(more[i] == ls[i - 1]);
        }
    }
    lemma_written_read_back(more);
    lemma_written_read_back(ls);
    lemma_filter_skips(ls, k, line, |line: Seq<char>| foreign(line));
    assert(text::join(ls, "\n"@) + "\n"@ == written(ls));
    assert(text::join(more, "\n"@) + "\n"@ == written(more));
}

proof fn lemma_filter_skips(
    s: Seq<Seq<char>>,
    k: int,
    x: Seq<char>,
    keep: spec_fn(Seq<char>) -> bool,
)
    requires
        0 <= k <= s.len(),
        !keep(x),
    ensures
        s.insert(k, x).filter(keep) == s.filter(keep),
{
    let front = s.take(k);
    let back = s.skip(k);
    assert(s =~= front + back);
    assert(s.insert(k, x) =~= front.push(x) + back);
    Seq::filter_distributes_over_add(front, back, keep);
    Seq::filter_distributes_over_add(front.push(x), back, keep);
    reveal(Seq::filter);
    assert(front.push(x).drop_last() =~= front);
}

/// Where every line holds the text `portkube` or the address of the proxy, and where there is no line
/// at all, only the two lines of the proxy are left once it is put in, and none once it is taken out.
pub proof fn law_nothing_else_is_left(ls: Seq<Seq<char>>)
    requires
        forall|i: int|
            0 <= i < ls.len() ==> !(#[trigger] ls[i]).contains('\n') && (ls[i].len() > 0
                ==> ls[i].last() != '\r') && (text::has_text(ls[i], "portkube"@) || text::has_text(
                ls[i],
                "127.0.0.53"@,
            )),
    ensures
        ({
            let content = if ls.len() == 0 {
                Seq::<char>::empty()
            } else {
                text::join(ls, "\n"@) + "\n"@
            };
            &&& with_proxy(content) == text::join(
                seq!["# portkube — do not edit this line"@, "nameserver "@ + "127.0.0.53"@],
                "\n"@,
            ) + "\n"@
            &&& without_proxy(content) == "\n"@
        }),
{
    let keep = |line: Seq<char>| foreign(line);
    let none = Seq::<Seq<char>>::empty();
    let content = if ls.len() == 0 {
        Seq::<char>::empty()
    } else {
        written(ls)
    };
    if ls.len() > 0 {
        lemma_written_read_back(ls);
    } else {
        assert(text::lines(content) =~= ls);
    }
    lemma_filter_drops(ls, keep);
    assert(foreign_lines(content) =~= none);
    assert(proxy_lines() + none =~= proxy_lines());
    assert(written(none) =~= "\n"@);
}

proof fn lemma_filter_drops(s: Seq<Seq<char>>, keep: spec_fn(Seq<char>) -> bool)
    requires
        forall|i: int| 0 <= i < s.len() ==> !keep(#[trigger] s[i]),
    ensures
        s.filter(keep) == Seq::<Seq<char>>::empty(),
    decreases s.len(),
{
    reveal(Seq::filter);
    if s.len() > 0 {
        let init = s.drop_last();
        assert forall|i: int| 0 <= i < init.len() implies !keep(#[trigger] init[i]) by {
            assert(init[i] == s[i]);
        }
        lemma_filter_drops(init, keep);
        assert(!keep(s[s.len() - 1]));
    }
}

/// How lines end does not matter: a carriage return before every line feed, or no line feed behind the
/// last line, gives the same result.
pub proof fn law_line_ends_do_not_matter(ls: Seq<Seq<char>>)
    requires
        ls.len() >= 1,
        forall|i: int|
            0 <= i < ls.len() ==> !(#[trigger] ls[i]).contains('\n') && (ls[i].len() > 0
                ==> ls[i].last() != '\r'),
    ensures
        ({
            let plain = text::join(ls, seq!['\n']) + seq!['\n'];
            let returned = text::join(ls.map_values(|l: Seq<char>| l.push('\r')), seq!['\n'])
                + seq!['\n'];
            let open = text::join(ls, seq!['\n']);
            &&& with_proxy(returned) == with_proxy(plain)
            &&& without_proxy(returned) == without_proxy(plain)
            &&& managed_in(returned) == managed_in(plain)
            &&& ls.last().len() > 0 ==> with_proxy(open) == with_proxy(plain) && without_proxy(open)
                == without_proxy(plain) && managed_in(open) == managed_in(plain)
        }),
{
    text::lemma_lines_written(ls);
    text::law_lines_with_returns(ls);
    if ls.last().len() > 0 {
        text::lemma_lines_joined(ls);
    }
}

/// A blank line of the managed list names no namespace: the list is read as without it.
pub proof fn law_blank_lines_name_nothing(ls: Seq<Seq<char>>, k: int, line: Seq<char>)
    requires
        ls.len() >= 1,
        0 <= k <= ls.len(),
        forall|i: int|
            0 <= i < ls.len() ==> !(#[trigger] ls[i]).contains('\n') && (ls[i].len() > 0
                ==> ls[i].last() != '\r'),
        !line.contains('\n'),
        line.len() > 0 ==> line.last() != '\r',
        forall|i: int| 0 <= i < line.len() ==> text::is_space(#[trigger] line[i]),
    ensures
        managed_in(text::join(ls.insert(k, line), "\n"@) + "\n"@) == managed_in(
            text::join(ls, "\n"@) + "\n"@,
        ),
{
    let more = ls.insert(k, line);
    assert forall|i: int| 0 <= i < more.len() implies !(#[trigger] more[i]).contains('\n')
        && text::strip_return(more[i]) == more[i] by {
        if i < k {
            assert(more[i] == ls[i]);
        } else if i > k {
            assert(more[i] == ls[i - 1]);
        }
    }
    lemma_written_read_back(more);
    lemma_written_read_back(ls);
    lemma_filter_skips(ls, k, line, |line: Seq<char>| !text::blank(line));
    assert(text::join(ls, "\n"@) + "\n"@ == written(ls));
    assert(text::join(more, "\n"@) + "\n"@ == written(more));
}

/// Every line of the managed list that holds more than white space names a namespace, in its place.
pub proof fn law_filled_lines_name_namespaces(ls: Seq<Seq<char>>)
    requires
        ls.len() >= 1,
        forall|i: int|
            0 <= i < ls.len() ==> !(#[trigger] ls[i]).contains('\n') && (ls[i].len() > 0
                ==> ls[i].last() != '\r') && exists|j: int|
                0 <= j < ls[i].len() && !text::is_space(#[trigger] ls[i][j]),
    ensures
        managed_in(text::join(ls, "\n"@) + "\n"@) == ls,
{
    lemma_written_read_back(ls);
    lemma_filter_keeps(ls, |line: Seq<char>| !text::blank(line));
    assert(text::join(ls, "\n"@) + "\n"@ == written(ls));
}

// ── What the steps are ──────────────────────────────────

/// A file is put aside only where it exists, and never over an older backup; an older backup stays as
/// it is.
pub proof fn law_older_backup_is_kept(files: Files, path: Seq<char>, backup: Seq<char>)
    requires
        path != backup,
    ensures
        backup_needed(true, false),
        !backup_needed(false, false) && !backup_needed(false, true) && !backup_needed(true, true),
        files.contains_key(backup) ==> after_step(files, StepActionView::MoveAside { path, backup })
            == files && after_step(files, StepActionView::CopyAside { path, backup }) == files,
        !files.contains_key(path) ==> after_step(files, StepActionView::MoveAside { path, backup })
            == files && after_step(files, StepActionView::CopyAside { path, backup }) == files,
        files.contains_key(path) && !files.contains_key(backup) ==> after_step(
            files,
            StepActionView::MoveAside { path, backup },
        ) == files.remove(path).insert(backup, files[path]) && after_step(
            files,
            StepActionView::CopyAside { path, backup },
        ) == files.insert(backup, files[path]),
{
}

/// What becomes of a configuration as the proxy is taken out: its backup comes back where there is one;
/// where there is none, it is written anew without the lines of the proxy if it can be read, and left
/// alone if it cannot.
pub proof fn law_cleanup(backup_exists: bool, content: Option<Seq<char>>, ls: Seq<Seq<char>>)
    requires
        ls.len() >= 1,
        forall|i: int|
            0 <= i < ls.len() ==> !(#[trigger] ls[i]).contains('\n') && (ls[i].len() > 0
                ==> ls[i].last() != '\r') && !text::has_text(ls[i], "portkube"@) && !text::has_text(
                ls[i],
                "127.0.0.53"@,
            ),
    ensures
        backup_exists ==> cleanup_of(backup_exists, content) == CleanupView::Rename,
        !backup_exists ==> cleanup_of(backup_exists, None) == CleanupView::Leave,
        !backup_exists ==> (content matches Some(c) ==> cleanup_of(backup_exists, content) == (
        CleanupView::Write { content: without_proxy(c) })),
        !backup_exists ==> cleanup_of(
            backup_exists,
            Some(
                text::join(
                    seq!["# portkube — do not edit this line"@, "nameserver "@ + "127.0.0.53"@]
                        + ls,
                    "\n"@,
                ) + "\n"@,
            ),
        ) == (CleanupView::Write { content: text::join(ls, "\n"@) + "\n"@ }),
{
    law_plain_lines_are_kept(ls);
    assert(with_proxy(written(ls)) == written(proxy_lines() + ls));
    law_uninstall_restores(ls);
}

proof fn lemma_namespace_steps_at(namespaces: Seq<Seq<char>>, i: int)
    requires
        0 <= i < namespaces.len(),
    ensures
        all_namespace_steps(namespaces).len() == 2 * namespaces.len(),
        all_namespace_steps(namespaces)[2 * i] == namespace_steps(namespaces[i])[0],
        all_namespace_steps(namespaces)[2 * i + 1] == namespace_steps(namespaces[i])[1],
    decreases namespaces.len(),
{
    let init = namespaces.drop_last();
    if init.len() > 0 {
        lemma_namespace_steps_at(init, 0);
        if i < init.len() {
            lemma_namespace_steps_at(init, i);
        }
    } else {
        assert(all_namespace_steps(init).len() == 0);
    }
}

/// On macOS the setup puts the address of the proxy on the loopback interface and makes the directory
/// of resolver files. Then it puts aside the resolver file of each namespace, in their order, and
/// writes one that names the proxy. Last it saves the list of the namespaces.
pub proof fn law_macos_install_steps(namespaces: Seq<Seq<char>>, i: int)
    ensures
        ({
            let steps = install_steps(Platform::MacOs, namespaces);
            let path = "/etc/resolver"@ + "/"@ + namespaces[i];
            &&& steps.len() == 2 * namespaces.len() + 3
            &&& steps[0].action == (StepActionView::Run {
                command: command::add_alias(Platform::MacOs, "127.0.0.53"@),
            })
            &&& steps[0].failure == Some("create loopback alias 127.0.0.53"@)
            &&& steps[1].action == (StepActionView::CreateDir { path: "/etc/resolver"@ })
            &&& steps[1].failure == Some("create /etc/resolver"@)
            &&& 0 <= i < namespaces.len() ==> {
                &&& steps[2 * i + 2].action == (StepActionView::MoveAside {
                    path,
                    backup: path + ".portkube-backup"@,
                })
                &&& steps[2 * i + 2].failure == None::<Seq<char>>
                &&& steps[2 * i + 3].action == (StepActionView::Write {
                    path,
                    content: "# portkube — do not edit\nnameserver "@ + "127.0.0.53"@
                        + "\nport 53\ntimeout 2\n"@,
                })
                &&& steps[2 * i + 3].failure == Some("write "@ + path)
            }
            &&& steps.last().action == (StepActionView::Write {
                path: "/tmp/portkube-managed-resolvers"@,
                content: text::join(namespaces, "\n"@),
            })
            &&& steps.last().failure == Some("save managed list"@)
        }),
{
    if namespaces.len() > 0 {
        lemma_namespace_steps_at(namespaces, 0);
    }
    if 0 <= i < namespaces.len() {
        lemma_namespace_steps_at(namespaces, i);
    }
}

/// On Linux the setup puts the address of the proxy on the loopback interface, copies the configuration
/// aside, puts the proxy into it, and saves the list of the namespaces.
pub proof fn law_linux_install_steps(namespaces: Seq<Seq<char>>)
    ensures
        ({
            let steps = install_steps(Platform::Linux, namespaces);
            let path = "/etc/resolv.conf"@;
            &&& steps.len() == 4
            &&& steps[0].action == (StepActionView::Run {
                command: command::add_alias(Platform::Linux, "127.0.0.53"@),
            })
            &&& steps[0].failure == Some("create loopback alias 127.0.0.53"@)
            &&& steps[1].action == (StepActionView::CopyAside {
                path,
                backup: path + ".portkube-backup"@,
            })
            &&& steps[1].failure == None::<Seq<char>>
            &&& steps[2].action == (StepActionView::AddProxy { path })
            &&& steps[2].failure == Some("write /etc/resolv.conf"@)
            &&& steps[3].action == (StepActionView::Write {
                path: "/tmp/portkube-managed-resolvers"@,
                content: text::join(namespaces, "\n"@),
            })
            &&& steps[3].failure == Some("save managed list"@)
        }),
{
}

proof fn lemma_restore_steps_at(namespaces: Seq<Seq<char>>, i: int)
    requires
        0 <= i < namespaces.len(),
    ensures
        all_restore_steps(namespaces).len() == 2 * namespaces.len(),
        all_restore_steps(namespaces)[2 * i] == restore_steps(namespaces[i])[0],
        all_restore_steps(namespaces)[2 * i + 1] == restore_steps(namespaces[i])[1],
    decreases namespaces.len(),
{
    let init = namespaces.drop_last();
    if init.len() > 0 {
        lemma_restore_steps_at(init, 0);
        if i < init.len() {
            lemma_restore_steps_at(init, i);
        }
    } else {
        assert(all_restore_steps(init).len() == 0);
    }
}

/// Taking the proxy out again undoes, for every namespace that the managed list names, in their order,
/// what the setup did to its resolver file. Then the address of the proxy leaves the loopback interface
/// and the list goes. None of this can fail the whole.
pub proof fn law_macos_uninstall_steps(list: Seq<char>, i: int)
    ensures
        ({
            let steps = uninstall_steps(Platform::MacOs, list);
            let namespaces = managed_in(list);
            let path = "/etc/resolver"@ + "/"@ + namespaces[i];
            let n = 2 * namespaces.len() as int;
            &&& steps.len() == n + 2
            &&& 0 <= i < namespaces.len() ==> {
                &&& steps[2 * i].action == (StepActionView::Remove { path })
                &&& steps[2 * i].failure == None::<Seq<char>>
                &&& steps[2 * i + 1].action == (StepActionView::Restore {
                    path,
                    backup: path + ".portkube-backup"@,
                })
                &&& steps[2 * i + 1].failure == None::<Seq<char>>
            }
            &&& steps[n].action == (StepActionView::Run {
                command: command::remove_alias(Platform::MacOs, "127.0.0.53"@),
            })
            &&& steps[n].failure == None::<Seq<char>>
            &&& steps[n + 1].action == (StepActionView::Remove {
                path: "/tmp/portkube-managed-resolvers"@,
            })
            &&& steps[n + 1].failure == None::<Seq<char>>
        }),
{
    let namespaces = managed_in(list);
    if namespaces.len() > 0 {
        lemma_restore_steps_at(namespaces, 0);
    }
    if 0 <= i < namespaces.len() {
        lemma_restore_steps_at(namespaces, i);
    }
}

/// On Linux the backup comes back or the lines of the proxy go, then the address of the proxy leaves
/// the loopback interface, and the managed list goes, whatever it holds. None of this can fail the
/// whole.
pub proof fn law_linux_uninstall_steps(list: Seq<char>)
    ensures
        ({
            let steps = uninstall_steps(Platform::Linux, list);
            let path = "/etc/resolv.conf"@;
            &&& steps.len() == 3
            &&& steps[0].action == (StepActionView::RestoreOrStrip {
                path,
                backup: path + ".portkube-backup"@,
            })
            &&& steps[1].action == (StepActionView::Run {
                command: command::remove_alias(Platform::Linux, "127.0.0.53"@),
            })
            &&& steps[2].action == (StepActionView::Remove {
                path: "/tmp/portkube-managed-resolvers"@,
            })
            &&& forall|i: int|
                0 <= i < steps.len() ==> (#[trigger] steps[i]).failure == None::<Seq<char>>
        }),
{
}

/// On Windows the setup adds the proxy as the first server of the loopback interface and saves the list
/// of the namespaces; taking it out deletes that server and the list.
pub proof fn law_windows_steps(namespaces: Seq<Seq<char>>, list: Seq<char>)
    ensures
        ({
            let into = install_steps(Platform::Windows, namespaces);
            let out = uninstall_steps(Platform::Windows, list);
            &&& into.len() == 2
            &&& into[0].action matches StepActionView::Run { command } && command.program
                == "netsh"@ && command.args == seq![
                "interface"@,
                "ip"@,
                "add"@,
                "dns"@,
                "Loopback Pseudo-Interface 1"@,
                "127.0.0.53"@,
                "index=1"@,
            ]
            &&& into[0].failure == Some("configure DNS via netsh"@)
            &&& into[1].action == (StepActionView::Write {
                path: "/tmp/portkube-managed-resolvers"@,
                content: text::join(namespaces, "\n"@),
            })
            &&& into[1].failure == Some("save managed list"@)
            &&& out.len() == 2
            &&& out[0].action matches StepActionView::Run { command } && command.program
                == "netsh"@ && command.args == seq![
                "interface"@,
                "ip"@,
                "delete"@,
                "dns"@,
                "Loopback Pseudo-Interface 1"@,
                "127.0.0.53"@,
            ]
            &&& out[0].failure == None::<Seq<char>>
            &&& out[1].action == (StepActionView::Remove {
                path: "/tmp/portkube-managed-resolvers"@,
            })
            &&& out[1].failure == None::<Seq<char>>
        }),
{
}

} // verus!
