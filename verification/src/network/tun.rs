//! Network data plane: TUN device for routing + loopback alias + TCP portforward.
//!
//! Architecture:
//!   1. TUN device + route → OS knows about cluster subnet (10.96.0.0/12)
//!   2. DNS proxy → resolves `<svc>.<ns>` → ClusterIP
//!   3. For each known service: loopback alias on ClusterIP + TCP listener
//!   4. TCP listener → portforward → pod
//!
//! This module decides: which commands to run, what to ask the cluster, which pod to forward to,
//! and what each failure is called. The caller performs the steps and hands back what came of them.
use crate::network::command::{
    self, add_alias_command, host_cidr, remove_alias_command, Command, CommandView, Platform,
};
use crate::network::ipv4::{self, Ipv4Addr};
use crate::network::service_map::{self, ServiceEntry, ServiceEntryView};
use crate::text::{
    self, find_text, join_text, push_viewed, same_text, text_of, to_chars, utf8_text,
};
use vstd::prelude::*;
use vstd::slice::slice_subrange;

verus! {

/// The address of this end of the device.
pub const TUN_LOCAL_IP: &'static str = "198.18.0.1";

/// The address of the far end of the device.
pub const TUN_PEER_IP: &'static str = "198.18.0.2";

/// The service network where none could be detected.
pub const DEFAULT_SERVICE_CIDR: &'static str = "10.96.0.0/12";

// ── Service CIDR detection ──────────────────────────────

/// A character that an address range is written with.
pub open spec fn cidr_char(c: char) -> bool {
    '0' <= c <= '9' || c == '.' || c == '/'
}

/// The longest beginning of `s` that is written like an address range.
pub open spec fn cidr_prefix(s: Seq<char>) -> Seq<char>
    decreases s.len(),
{
    if s.len() == 0 || !cidr_char(s[0]) {
        Seq::empty()
    } else {
        seq![s[0]] + cidr_prefix(s.skip(1))
    }
}

/// `s` without the dots that end it.
pub open spec fn without_trailing_dots(s: Seq<char>) -> Seq<char>
    decreases s.len(),
{
    if s.len() > 0 && s.last() == '.' {
        without_trailing_dots(s.drop_last())
    } else {
        s
    }
}

/// The address range that a message names after its first "CIDR ". A range holds a slash; dots
/// behind it belong to the message.
pub open spec fn cidr_in(msg: Seq<char>) -> Option<Seq<char>> {
    match text::find_from(msg, "CIDR "@, 0) {
        Some(i) => {
            let cidr = without_trailing_dots(cidr_prefix(msg.skip(i + 5)));
            if cidr.contains('/') {
                Some(cidr)
            } else {
                None
            }
        },
        None => None,
    }
}

/// Parse a CIDR from a k8s API error message like "...CIDR 10.96.0.0/12..."
pub fn parse_cidr_from_error(msg: &str) -> (res: Option<String>)
    ensures
        res.deep_view() == cidr_in(msg@),
{
    let chars = to_chars(msg);
    let mark = to_chars("CIDR ");
    proof {
        reveal_strlit("CIDR ");
        text::lemma_find_first(chars@, mark@, 0);
    }
    let size: usize = chars.len();
    let start: usize = match find_text(&chars, &mark) {
        Some(i) => i + 5,
        None => return None,
    };
    let mut end: usize = start;
    let ghost all = cidr_prefix(chars@.skip(start as int));
    assert(chars@.subrange(start as int, end as int) + all =~= all);
    while end < size && (('0' <= chars[end] && chars[end] <= '9') || chars[end] == '.' || chars[end]
        == '/')
        invariant
            start <= end <= size,
            size == chars@.len(),
            all == chars@.subrange(start as int, end as int) + cidr_prefix(chars@.skip(end as int)),
        decreases size - end,
    {
        proof {
            let rest = chars@.skip(end as int);
            assert(rest.skip(1) =~= chars@.skip(end + 1));
            assert(rest[0] == chars@[end as int]);
            assert(all =~= chars@.subrange(start as int, end + 1) + cidr_prefix(rest.skip(1)));
        }
        end += 1;
    }
    proof {
        let rest = chars@.skip(end as int);
        if end < size {
            assert(rest[0] == chars@[end as int]);
        }
        assert(cidr_prefix(rest) =~= Seq::empty());
        assert(all =~= chars@.subrange(start as int, end as int));
    }
    while end > start && chars[end - 1] == '.'
        invariant
            start <= end <= size,
            size == chars@.len(),
            without_trailing_dots(all) == without_trailing_dots(
                chars@.subrange(start as int, end as int),
            ),
        decreases end,
    {
        proof {
            let run = chars@.subrange(start as int, end as int);
            assert(run.last() == chars@[end - 1]);
            assert(run.drop_last() =~= chars@.subrange(start as int, end - 1));
        }
        end -= 1;
    }
    let ghost cidr = chars@.subrange(start as int, end as int);
    assert(end > start ==> cidr.last() == chars@[end - 1]);
    assert(without_trailing_dots(all) == cidr);
    let mut i: usize = start;
    while i < end
        invariant
            start <= i <= end <= size,
            size == chars@.len(),
            cidr == chars@.subrange(start as int, end as int),
            cidr_in(msg@) == (if cidr.contains('/') {
                Some(cidr)
            } else {
                None
            }),
            forall|k: int| 0 <= k < i - start ==> cidr[k] != '/',
        decreases end - i,
    {
        assert(cidr[i - start] == chars@[i as int]);
        if chars[i] == '/' {
            return Some(text_of(&chars, start, end));
        }
        i += 1;
    }
    None
}

/// What came of creating a service with an address outside every range.
#[derive(Debug)]
pub enum ProbeOutcome {
    /// The cluster took it; the probe now exists.
    Created,
    /// The cluster refused it and said why.
    Rejected { message: String },
    /// The cluster gave no answer of its own.
    Failed,
}

pub enum ProbeOutcomeView {
    Created,
    Rejected { message: Seq<char> },
    Failed,
}

impl View for ProbeOutcome {
    type V = ProbeOutcomeView;

    open spec fn view(&self) -> ProbeOutcomeView {
        match self {
            ProbeOutcome::Created => ProbeOutcomeView::Created,
            ProbeOutcome::Rejected { message } => ProbeOutcomeView::Rejected { message: message@ },
            ProbeOutcome::Failed => ProbeOutcomeView::Failed,
        }
    }
}

impl DeepView for ProbeOutcome {
    type V = ProbeOutcomeView;

    open spec fn deep_view(&self) -> ProbeOutcomeView {
        self@
    }
}


/// The service network, and whether the probe has to be deleted again.
#[derive(Debug)]
pub struct Detection {
    pub cidr: String,
    pub delete_probe: bool,
}

/// The service network that the outcome of the probe shows.
pub open spec fn service_network(outcome: ProbeOutcomeView) -> Seq<char> {
    match outcome {
        ProbeOutcomeView::Rejected { message } => match cidr_in(message) {
            Some(cidr) => cidr,
            None => DEFAULT_SERVICE_CIDR@,
        },
        _ => DEFAULT_SERVICE_CIDR@,
    }
}

/// Detect the cluster service CIDR from what came of creating an invalid service.
pub fn detect_service_cidr(outcome: &ProbeOutcome) -> (res: Detection)
    ensures
        res.cidr@ == service_network(outcome@),
        res.delete_probe <==> outcome is Created,
{
    let delete_probe = match outcome {
        ProbeOutcome::Created => true,
        _ => false,
    };
    if let ProbeOutcome::Rejected { message } = outcome {
        if let Some(cidr) = parse_cidr_from_error(message.as_str()) {
            return Detection { cidr, delete_probe };
        }
    }
    Detection { cidr: DEFAULT_SERVICE_CIDR.to_string(), delete_probe }
}

// ── TUN device ──────────────────────────────────────────

/// An open device. An empty service network stands for no route yet.
#[derive(Debug)]
pub struct TunDevice {
    pub name: String,
    pub fd: i32,
    pub service_cidr: String,
}

pub struct TunDeviceView {
    pub name: Seq<char>,
    pub fd: i32,
    pub service_cidr: Seq<char>,
}

impl View for TunDevice {
    type V = TunDeviceView;

    open spec fn view(&self) -> TunDeviceView {
        TunDeviceView { name: self.name@, fd: self.fd, service_cidr: self.service_cidr@ }
    }
}

impl DeepView for TunDevice {
    type V = TunDeviceView;

    open spec fn deep_view(&self) -> TunDeviceView {
        self@
    }
}


/// The calls that opening a device takes.
#[derive(Debug, Clone, Copy, PartialEq, Eq, Structural)]
pub enum OpenStep {
    Socket,
    ControlInfo,
    Connect,
    InterfaceName,
    OpenTun,
    SetInterface,
}

/// A call that failed while a device was opened, with what the system said.
#[derive(Debug)]
pub struct OpenFailure {
    pub step: OpenStep,
    pub os_error: String,
}

/// A device as the system handed it over: its descriptor, and the buffer that its name was written
/// to with the length that was reported for it.
#[derive(Debug)]
pub struct OpenedTun {
    pub fd: i32,
    pub buffer: Vec<u8>,
    pub len: usize,
}

/// What a failed call is reported as.
pub open spec fn open_failure(step: OpenStep, os_error: Seq<char>) -> Seq<char> {
    match step {
        OpenStep::Socket => "socket(PF_SYSTEM) failed: "@ + os_error + " — run with sudo"@,
        OpenStep::ControlInfo => "ioctl(CTLIOCGINFO) failed: "@ + os_error,
        OpenStep::Connect => "connect(utun) failed: "@ + os_error,
        OpenStep::InterfaceName => "getsockopt(UTUN_OPT_IFNAME) failed: "@ + os_error,
        OpenStep::OpenTun => "open /dev/net/tun — run with sudo or load tun kernel module"@,
        OpenStep::SetInterface => "ioctl(TUNSETIFF) failed: "@ + os_error,
    }
}

impl OpenFailure {
    /// The failure as it is reported.
    pub fn message(&self) -> (res: String)
        ensures
            res@ == open_failure(self.step, self.os_error@),
    {
        let before = match self.step {
            OpenStep::Socket => "socket(PF_SYSTEM) failed: ",
            OpenStep::ControlInfo => "ioctl(CTLIOCGINFO) failed: ",
            OpenStep::Connect => "connect(utun) failed: ",
            OpenStep::InterfaceName => "getsockopt(UTUN_OPT_IFNAME) failed: ",
            OpenStep::OpenTun => {
                return "open /dev/net/tun — run with sudo or load tun kernel module".to_string();
            },
            OpenStep::SetInterface => "ioctl(TUNSETIFF) failed: ",
        };
        let mut res = before.to_string();
        res.append(self.os_error.as_str());
        if self.step == OpenStep::Socket {
            res.append(" — run with sudo");
        }
        res
    }
}

/// A name in a field of `size` bytes, filled up with zeros.
pub open spec fn name_field(name: Seq<char>, size: nat) -> Seq<u8> {
    Seq::new(
        size,
        |i: int|
            if i < name.len() {
                name[i] as u8
            } else {
                0u8
            },
    )
}

fn fill_field(name: &str, size: usize) -> (res: Vec<u8>)
    requires
        name@.len() <= size,
        forall|i: int| 0 <= i < name@.len() ==> (#[trigger] name@[i]) as u32 <= 255,
    ensures
        res@ == name_field(name@, size as nat),
{
    let chars = to_chars(name);
    let mut res: Vec<u8> = Vec::new();
    let mut i: usize = 0;
    while i < size
        invariant
            i <= size,
            chars@ == name@,
            name@.len() <= size,
            res@ == name_field(name@, size as nat).take(i as int),
        decreases size - i,
    {
        if i < chars.len() {
            res.push(chars[i] as u8);
        } else {
            res.push(0u8);
        }
        assert(res@ =~= name_field(name@, size as nat).take(i + 1));
        i += 1;
    }
    assert(name_field(name@, size as nat).take(i as int) =~= name_field(name@, size as nat));
    res
}

/// The interface name to ask the kernel for.
pub fn requested_interface() -> (res: Vec<u8>)
    ensures
        res@ == name_field("portkube"@, 16),
{
    proof {
        reveal_strlit("portkube");
    }
    fill_field("portkube", 16)
}

/// The name of the kernel control that hands out utun devices.
pub fn utun_control() -> (res: Vec<u8>)
    ensures
        res@ == name_field("com.apple.net.utun_control"@, 96),
{
    proof {
        reveal_strlit("com.apple.net.utun_control");
    }
    fill_field("com.apple.net.utun_control", 96)
}

/// How many bytes stand before the first zero.
pub open spec fn zero_terminated(bytes: Seq<u8>) -> nat
    decreases bytes.len(),
{
    if bytes.len() == 0 || bytes[0] == 0 {
        0
    } else {
        1 + zero_terminated(bytes.skip(1))
    }
}

/// `s` without the zero characters that end it.
pub open spec fn trim_zeros(s: Seq<char>) -> Seq<char>
    decreases s.len(),
{
    if s.len() > 0 && s.last() == '\0' {
        trim_zeros(s.drop_last())
    } else {
        s
    }
}

/// The name that a Linux device was given: what stands before the first zero.
pub open spec fn tun_name(buffer: Seq<u8>) -> Seq<char> {
    let name = buffer.take(zero_terminated(buffer) as int);
    if vstd::utf8::valid_utf8(name) {
        vstd::utf8::decode_utf8(name)
    } else {
        "portkube0"@
    }
}

/// The name that a macOS device was given: as many bytes as were reported, without the zeros that
/// end them.
pub open spec fn utun_name(buffer: Seq<u8>, len: nat) -> Seq<char> {
    let name = buffer.take(len as int);
    if vstd::utf8::valid_utf8(name) {
        trim_zeros(vstd::utf8::decode_utf8(name))
    } else {
        "utun?"@
    }
}

fn read_tun_name(buffer: &Vec<u8>) -> (res: String)
    ensures
        res@ == tun_name(buffer@),
{
    let mut len: usize = 0;
    assert(buffer@.skip(0) =~= buffer@);
    while len < buffer.len() && buffer[len] != 0
        invariant
            len <= buffer@.len(),
            zero_terminated(buffer@) == len + zero_terminated(buffer@.skip(len as int)),
        decreases buffer@.len() - len,
    {
        assert(buffer@.skip(len as int)[0] == buffer@[len as int]);
        assert(buffer@.skip(len as int).skip(1) =~= buffer@.skip(len + 1));
        len += 1;
    }
    assert(zero_terminated(buffer@.skip(len as int)) == 0);
    assert(buffer@.subrange(0, len as int) =~= buffer@.take(len as int));
    match utf8_text(slice_subrange(buffer.as_slice(), 0, len)) {
        Some(name) => name.to_string(),
        None => "portkube0".to_string(),
    }
}

fn read_utun_name(buffer: &Vec<u8>, len: usize) -> (res: String)
    requires
        len <= buffer@.len(),
    ensures
        res@ == utun_name(buffer@, len as nat),
{
    assert(buffer@.subrange(0, len as int) =~= buffer@.take(len as int));
    let name = match utf8_text(slice_subrange(buffer.as_slice(), 0, len)) {
        Some(name) => name,
        None => return "utun?".to_string(),
    };
    let chars = to_chars(name);
    let mut end: usize = chars.len();
    assert(chars@.take(end as int) =~= chars@);
    while end > 0 && chars[end - 1] == '\0'
        invariant
            end <= chars@.len(),
            trim_zeros(chars@) == trim_zeros(chars@.take(end as int)),
        decreases end,
    {
        assert(chars@.take(end as int).drop_last() =~= chars@.take(end - 1));
        assert(chars@.take(end as int).last() == chars@[end - 1]);
        end -= 1;
    }
    assert(end > 0 ==> chars@.take(end as int).last() == chars@[end - 1]);
    assert(chars@.subrange(0, end as int) =~= chars@.take(end as int));
    text_of(&chars, 0, end)
}

/// A name that the kernel keeps as it was asked for is read back unchanged.
pub proof fn law_interface_name_read_back(name: Seq<char>, size: nat)
    requires
        name.len() <= size,
        forall|i: int| 0 <= i < name.len() ==> '\0' < (#[trigger] name[i]) <= '\u{7f}',
    ensures
        tun_name(name_field(name, size)) == name,
{
    lemma_terminated(name, size);
    let bytes = name_field(name, size).take(name.len() as int);
    vstd::utf8::is_ascii_chars_encode_utf8(name);
    assert(bytes =~= vstd::utf8::encode_utf8(name));
    vstd::utf8::encode_utf8_valid_utf8(name);
    vstd::utf8::encode_utf8_decode_utf8(name);
}

proof fn lemma_terminated(name: Seq<char>, size: nat)
    requires
        name.len() <= size,
        forall|i: int| 0 <= i < name.len() ==> '\0' < (#[trigger] name[i]) <= '\u{7f}',
    ensures
        zero_terminated(name_field(name, size)) == name.len(),
    decreases name.len(),
{
    let field = name_field(name, size);
    if name.len() > 0 {
        let rest = name.skip(1);
        assert forall|i: int| 0 <= i < rest.len() implies '\0' < (#[trigger] rest[i])
            <= '\u{7f}' by {
            assert(rest[i] == name[i + 1]);
        }
        lemma_terminated(rest, (size - 1) as nat);
        assert(field.skip(1) =~= name_field(rest, (size - 1) as nat));
        assert(field[0] == name[0] as u8);
    }
}

/// The device that the system handed over, or why there is none.
pub open spec fn created(
    platform: Platform,
    opened: Result<(i32, Seq<u8>, nat), (OpenStep, Seq<char>)>,
) -> Result<TunDeviceView, Seq<char>> {
    match (platform, opened) {
        (Platform::Windows, _) => Err(
            "TUN devices are not yet supported on Windows — proxies will still work via loopback"@,
        ),
        (_, Err((step, os_error))) => Err(open_failure(step, os_error)),
        (Platform::MacOs, Ok((fd, buffer, len))) => Ok(
            TunDeviceView { name: utun_name(buffer, len), fd, service_cidr: Seq::empty() },
        ),
        (Platform::Linux, Ok((fd, buffer, _))) => Ok(
            TunDeviceView { name: tun_name(buffer), fd, service_cidr: Seq::empty() },
        ),
    }
}

/// Takes over the device that the system opened, or names the failure.
pub fn create_utun(platform: Platform, opened: Result<OpenedTun, OpenFailure>) -> (res: Result<
    TunDevice,
    String,
>)
    requires
        platform == Platform::MacOs ==> (opened matches Ok(o) ==> o.len <= o.buffer@.len()),
    ensures
        text::outcome(res) == created(
            platform,
            match opened {
                Ok(o) => Ok((o.fd, o.buffer@, o.len as nat)),
                Err(e) => Err((e.step, e.os_error@)),
            },
        ),
{
    if platform == Platform::Windows {
        return Err(
            "TUN devices are not yet supported on Windows — proxies will still work via loopback".to_string(),
        );
    }
    match opened {
        Ok(o) => {
            let name = if platform == Platform::MacOs {
                read_utun_name(&o.buffer, o.len)
            } else {
                read_tun_name(&o.buffer)
            };
            Ok(TunDevice { name, fd: o.fd, service_cidr: String::new() })
        },
        Err(e) => Err(e.message()),
    }
}

// ── Configure TUN ───────────────────────────────────────

/// The commands that bring the device up and route the service network into it, in order.
pub open spec fn configure_commands(
    platform: Platform,
    dev: Seq<char>,
    cidr: Seq<char>,
) -> Seq<CommandView> {
    match platform {
        Platform::MacOs => seq![
            CommandView {
                program: "ifconfig"@,
                args: seq![dev, "inet"@, TUN_LOCAL_IP@, TUN_PEER_IP@, "up"@],
            },
            CommandView { program: "route"@, args: seq!["add"@, "-net"@, cidr, TUN_PEER_IP@] },
        ],
        Platform::Linux => seq![
            CommandView {
                program: "ip"@,
                args: seq![
                    "addr"@,
                    "add"@,
                    TUN_LOCAL_IP@ + "/32"@,
                    "peer"@,
                    TUN_PEER_IP@,
                    "dev"@,
                    dev,
                ],
            },
            CommandView { program: "ip"@, args: seq!["link"@, "set"@, dev, "up"@] },
            CommandView {
                program: "ip"@,
                args: seq!["route"@, "add"@, cidr, "via"@, TUN_PEER_IP@, "dev"@, dev],
            },
        ],
        Platform::Windows => Seq::empty(),
    }
}

fn configure_command(platform: Platform, dev: &str, cidr: &str, index: usize) -> (res: Option<
    Command,
>)
    ensures
        res.deep_view() == (if index < configure_commands(platform, dev@, cidr@).len() {
            Some(configure_commands(platform, dev@, cidr@)[index as int])
        } else {
            None
        }),
{
    match (platform, index) {
        (Platform::MacOs, 0) => Some(
            Command::new("ifconfig").arg(dev).arg("inet").arg(TUN_LOCAL_IP).arg(TUN_PEER_IP).arg("up"),
        ),
        (Platform::MacOs, 1) => Some(
            Command::new("route").arg("add").arg("-net").arg(cidr).arg(TUN_PEER_IP),
        ),
        (Platform::Linux, 0) => Some(
            Command::new("ip").arg("addr").arg("add").arg(host_cidr(TUN_LOCAL_IP).as_str()).arg(
                "peer",
            ).arg(TUN_PEER_IP).arg("dev").arg(dev),
        ),
        (Platform::Linux, 1) => Some(Command::new("ip").arg("link").arg("set").arg(dev).arg("up")),
        (Platform::Linux, 2) => Some(
            Command::new("ip").arg("route").arg("add").arg(cidr).arg("via").arg(TUN_PEER_IP).arg(
                "dev",
            ).arg(dev),
        ),
        _ => None,
    }
}

/// What to do next while the device is configured.
#[derive(Debug)]
pub enum ConfigureStep {
    /// Run the command and come back with what came of it.
    Run { command: Command },
    /// The device routes the service network.
    Done,
    Failed { message: String },
}

#[verifier::ext_equal]
pub enum ConfigureStepView {
    Run { command: CommandView },
    Done,
    Failed { message: Seq<char> },
}

impl View for ConfigureStep {
    type V = ConfigureStepView;

    open spec fn view(&self) -> ConfigureStepView {
        match self {
            ConfigureStep::Run { command } => ConfigureStepView::Run { command: command@ },
            ConfigureStep::Done => ConfigureStepView::Done,
            ConfigureStep::Failed { message } => ConfigureStepView::Failed { message: message@ },
        }
    }
}

impl DeepView for ConfigureStep {
    type V = ConfigureStepView;

    open spec fn deep_view(&self) -> ConfigureStepView {
        self@
    }
}


/// The next step, where so many commands have succeeded and the latest came out as given.
pub open spec fn configure_next(
    platform: Platform,
    dev: Seq<char>,
    cidr: Seq<char>,
    succeeded: nat,
    latest: Result<(), Seq<char>>,
) -> ConfigureStepView {
    if platform == Platform::Windows {
        ConfigureStepView::Failed { message: "TUN configuration is not supported on Windows"@ }
    } else {
        match latest {
            Err(message) => ConfigureStepView::Failed { message },
            Ok(()) => if succeeded < configure_commands(platform, dev, cidr).len() {
                ConfigureStepView::Run {
                    command: configure_commands(platform, dev, cidr)[succeeded as int],
                }
            } else {
                ConfigureStepView::Done
            },
        }
    }
}

/// Decides the next step of configuring the device, one command at a time: none is run after one
/// that failed. The device remembers the service network once it is routed; on Windows, where
/// nothing can be routed, at once.
pub fn configure_tun(
    tun: &mut TunDevice,
    platform: Platform,
    service_cidr: &str,
    succeeded: usize,
    latest: Result<(), String>,
) -> (res: ConfigureStep)
    ensures
        res@ == configure_next(
            platform,
            old(tun)@.name,
            service_cidr@,
            succeeded as nat,
            text::report(latest),
        ),
        final(tun)@ == (if res is Done || platform == Platform::Windows {
            (TunDeviceView { service_cidr: service_cidr@, ..old(tun)@ })
        } else {
            old(tun)@
        }),
{
    if platform == Platform::Windows {
        tun.service_cidr = service_cidr.to_string();
        return ConfigureStep::Failed {
            message: "TUN configuration is not supported on Windows".to_string(),
        };
    }
    if let Err(message) = latest {
        return ConfigureStep::Failed { message };
    }
    match configure_command(platform, tun.name.as_str(), service_cidr, succeeded) {
        Some(command) => ConfigureStep::Run { command },
        None => {
            tun.service_cidr = service_cidr.to_string();
            ConfigureStep::Done
        },
    }
}

// ── Cleanup TUN ─────────────────────────────────────────

/// The command that takes the route of the service network away, where there is one.
pub open spec fn cleanup_command(platform: Platform, cidr: Seq<char>) -> Option<CommandView> {
    if cidr.len() == 0 {
        None
    } else {
        match platform {
            Platform::MacOs => Some(
                CommandView {
                    program: "route"@,
                    args: seq!["delete"@, "-net"@, cidr, TUN_PEER_IP@],
                },
            ),
            Platform::Linux => Some(
                CommandView {
                    program: "ip"@,
                    args: seq!["route"@, "del"@, cidr, "via"@, TUN_PEER_IP@],
                },
            ),
            Platform::Windows => None,
        }
    }
}

/// Takes the route of the service network away.
pub fn cleanup_tun(tun: &TunDevice, platform: Platform) -> (res: Option<Command>)
    ensures
        res.deep_view() == cleanup_command(platform, tun@.service_cidr),
{
    if tun.service_cidr.as_str().is_empty() {
        return None;
    }
    let cidr = tun.service_cidr.as_str();
    match platform {
        Platform::MacOs => Some(
            Command::new("route").arg("delete").arg("-net").arg(cidr).arg(TUN_PEER_IP),
        ),
        Platform::Linux => Some(
            Command::new("ip").arg("route").arg("del").arg(cidr).arg("via").arg(TUN_PEER_IP),
        ),
        Platform::Windows => None,
    }
}

/// Cleaning up after a device was configured takes away the very route that configuring it added
/// last: the same network by way of the same peer.
pub proof fn law_cleanup_removes_route(platform: Platform, dev: Seq<char>, cidr: Seq<char>)
    requires
        platform != Platform::Windows,
        cidr.len() > 0,
    ensures
        ({
            let added = configure_commands(platform, dev, cidr).last();
            let removed = cleanup_command(platform, cidr).unwrap();
            &&& removed.program == added.program
            &&& platform == Platform::MacOs ==> added.args == seq![
                "add"@,
                "-net"@,
                cidr,
                TUN_PEER_IP@,
            ] && removed.args == added.args.update(0, "delete"@)
            &&& platform == Platform::Linux ==> added.args.take(5) == seq![
                "route"@,
                "add"@,
                cidr,
                "via"@,
                TUN_PEER_IP@,
            ] && removed.args == added.args.take(5).update(1, "del"@)
        }),
{
}

// ── Loopback aliases ────────────────────────────────────

/// The commands that take every one of the addresses off the loopback interface, in order.
pub open spec fn alias_removals(platform: Platform, ips: Seq<Ipv4Addr>) -> Seq<CommandView> {
    ips.map_values(|ip: Ipv4Addr| command::remove_alias(platform, ipv4::dotted(ip)))
}

/// Remove all loopback aliases.
pub fn cleanup_aliases(platform: Platform, ips: &Vec<Ipv4Addr>) -> (res: Vec<Command>)
    ensures
        res.deep_view() == alias_removals(platform, ips@),
{
    let mut res: Vec<Command> = Vec::new();
    let ghost all = alias_removals(platform, ips@);
    let mut i: usize = 0;
    assert(res.deep_view() =~= all.take(0));
    while i < ips.len()
        invariant
            i <= ips@.len(),
            all == alias_removals(platform, ips@),
            res.deep_view() == all.take(i as int),
        decreases ips@.len() - i,
    {
        push_viewed(&mut res, remove_alias_command(platform, ips[i].to_text().as_str()));
        assert(all.take(i as int).push(all[i as int]) =~= all.take(i + 1));
        i += 1;
    }
    assert(all.take(i as int) =~= all);
    res
}

// ── Pod resolution ──────────────────────────────────────

/// A label that pods are selected by.
#[derive(Debug)]
pub struct Label {
    pub key: String,
    pub value: String,
}

pub struct LabelView {
    pub key: Seq<char>,
    pub value: Seq<char>,
}

impl View for Label {
    type V = LabelView;

    open spec fn view(&self) -> LabelView {
        LabelView { key: self.key@, value: self.value@ }
    }
}

impl DeepView for Label {
    type V = LabelView;

    open spec fn deep_view(&self) -> LabelView {
        self@
    }
}


/// A condition that a pod reports.
#[derive(Debug)]
pub struct PodCondition {
    pub kind: String,
    pub status: String,
}

pub struct PodConditionView {
    pub kind: Seq<char>,
    pub status: Seq<char>,
}

impl View for PodCondition {
    type V = PodConditionView;

    open spec fn view(&self) -> PodConditionView {
        PodConditionView { kind: self.kind@, status: self.status@ }
    }
}

impl DeepView for PodCondition {
    type V = PodConditionView;

    open spec fn deep_view(&self) -> PodConditionView {
        self@
    }
}


/// What a pod reports of itself.
#[derive(Debug)]
pub struct PodStatus {
    pub conditions: Option<Vec<PodCondition>>,
}

pub struct PodStatusView {
    pub conditions: Option<Seq<PodConditionView>>,
}

impl View for PodStatus {
    type V = PodStatusView;

    open spec fn view(&self) -> PodStatusView {
        PodStatusView { conditions: self.conditions.deep_view() }
    }
}

impl DeepView for PodStatus {
    type V = PodStatusView;

    open spec fn deep_view(&self) -> PodStatusView {
        self@
    }
}


/// A pod as the cluster lists it.
#[derive(Debug)]
pub struct PodState {
    pub name: Option<String>,
    pub status: Option<PodStatus>,
}

pub struct PodStateView {
    pub name: Option<Seq<char>>,
    pub status: Option<PodStatusView>,
}

impl View for PodState {
    type V = PodStateView;

    open spec fn view(&self) -> PodStateView {
        PodStateView { name: self.name.deep_view(), status: self.status.deep_view() }
    }
}

impl DeepView for PodState {
    type V = PodStateView;

    open spec fn deep_view(&self) -> PodStateView {
        self@
    }
}


/// A label as a selector names it.
pub open spec fn label_text(label: LabelView) -> Seq<char> {
    label.key + "="@ + label.value
}

/// The selector for pods that carry all of the labels.
pub open spec fn label_selector(labels: Seq<LabelView>) -> Seq<char> {
    text::join(labels.map_values(|label: LabelView| label_text(label)), ","@)
}

fn select_labels(labels: &Vec<Label>) -> (res: String)
    ensures
        res@ == label_selector(labels.deep_view()),
{
    let mut parts: Vec<String> = Vec::new();
    let ghost all = labels.deep_view().map_values(|label: LabelView| label_text(label));
    let mut i: usize = 0;
    assert(parts.deep_view() =~= all.take(0));
    while i < labels.len()
        invariant
            i <= labels@.len(),
            all == labels.deep_view().map_values(|label: LabelView| label_text(label)),
            parts.deep_view() == all.take(i as int),
        decreases labels@.len() - i,
    {
        let mut part = labels[i].key.clone();
        part.append("=");
        part.append(labels[i].value.as_str());
        push_viewed(&mut parts, part);
        assert(all.take(i as int).push(all[i as int]) =~= all.take(i + 1));
        i += 1;
    }
    assert(all.take(i as int) =~= all);
    join_text(&parts, ",")
}

/// The condition says that the pod is ready.
pub open spec fn says_ready(c: PodConditionView) -> bool {
    c.kind == "Ready"@ && c.status == "True"@
}

/// One of the conditions says that the pod is ready.
pub open spec fn any_ready(cs: Seq<PodConditionView>) -> bool {
    exists|i: int| 0 <= i < cs.len() && says_ready(#[trigger] cs[i])
}

/// The pod reports that it is ready.
pub open spec fn pod_ready(pod: PodStateView) -> bool {
    match pod.status {
        Some(PodStatusView { conditions: Some(cs) }) => any_ready(cs),
        _ => false,
    }
}

/// The name of the first pod that is ready and has one.
pub open spec fn first_ready(pods: Seq<PodStateView>) -> Option<Seq<char>>
    decreases pods.len(),
{
    if pods.len() == 0 {
        None
    } else if pod_ready(pods[0]) && pods[0].name is Some {
        pods[0].name
    } else {
        first_ready(pods.skip(1))
    }
}

impl PodState {
    /// Whether the pod reports that it is ready.
    pub fn is_ready(&self) -> (res: bool)
        ensures
            res == pod_ready(self@),
    {
        let conditions = match &self.status {
            Some(status) => match &status.conditions {
                Some(conditions) => conditions,
                None => return false,
            },
            None => return false,
        };
        let ghost cs = conditions.deep_view();
        assert(self@.status == Some(PodStatusView { conditions: Some(cs) }));
        let mut i: usize = 0;
        while i < conditions.len()
            invariant
                i <= conditions@.len(),
                cs == conditions.deep_view(),
                self@.status == Some(PodStatusView { conditions: Some(cs) }),
                forall|k: int| 0 <= k < i ==> !says_ready(#[trigger] cs[k]),
            decreases conditions@.len() - i,
        {
            let c = &conditions[i];
            assert(c@ == cs[i as int]);
            if same_text(c.kind.as_str(), "Ready") && same_text(c.status.as_str(), "True") {
                assert(says_ready(cs[i as int]));
                return true;
            }
            i += 1;
        }
        false
    }
}

/// The name of the first pod that is ready and has one.
pub fn pick_pod(pods: &Vec<PodState>) -> (res: Option<String>)
    ensures
        res.deep_view() == first_ready(pods.deep_view()),
{
    let mut i: usize = 0;
    assert(pods.deep_view().skip(0) =~= pods.deep_view());
    while i < pods.len()
        invariant
            i <= pods@.len(),
            first_ready(pods.deep_view()) == first_ready(pods.deep_view().skip(i as int)),
        decreases pods@.len() - i,
    {
        assert(pods.deep_view().skip(i as int)[0] == pods@[i as int]@);
        if pods[i].is_ready() {
            if let Some(name) = &pods[i].name {
                return Some(name.clone());
            }
        }
        assert(pods.deep_view().skip(i as int).skip(1) =~= pods.deep_view().skip(i + 1));
        i += 1;
    }
    None
}

// ── TCP portforward listener ────────────────────────────

/// What came of the latest step of starting a proxy.
#[derive(Debug)]
pub enum ProxyEvent {
    /// Nothing has been done yet.
    Begin,
    AliasAdded { added: Result<(), String> },
    /// The labels that the service selects its pods by; none where it has no selector.
    ServiceRead { labels: Result<Vec<Label>, String> },
    PodsListed { pods: Result<Vec<PodState>, String> },
    Bound { pod: String, bound: Result<(), String> },
}

pub enum ProxyEventView {
    Begin,
    AliasAdded { added: Result<(), Seq<char>> },
    ServiceRead { labels: Result<Seq<LabelView>, Seq<char>> },
    PodsListed { pods: Result<Seq<PodStateView>, Seq<char>> },
    Bound { pod: Seq<char>, bound: Result<(), Seq<char>> },
}

impl View for ProxyEvent {
    type V = ProxyEventView;

    open spec fn view(&self) -> ProxyEventView {
        match self {
            ProxyEvent::Begin => ProxyEventView::Begin,
            ProxyEvent::AliasAdded { added } => ProxyEventView::AliasAdded {
                added: text::report(*added),
            },
            ProxyEvent::ServiceRead { labels } => ProxyEventView::ServiceRead {
                labels: text::outcome(*labels),
            },
            ProxyEvent::PodsListed { pods } => ProxyEventView::PodsListed {
                pods: text::outcome(*pods),
            },
            ProxyEvent::Bound { pod, bound } => ProxyEventView::Bound {
                pod: pod@,
                bound: text::report(*bound),
            },
        }
    }
}

impl DeepView for ProxyEvent {
    type V = ProxyEventView;

    open spec fn deep_view(&self) -> ProxyEventView {
        self@
    }
}


/// What to do next to start a proxy.
#[derive(Debug)]
pub enum ProxyStep {
    AddAlias { command: Command },
    ReadService { namespace: String, name: String },
    ListPods { namespace: String, labels: String },
    Bind { addr: String, pod: String },
    /// Forward every connection to the pod.
    Serve { pod: String },
    Fail { message: String },
}

#[verifier::ext_equal]
pub enum ProxyStepView {
    AddAlias { command: CommandView },
    ReadService { namespace: Seq<char>, name: Seq<char> },
    ListPods { namespace: Seq<char>, labels: Seq<char> },
    Bind { addr: Seq<char>, pod: Seq<char> },
    Serve { pod: Seq<char> },
    Fail { message: Seq<char> },
}

impl View for ProxyStep {
    type V = ProxyStepView;

    open spec fn view(&self) -> ProxyStepView {
        match self {
            ProxyStep::AddAlias { command } => ProxyStepView::AddAlias { command: command@ },
            ProxyStep::ReadService { namespace, name } => ProxyStepView::ReadService {
                namespace: namespace@,
                name: name@,
            },
            ProxyStep::ListPods { namespace, labels } => ProxyStepView::ListPods {
                namespace: namespace@,
                labels: labels@,
            },
            ProxyStep::Bind { addr, pod } => ProxyStepView::Bind { addr: addr@, pod: pod@ },
            ProxyStep::Serve { pod } => ProxyStepView::Serve { pod: pod@ },
            ProxyStep::Fail { message } => ProxyStepView::Fail { message: message@ },
        }
    }
}

impl DeepView for ProxyStep {
    type V = ProxyStepView;

    open spec fn deep_view(&self) -> ProxyStepView {
        self@
    }
}


/// The next step of starting the proxy of an entry: an address to listen on, the service, a ready
/// pod behind it, and the listener, in that order. The first step that fails ends it.
pub open spec fn proxy_next(
    platform: Platform,
    entry: ServiceEntryView,
    event: ProxyEventView,
) -> ProxyStepView {
    match event {
        ProxyEventView::Begin => ProxyStepView::AddAlias {
            command: command::add_alias(platform, ipv4::dotted(entry.cluster_ip)),
        },
        ProxyEventView::AliasAdded { added } => match added {
            Ok(()) => ProxyStepView::ReadService { namespace: entry.namespace, name: entry.name },
            Err(message) => ProxyStepView::Fail { message },
        },
        ProxyEventView::ServiceRead { labels } => match labels {
            Ok(labels) => if labels.len() == 0 {
                ProxyStepView::Fail { message: "service "@ + entry.name + " has no selector"@ }
            } else {
                ProxyStepView::ListPods {
                    namespace: entry.namespace,
                    labels: label_selector(labels),
                }
            },
            Err(_) => ProxyStepView::Fail { message: "get service"@ },
        },
        ProxyEventView::PodsListed { pods } => match pods {
            Ok(pods) => match first_ready(pods) {
                Some(pod) => ProxyStepView::Bind { addr: service_map::entry_socket(entry), pod },
                None => ProxyStepView::Fail { message: "no ready pods for service "@ + entry.name },
            },
            Err(message) => ProxyStepView::Fail { message },
        },
        ProxyEventView::Bound { pod, bound } => match bound {
            Ok(()) => ProxyStepView::Serve { pod },
            Err(_) => ProxyStepView::Fail { message: "bind "@ + service_map::entry_socket(entry) },
        },
    }
}

/// Decides the next step of starting a TCP listener on `cluster_ip:port` that forwards each
/// connection to the backing pod.
pub fn start_service_proxy(platform: Platform, entry: &ServiceEntry, event: ProxyEvent) -> (res:
    ProxyStep)
    ensures
        res@ == proxy_next(platform, entry@, event@),
{
    match event {
        ProxyEvent::Begin => ProxyStep::AddAlias {
            command: add_alias_command(platform, entry.cluster_ip.to_text().as_str()),
        },
        ProxyEvent::AliasAdded { added } => match added {
            Ok(_) => ProxyStep::ReadService {
                namespace: entry.namespace.clone(),
                name: entry.name.clone(),
            },
            Err(message) => ProxyStep::Fail { message },
        },
        ProxyEvent::ServiceRead { labels } => match labels {
            Ok(labels) => {
                if labels.len() == 0 {
                    let mut message = "service ".to_string();
                    message.append(entry.name.as_str());
                    message.append(" has no selector");
                    ProxyStep::Fail { message }
                } else {
                    ProxyStep::ListPods {
                        namespace: entry.namespace.clone(),
                        labels: select_labels(&labels),
                    }
                }
            },
            Err(_) => ProxyStep::Fail { message: "get service".to_string() },
        },
        ProxyEvent::PodsListed { pods } => match pods {
            Ok(pods) => match pick_pod(&pods) {
                Some(pod) => ProxyStep::Bind { addr: entry.bind_addr(), pod },
                None => {
                    let mut message = "no ready pods for service ".to_string();
                    message.append(entry.name.as_str());
                    ProxyStep::Fail { message }
                },
            },
            Err(message) => ProxyStep::Fail { message },
        },
        ProxyEvent::Bound { pod, bound } => match bound {
            Ok(_) => ProxyStep::Serve { pod },
            Err(_) => {
                let mut message = "bind ".to_string();
                message.append(entry.bind_addr().as_str());
                ProxyStep::Fail { message }
            },
        },
    }
}

/// Only a ready pod is ever bound: where a list of pods leads to a listener, one of the listed pods
/// is ready and has the name that is forwarded to.
pub proof fn law_forwards_to_ready_pod(
    platform: Platform,
    entry: ServiceEntryView,
    pods: Seq<PodStateView>,
    addr: Seq<char>,
    pod: Seq<char>,
)
    requires
        proxy_next(platform, entry, ProxyEventView::PodsListed { pods: Ok(pods) }) == (
        ProxyStepView::Bind { addr, pod }),
    ensures
        exists|i: int|
            0 <= i < pods.len() && pod_ready(#[trigger] pods[i]) && pods[i].name == Some(pod),
{
    lemma_first_ready(pods);
}

proof fn lemma_first_ready(pods: Seq<PodStateView>)
    ensures
        first_ready(pods) matches Some(name) ==> exists|i: int|
            0 <= i < pods.len() && pod_ready(#[trigger] pods[i]) && pods[i].name == Some(name),
    decreases pods.len(),
{
    if pods.len() > 0 && !(pod_ready(pods[0]) && pods[0].name is Some) {
        let rest = pods.skip(1);
        lemma_first_ready(rest);
        if let Some(name) = first_ready(rest) {
            let i = choose|i: int|
                0 <= i < rest.len() && pod_ready(#[trigger] rest[i]) && rest[i].name == Some(name);
            assert(pods[i + 1] == rest[i]);
        }
    }
}

// ── Laws of the service network ─────────────────────────

proof fn lemma_prefix_is_run(run: Seq<char>, post: Seq<char>)
    requires
        forall|i: int|
            0 <= i < run.len() ==> '0' <= (#[trigger] run[i]) <= '9' || run[i] == '.' || run[i] == '/',
        post.len() > 0 ==> !('0' <= post[0] <= '9' || post[0] == '.' || post[0] == '/'),
    ensures
        cidr_prefix(run + post) == run,
    decreases run.len(),
{
    let s = run + post;
    if run.len() == 0 {
        assert(s =~= post);
    } else {
        let rest = run.skip(1);
        assert(s[0] == run[0]);
        assert(s.skip(1) =~= rest + post);
        assert forall|i: int| 0 <= i < rest.len() implies '0' <= (#[trigger] rest[i]) <= '9'
            || rest[i] == '.' || rest[i] == '/' by {
            assert(rest[i] == run[i + 1]);
        }
        lemma_prefix_is_run(rest, post);
        assert(seq![run[0]] + rest =~= run);
    }
}

proof fn lemma_dots_are_cut(r: Seq<char>, dots: Seq<char>)
    requires
        r.len() > 0 ==> r.last() != '.',
        forall|i: int| 0 <= i < dots.len() ==> #[trigger] dots[i] == '.',
    ensures
        without_trailing_dots(r + dots) == r,
    decreases dots.len(),
{
    if dots.len() == 0 {
        assert(r + dots =~= r);
    } else {
        assert((r + dots).last() == dots[dots.len() - 1]);
        assert((r + dots).drop_last() =~= r + dots.drop_last());
        lemma_dots_are_cut(r, dots.drop_last());
    }
}

proof fn lemma_range_behind_mark(pre: Seq<char>, r: Seq<char>, dots: Seq<char>, post: Seq<char>)
    requires
        forall|i: int|
            0 <= i < r.len() ==> '0' <= (#[trigger] r[i]) <= '9' || r[i] == '.' || r[i] == '/',
        r.len() > 0 ==> r.last() != '.',
        forall|i: int| 0 <= i < dots.len() ==> #[trigger] dots[i] == '.',
        post.len() > 0 ==> !('0' <= post[0] <= '9' || post[0] == '.' || post[0] == '/'),
        forall|k: int|
            0 <= k < pre.len() ==> !(#[trigger] text::occurs_at(
                pre + "CIDR "@ + r + dots + post,
                "CIDR "@,
                k,
            )),
    ensures
        cidr_in(pre + "CIDR "@ + r + dots + post) == (if r.contains('/') {
            Some(r)
        } else {
            None
        }),
{
    let msg = pre + "CIDR "@ + r + dots + post;
    let at = pre.len() as int;
    reveal_strlit("CIDR ");
    assert(msg.subrange(at, at + 5) =~= "CIDR "@);
    assert(text::occurs_at(msg, "CIDR "@, at));
    text::lemma_find_first(msg, "CIDR "@, 0);
    assert(text::find_from(msg, "CIDR "@, 0) == Some(at));
    let run = r + dots;
    assert(msg.skip(at + 5) =~= run + post);
    assert forall|i: int| 0 <= i < run.len() implies '0' <= (#[trigger] run[i]) <= '9' || run[i]
        == '.' || run[i] == '/' by {
        if i < r.len() {
            assert(run[i] == r[i]);
        } else {
            assert(run[i] == dots[i - r.len()]);
        }
    }
    lemma_prefix_is_run(run, post);
    lemma_dots_are_cut(r, dots);
}

/// The range that a message names behind its first "CIDR " is read whole: all that is written in
/// digits, dots and slashes, if it holds a slash and does not end with a dot.
pub proof fn law_range_is_read_whole(pre: Seq<char>, r: Seq<char>, post: Seq<char>)
    requires
        forall|i: int|
            0 <= i < r.len() ==> '0' <= (#[trigger] r[i]) <= '9' || r[i] == '.' || r[i] == '/',
        r.contains('/'),
        r.last() != '.',
        post.len() > 0 ==> !('0' <= post[0] <= '9' || post[0] == '.' || post[0] == '/'),
        forall|k: int|
            0 <= k < pre.len() ==> !(#[trigger] text::occurs_at(
                pre + "CIDR "@ + r + post,
                "CIDR "@,
                k,
            )),
    ensures
        cidr_in(pre + "CIDR "@ + r + post) == Some(r),
        service_network(ProbeOutcomeView::Rejected { message: pre + "CIDR "@ + r + post }) == r,
{
    let none = Seq::<char>::empty();
    assert(pre + "CIDR "@ + r + none + post =~= pre + "CIDR "@ + r + post);
    lemma_range_behind_mark(pre, r, none, post);
}

/// Dots behind a range belong to the message, not to the range.
pub proof fn law_full_stops_belong_to_message(
    pre: Seq<char>,
    r: Seq<char>,
    dots: Seq<char>,
    post: Seq<char>,
)
    requires
        forall|i: int|
            0 <= i < r.len() ==> '0' <= (#[trigger] r[i]) <= '9' || r[i] == '.' || r[i] == '/',
        r.contains('/'),
        r.last() != '.',
        forall|i: int| 0 <= i < dots.len() ==> #[trigger] dots[i] == '.',
        post.len() > 0 ==> !('0' <= post[0] <= '9' || post[0] == '.' || post[0] == '/'),
        forall|k: int|
            0 <= k < pre.len() ==> !(#[trigger] text::occurs_at(
                pre + "CIDR "@ + r + dots + post,
                "CIDR "@,
                k,
            )),
    ensures
        cidr_in(pre + "CIDR "@ + r + dots + post) == Some(r),
{
    lemma_range_behind_mark(pre, r, dots, post);
}

/// A message names no range where it does not hold "CIDR ", and where no slash stands among the digits
/// and dots behind the first one; the usual network is taken then.
pub proof fn law_message_without_range(msg: Seq<char>, pre: Seq<char>, r: Seq<char>, post: Seq<char>)
    requires
        forall|k: int| !(#[trigger] text::occurs_at(msg, "CIDR "@, k)),
        forall|i: int| 0 <= i < r.len() ==> '0' <= (#[trigger] r[i]) <= '9' || r[i] == '.',
        post.len() > 0 ==> !('0' <= post[0] <= '9' || post[0] == '.' || post[0] == '/'),
        forall|k: int|
            0 <= k < pre.len() ==> !(#[trigger] text::occurs_at(
                pre + "CIDR "@ + r + post,
                "CIDR "@,
                k,
            )),
    ensures
        cidr_in(msg) is None,
        cidr_in(pre + "CIDR "@ + r + post) is None,
        service_network(ProbeOutcomeView::Rejected { message: msg }) == "10.96.0.0/12"@,
        service_network(ProbeOutcomeView::Rejected { message: pre + "CIDR "@ + r + post })
            == "10.96.0.0/12"@,
        service_network(ProbeOutcomeView::Created) == "10.96.0.0/12"@,
        service_network(ProbeOutcomeView::Failed) == "10.96.0.0/12"@,
{
    text::lemma_find_first(msg, "CIDR "@, 0);
    let (bare, dots) = lemma_part_dots(r);
    assert(pre + "CIDR "@ + bare + dots + post =~= pre + "CIDR "@ + r + post);
    assert forall|i: int| 0 <= i < bare.len() implies '0' <= (#[trigger] bare[i]) <= '9' || bare[i]
        == '.' by {
        assert(bare[i] == r[i]);
    }
    lemma_range_behind_mark(pre, bare, dots, post);
}

/// A text is one that does not end with a dot, and dots behind it.
proof fn lemma_part_dots(r: Seq<char>) -> (parts: (Seq<char>, Seq<char>))
    ensures
        r == parts.0 + parts.1,
        parts.0.len() > 0 ==> parts.0.last() != '.',
        forall|i: int| 0 <= i < parts.1.len() ==> #[trigger] parts.1[i] == '.',
    decreases r.len(),
{
    if r.len() > 0 && r.last() == '.' {
        let (bare, dots) = lemma_part_dots(r.drop_last());
        let more = dots.push('.');
        assert(r =~= r.drop_last().push('.'));
        assert(r =~= bare + more);
        (bare, more)
    } else {
        assert(r =~= r + Seq::<char>::empty());
        (r, Seq::empty())
    }
}

// ── Laws of the device ──────────────────────────────────

/// A name field has the size that was asked for, the bytes of the name in front, and zeros behind them.
pub proof fn law_name_field(name: Seq<char>, size: nat, i: int)
    requires
        name.len() <= size,
        0 <= i < size,
    ensures
        name_field(name, size).len() == size,
        i < name.len() ==> name_field(name, size)[i] == name[i] as u8,
        i >= name.len() ==> name_field(name, size)[i] == 0,
{
}

/// A Linux device is named by the bytes before the first zero byte, or by all bytes where there is
/// none; bytes that are no text stand for the name `portkube0`.
pub proof fn law_device_name_ends_at_zero(bytes: Seq<u8>, rest: Seq<u8>)
    requires
        forall|i: int| 0 <= i < bytes.len() ==> #[trigger] bytes[i] != 0,
    ensures
        vstd::utf8::valid_utf8(bytes) ==> tun_name(bytes + seq![0u8] + rest)
            == vstd::utf8::decode_utf8(bytes) && tun_name(bytes) == vstd::utf8::decode_utf8(bytes),
        !vstd::utf8::valid_utf8(bytes) ==> tun_name(bytes + seq![0u8] + rest) == "portkube0"@
            && tun_name(bytes) == "portkube0"@,
{
    let none = Seq::<u8>::empty();
    let behind = seq![0u8] + rest;
    assert(bytes + seq![0u8] + rest =~= bytes + behind);
    assert(bytes + none =~= bytes);
    lemma_before_zero(bytes, behind);
    lemma_before_zero(bytes, none);
    assert((bytes + behind).take(bytes.len() as int) =~= bytes);
    assert(bytes.take(bytes.len() as int) =~= bytes);
}

proof fn lemma_before_zero(bytes: Seq<u8>, behind: Seq<u8>)
    requires
        forall|i: int| 0 <= i < bytes.len() ==> #[trigger] bytes[i] != 0,
        behind.len() > 0 ==> behind[0] == 0,
    ensures
        zero_terminated(bytes + behind) == bytes.len(),
    decreases bytes.len(),
{
    if bytes.len() == 0 {
        assert(bytes + behind =~= behind);
    } else {
        let rest = bytes.skip(1);
        assert((bytes + behind)[0] == bytes[0]);
        assert((bytes + behind).skip(1) =~= rest + behind);
        assert forall|i: int| 0 <= i < rest.len() implies #[trigger] rest[i] != 0 by {
            assert(rest[i] == bytes[i + 1]);
        }
        lemma_before_zero(rest, behind);
    }
}

/// A macOS device is named by as many characters as were reported, without the zeros that end them.
pub proof fn law_device_name_without_zeros(name: Seq<char>, size: nat, len: nat)
    requires
        name.len() <= len <= size,
        forall|i: int| 0 <= i < name.len() ==> '\0' < (#[trigger] name[i]) <= '\u{7f}',
    ensures
        utun_name(name_field(name, size), len) == name,
{
    let zeros = Seq::new((len - name.len()) as nat, |i: int| '\0');
    let chars = name + zeros;
    let bytes = name_field(name, size).take(len as int);
    assert forall|i: int| 0 <= i < chars.len() implies '\0' <= (#[trigger] chars[i])
        <= '\u{7f}' by {
        if i < name.len() {
            assert(chars[i] == name[i]);
        }
    }
    vstd::utf8::is_ascii_chars_encode_utf8(chars);
    assert(bytes =~= vstd::utf8::encode_utf8(chars));
    vstd::utf8::encode_utf8_valid_utf8(chars);
    vstd::utf8::encode_utf8_decode_utf8(chars);
    lemma_zeros_are_cut(name, zeros);
}

/// A macOS device whose reported name is no text is called `utun?`; any other has the characters of that
/// name up to the zeros that end it.
pub proof fn law_reported_name_is_text(buffer: Seq<u8>, len: nat, name: Seq<char>, zeros: Seq<char>)
    requires
        len <= buffer.len(),
    ensures
        !vstd::utf8::valid_utf8(buffer.take(len as int)) ==> utun_name(buffer, len) == "utun?"@,
        vstd::utf8::valid_utf8(buffer.take(len as int)) && vstd::utf8::decode_utf8(
            buffer.take(len as int),
        ) == name + zeros && (forall|i: int| 0 <= i < zeros.len() ==> #[trigger] zeros[i] == '\0') && (
        name.len() > 0 ==> name.last() != '\0') ==> utun_name(buffer, len) == name,
{
    if (forall|i: int| 0 <= i < zeros.len() ==> #[trigger] zeros[i] == '\0') && (name.len() > 0
        ==> name.last() != '\0') {
        lemma_zeros_are_cut(name, zeros);
    }
}

proof fn lemma_zeros_are_cut(name: Seq<char>, zeros: Seq<char>)
    requires
        name.len() > 0 ==> name.last() != '\0',
        forall|i: int| 0 <= i < zeros.len() ==> #[trigger] zeros[i] == '\0',
    ensures
        trim_zeros(name + zeros) == name,
    decreases zeros.len(),
{
    if zeros.len() == 0 {
        assert(name + zeros =~= name);
    } else {
        assert((name + zeros).last() == zeros[zeros.len() - 1]);
        assert((name + zeros).drop_last() =~= name + zeros.drop_last());
        lemma_zeros_are_cut(name, zeros.drop_last());
    }
}

/// A device that the system opened is taken over with its descriptor and without a route; its name is
/// read from all of the buffer on Linux and from the reported part of it on macOS. A call that failed
/// is reported with what the system said of it, and Windows has no such devices.
pub proof fn law_device_is_taken_over(fd: i32, buffer: Seq<u8>, len: nat, os_error: Seq<char>)
    ensures
        created(Platform::Linux, Ok((fd, buffer, len))) matches Ok(tun) && tun.fd == fd && tun.name
            == tun_name(buffer) && tun.service_cidr.len() == 0,
        created(Platform::MacOs, Ok((fd, buffer, len))) matches Ok(tun) && tun.fd == fd && tun.name
            == utun_name(buffer, len) && tun.service_cidr.len() == 0,
        created(Platform::MacOs, Err((OpenStep::Socket, os_error))) == Err::<
            TunDeviceView,
            Seq<char>,
        >("socket(PF_SYSTEM) failed: "@ + os_error + " — run with sudo"@),
        created(Platform::MacOs, Err((OpenStep::ControlInfo, os_error))) == Err::<
            TunDeviceView,
            Seq<char>,
        >("ioctl(CTLIOCGINFO) failed: "@ + os_error),
        created(Platform::MacOs, Err((OpenStep::Connect, os_error))) == Err::<
            TunDeviceView,
            Seq<char>,
        >("connect(utun) failed: "@ + os_error),
        created(Platform::MacOs, Err((OpenStep::InterfaceName, os_error))) == Err::<
            TunDeviceView,
            Seq<char>,
        >("getsockopt(UTUN_OPT_IFNAME) failed: "@ + os_error),
        created(Platform::Linux, Err((OpenStep::OpenTun, os_error))) == Err::<
            TunDeviceView,
            Seq<char>,
        >("open /dev/net/tun — run with sudo or load tun kernel module"@),
        created(Platform::Linux, Err((OpenStep::SetInterface, os_error))) == Err::<
            TunDeviceView,
            Seq<char>,
        >("ioctl(TUNSETIFF) failed: "@ + os_error),
        created(Platform::Windows, Ok((fd, buffer, len))) is Err,
        created(Platform::Windows, Err((OpenStep::Socket, os_error))) is Err,
{
}

/// On macOS a device gets its two addresses and then the route of the service network, each after the
/// command before it succeeded.
pub proof fn law_macos_configuration(dev: Seq<char>, cidr: Seq<char>, n: nat)
    ensures
        configure_next(Platform::MacOs, dev, cidr, 0, Ok(())) == (ConfigureStepView::Run {
            command: CommandView {
                program: "ifconfig"@,
                args: seq![dev, "inet"@, "198.18.0.1"@, "198.18.0.2"@, "up"@],
            },
        }),
        configure_next(Platform::MacOs, dev, cidr, 1, Ok(())) == (ConfigureStepView::Run {
            command: CommandView {
                program: "route"@,
                args: seq!["add"@, "-net"@, cidr, "198.18.0.2"@],
            },
        }),
        n >= 2 ==> configure_next(Platform::MacOs, dev, cidr, n, Ok(())) == ConfigureStepView::Done,
{
}

/// On Linux a device gets its two addresses, is brought up, and gets the route of the service network,
/// each after the command before it succeeded.
pub proof fn law_linux_configuration(dev: Seq<char>, cidr: Seq<char>, n: nat)
    ensures
        configure_next(Platform::Linux, dev, cidr, 0, Ok(())) == (ConfigureStepView::Run {
            command: CommandView {
                program: "ip"@,
                args: seq![
                    "addr"@,
                    "add"@,
                    "198.18.0.1"@ + "/32"@,
                    "peer"@,
                    "198.18.0.2"@,
                    "dev"@,
                    dev,
                ],
            },
        }),
        configure_next(Platform::Linux, dev, cidr, 1, Ok(())) == (ConfigureStepView::Run {
            command: CommandView { program: "ip"@, args: seq!["link"@, "set"@, dev, "up"@] },
        }),
        configure_next(Platform::Linux, dev, cidr, 2, Ok(())) == (ConfigureStepView::Run {
            command: CommandView {
                program: "ip"@,
                args: seq!["route"@, "add"@, cidr, "via"@, "198.18.0.2"@, "dev"@, dev],
            },
        }),
        n >= 3 ==> configure_next(Platform::Linux, dev, cidr, n, Ok(())) == ConfigureStepView::Done,
{
}

/// A command that failed ends the configuration with its message, and Windows cannot be configured.
pub proof fn law_failed_command_ends_configuration(
    platform: Platform,
    dev: Seq<char>,
    cidr: Seq<char>,
    n: nat,
    latest: Result<(), Seq<char>>,
)
    ensures
        platform != Platform::Windows ==> (latest matches Err(message) ==> configure_next(
            platform,
            dev,
            cidr,
            n,
            latest,
        ) == (ConfigureStepView::Failed { message })),
        configure_next(Platform::Windows, dev, cidr, n, latest) == (ConfigureStepView::Failed {
            message: "TUN configuration is not supported on Windows"@,
        }),
{
}

/// The route that is taken away is the one of the service network, by the far end of the device. There
/// is none to take away where no network was routed, and none on Windows.
pub proof fn law_cleanup_command(cidr: Seq<char>)
    ensures
        cidr.len() > 0 ==> cleanup_command(Platform::MacOs, cidr) == Some(
            CommandView {
                program: "route"@,
                args: seq!["delete"@, "-net"@, cidr, "198.18.0.2"@],
            },
        ),
        cidr.len() > 0 ==> cleanup_command(Platform::Linux, cidr) == Some(
            CommandView {
                program: "ip"@,
                args: seq!["route"@, "del"@, cidr, "via"@, "198.18.0.2"@],
            },
        ),
        cidr.len() == 0 ==> cleanup_command(Platform::MacOs, cidr) is None && cleanup_command(
            Platform::Linux,
            cidr,
        ) is None,
        cleanup_command(Platform::Windows, cidr) is None,
{
}

/// Every address is taken off the loopback interface, once for each time it was put there, in order.
pub proof fn law_every_alias_is_removed(platform: Platform, ips: Seq<Ipv4Addr>, i: int)
    requires
        0 <= i < ips.len(),
    ensures
        alias_removals(platform, ips).len() == ips.len(),
        alias_removals(platform, ips)[i] == command::remove_alias(platform, ipv4::dotted(ips[i])),
{
}

// ── Laws of the proxies ─────────────────────────────────

/// A selector names every label as its key, an equals sign and its value, in order, with commas between
/// the labels.
pub proof fn law_selector_names_every_label(labels: Seq<LabelView>)
    requires
        labels.len() > 0,
        forall|i: int|
            0 <= i < labels.len() ==> !((#[trigger] labels[i]).key + "="@ + labels[i].value).contains(
                ',',
            ),
    ensures
        text::split(label_selector(labels), ',').len() == labels.len(),
        forall|i: int|
            0 <= i < labels.len() ==> #[trigger] text::split(label_selector(labels), ',')[i]
                == labels[i].key + "="@ + labels[i].value,
{
    let parts = labels.map_values(|label: LabelView| label_text(label));
    reveal_strlit(",");
    assert(","@ =~= seq![',']);
    assert forall|i: int| 0 <= i < parts.len() implies !(#[trigger] parts[i]).contains(',') by {
        assert(parts[i] == labels[i].key + "="@ + labels[i].value);
    }
    text::lemma_split_join(parts, ',');
}

/// Where a list of pods leads to a listener, the pod that it forwards to has a condition of exactly the
/// kind `Ready` with exactly the status `True`, and no earlier pod of the list that has a name has such
/// a condition. The listener is on the address and port of the service.
pub proof fn law_forwards_to_first_ready_pod(
    platform: Platform,
    entry: ServiceEntryView,
    pods: Seq<PodStateView>,
    addr: Seq<char>,
    pod: Seq<char>,
)
    requires
        proxy_next(platform, entry, ProxyEventView::PodsListed { pods: Ok(pods) }) == (
        ProxyStepView::Bind { addr, pod }),
    ensures
        addr == ipv4::dotted(entry.cluster_ip) + ":"@ + text::digits(entry.port as nat),
        exists|i: int, cs: Seq<PodConditionView>, k: int|
            {
                &&& 0 <= i < pods.len()
                &&& (#[trigger] pods[i]).name == Some(pod)
                &&& pods[i].status == Some(PodStatusView { conditions: Some(cs) })
                &&& 0 <= k < cs.len()
                &&& (#[trigger] cs[k]).kind == "Ready"@
                &&& cs[k].status == "True"@
                &&& forall|j: int, earlier: Seq<PodConditionView>, m: int|
                    0 <= j < i && (#[trigger] pods[j]).name is Some && pods[j].status == Some(
                        PodStatusView { conditions: Some(earlier) },
                    ) && 0 <= m < earlier.len() ==> !((#[trigger] earlier[m]).kind == "Ready"@
                        && earlier[m].status == "True"@)
            },
{
    let i = lemma_ready_at(pods);
    let cs = pods[i].status.unwrap().conditions.unwrap();
    let k = choose|k: int| 0 <= k < cs.len() && says_ready(#[trigger] cs[k]);
    assert(pods[i].status == Some(PodStatusView { conditions: Some(cs) }));
    assert(cs[k].kind == "Ready"@ && cs[k].status == "True"@);
    assert forall|j: int, earlier: Seq<PodConditionView>, m: int|
        0 <= j < i && (#[trigger] pods[j]).name is Some && pods[j].status == Some(
            PodStatusView { conditions: Some(earlier) },
        ) && 0 <= m < earlier.len() implies !((#[trigger] earlier[m]).kind == "Ready"@
        && earlier[m].status == "True"@) by {
        assert(!pod_ready(pods[j]));
        assert(!any_ready(earlier));
        assert(!says_ready(earlier[m]));
    }
}

/// The place of the pod that is taken.
proof fn lemma_ready_at(pods: Seq<PodStateView>) -> (i: int)
    requires
        first_ready(pods) is Some,
    ensures
        0 <= i < pods.len(),
        pods[i].name == first_ready(pods),
        pod_ready(pods[i]),
        forall|j: int| 0 <= j < i && (#[trigger] pods[j]).name is Some ==> !pod_ready(pods[j]),
    decreases pods.len(),
{
    if pod_ready(pods[0]) && pods[0].name is Some {
        0
    } else {
        let rest = pods.skip(1);
        let i = lemma_ready_at(rest);
        assert(pods[i + 1] == rest[i]);
        assert forall|j: int| 0 <= j < i + 1 && (#[trigger] pods[j]).name is Some implies !pod_ready(
            pods[j],
        ) by {
            if j > 0 {
                assert(pods[j] == rest[j - 1]);
            }
        }
        i + 1
    }
}

/// A list with a pod that has a name and a condition of the kind `Ready` with the status `True` always
/// leads to a listener.
pub proof fn law_ready_pod_is_taken(
    platform: Platform,
    entry: ServiceEntryView,
    pods: Seq<PodStateView>,
    i: int,
    cs: Seq<PodConditionView>,
    k: int,
)
    requires
        0 <= i < pods.len(),
        pods[i].name is Some,
        pods[i].status == Some(PodStatusView { conditions: Some(cs) }),
        0 <= k < cs.len(),
        cs[k].kind == "Ready"@,
        cs[k].status == "True"@,
    ensures
        proxy_next(platform, entry, ProxyEventView::PodsListed { pods: Ok(pods) }) is Bind,
{
    assert(says_ready(cs[k]));
    assert(pod_ready(pods[i]));
    lemma_some_ready(pods, i);
}

proof fn lemma_some_ready(pods: Seq<PodStateView>, i: int)
    requires
        0 <= i < pods.len(),
        pods[i].name is Some,
        pod_ready(pods[i]),
    ensures
        first_ready(pods) is Some,
    decreases i,
{
    if i > 0 {
        assert(pods.skip(1)[i - 1] == pods[i]);
        lemma_some_ready(pods.skip(1), i - 1);
    }
}

/// A list in which no pod with a name has a condition of the kind `Ready` with the status `True` fails,
/// and the failure names the service.
pub proof fn law_no_ready_pod_fails(
    platform: Platform,
    entry: ServiceEntryView,
    pods: Seq<PodStateView>,
)
    requires
        forall|i: int, cs: Seq<PodConditionView>, k: int|
            0 <= i < pods.len() && (#[trigger] pods[i]).name is Some && pods[i].status == Some(
                PodStatusView { conditions: Some(cs) },
            ) && 0 <= k < cs.len() ==> !((#[trigger] cs[k]).kind == "Ready"@ && cs[k].status
                == "True"@),
    ensures
        proxy_next(platform, entry, ProxyEventView::PodsListed { pods: Ok(pods) }) == (
        ProxyStepView::Fail { message: "no ready pods for service "@ + entry.name }),
{
    if first_ready(pods) is Some {
        let i = lemma_ready_at(pods);
        let cs = pods[i].status.unwrap().conditions.unwrap();
        let k = choose|k: int| 0 <= k < cs.len() && says_ready(#[trigger] cs[k]);
        assert(pods[i].status == Some(PodStatusView { conditions: Some(cs) }));
        assert(cs[k].kind == "Ready"@ && cs[k].status == "True"@);
    }
}

/// The steps to a proxy: its address goes on the loopback interface, the service is read by its name in
/// its namespace, its pods are listed by all the labels that it selects, and the listener that was
/// bound forwards to the pod that was chosen. What fails is reported, and ends it.
pub proof fn law_proxy_steps(
    platform: Platform,
    entry: ServiceEntryView,
    labels: Seq<LabelView>,
    pod: Seq<char>,
    message: Seq<char>,
)
    ensures
        proxy_next(platform, entry, ProxyEventView::Begin) == (ProxyStepView::AddAlias {
            command: command::add_alias(platform, ipv4::dotted(entry.cluster_ip)),
        }),
        proxy_next(platform, entry, ProxyEventView::AliasAdded { added: Ok(()) }) == (
        ProxyStepView::ReadService { namespace: entry.namespace, name: entry.name }),
        proxy_next(platform, entry, ProxyEventView::AliasAdded { added: Err(message) }) == (
        ProxyStepView::Fail { message }),
        labels.len() > 0 ==> (proxy_next(
            platform,
            entry,
            ProxyEventView::ServiceRead { labels: Ok(labels) },
        ) matches ProxyStepView::ListPods { namespace, labels: selector } && namespace
            == entry.namespace && selector == label_selector(labels)),
        proxy_next(platform, entry, ProxyEventView::ServiceRead { labels: Ok(Seq::empty()) }) == (
        ProxyStepView::Fail { message: "service "@ + entry.name + " has no selector"@ }),
        proxy_next(platform, entry, ProxyEventView::ServiceRead { labels: Err(message) }) == (
        ProxyStepView::Fail { message: "get service"@ }),
        proxy_next(platform, entry, ProxyEventView::PodsListed { pods: Err(message) }) == (
        ProxyStepView::Fail { message }),
        proxy_next(platform, entry, ProxyEventView::Bound { pod, bound: Ok(()) }) == (
        ProxyStepView::Serve { pod }),
        proxy_next(platform, entry, ProxyEventView::Bound { pod, bound: Err(message) }) == (
        ProxyStepView::Fail {
            message: "bind "@ + (ipv4::dotted(entry.cluster_ip) + ":"@ + text::digits(
                entry.port as nat,
            )),
        }),
{
}

} // verus!
