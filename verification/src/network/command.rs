//! Commands that the machine is set up with, per platform.
use crate::text::{self, join_text, push_decimal, push_viewed, trim_text};
use vstd::prelude::*;

verus! {

/// The operating systems that can be set up.
#[derive(Debug, Clone, Copy, PartialEq, Eq, Structural)]
pub enum Platform {
    MacOs,
    Linux,
    Windows,
}

/// A program with its arguments.
#[derive(Debug)]
pub struct Command {
    pub program: String,
    pub args: Vec<String>,
}

#[verifier::ext_equal]
pub struct CommandView {
    pub program: Seq<char>,
    pub args: Seq<Seq<char>>,
}

impl View for Command {
    type V = CommandView;

    open spec fn view(&self) -> CommandView {
        CommandView { program: self.program@, args: self.args.deep_view() }
    }
}

impl DeepView for Command {
    type V = CommandView;

    open spec fn deep_view(&self) -> CommandView {
        self@
    }
}

impl Command {
    /// A program without arguments.
    pub fn new(program: &str) -> (res: Command)
        ensures
            res@ == (CommandView { program: program@, args: Seq::empty() }),
    {
        let res = Command { program: program.to_string(), args: Vec::new() };
        assert(res.args.deep_view() =~= Seq::empty());
        res
    }

    /// The command with one more argument.
    pub fn arg(self, arg: &str) -> (res: Command)
        ensures
            res@ == (CommandView { program: self@.program, args: self@.args.push(arg@) }),
    {
        let mut args = self.args;
        push_viewed(&mut args, arg.to_string());
        Command { program: self.program, args }
    }

    /// The command as one line of text.
    pub fn line(&self) -> (res: String)
        ensures
            res@ == command_line(self@),
    {
        let mut res = self.program.clone();
        res.append(" ");
        res.append(join_text(&self.args, " ").as_str());
        res
    }

    /// What to say when the command ran and failed.
    pub fn failure(&self, stderr: &str) -> (res: String)
        ensures
            res@ == command_line(self@) + " failed: "@ + text::trim(stderr@),
    {
        let mut res = self.line();
        res.append(" failed: ");
        res.append(trim_text(stderr).as_str());
        res
    }

    /// What to say when the command ran and failed, with the exit code where there is one.
    pub fn failure_with_code(&self, code: Option<i32>, stderr: &str) -> (res: String)
        ensures
            res@ == command_line(self@) + " failed (exit "@ + exit_code(code) + "): "@
                + text::trim(stderr@),
    {
        let mut res = self.line();
        res.append(" failed (exit ");
        let ghost before = res@;
        match code {
            Some(c) => {
                res.append("Some(");
                push_decimal(&mut res, c as i64);
                res.append(")");
            },
            None => res.append("None"),
        }
        assert(res@ =~= before + exit_code(code));
        res.append("): ");
        res.append(trim_text(stderr).as_str());
        res
    }
}

/// The program and its arguments, separated by single spaces.
pub open spec fn command_line(c: CommandView) -> Seq<char> {
    c.program + " "@ + text::join(c.args, " "@)
}

/// An exit code as the failure message shows it.
pub open spec fn exit_code(code: Option<i32>) -> Seq<char> {
    match code {
        Some(c) => "Some("@ + text::decimal(c as int) + ")"@,
        None => "None"@,
    }
}

/// The command that gives the loopback interface one more address.
pub open spec fn add_alias(platform: Platform, ip: Seq<char>) -> CommandView {
    match platform {
        Platform::MacOs => CommandView {
            program: "ifconfig"@,
            args: seq!["lo0"@, "alias"@, ip],
        },
        Platform::Linux => CommandView {
            program: "ip"@,
            args: seq!["addr"@, "add"@, ip + "/32"@, "dev"@, "lo"@],
        },
        Platform::Windows => CommandView {
            program: "netsh"@,
            args: seq![
                "interface"@,
                "ip"@,
                "add"@,
                "address"@,
                "Loopback Pseudo-Interface 1"@,
                ip,
                "255.255.255.255"@,
            ],
        },
    }
}

/// The command that takes an address off the loopback interface.
pub open spec fn remove_alias(platform: Platform, ip: Seq<char>) -> CommandView {
    match platform {
        Platform::MacOs => CommandView {
            program: "ifconfig"@,
            args: seq!["lo0"@, "-alias"@, ip],
        },
        Platform::Linux => CommandView {
            program: "ip"@,
            args: seq!["addr"@, "del"@, ip + "/32"@, "dev"@, "lo"@],
        },
        Platform::Windows => CommandView {
            program: "netsh"@,
            args: seq![
                "interface"@,
                "ip"@,
                "delete"@,
                "address"@,
                "Loopback Pseudo-Interface 1"@,
                ip,
            ],
        },
    }
}

/// Gives the loopback interface one more address.
pub fn add_alias_command(platform: Platform, ip: &str) -> (res: Command)
    ensures
        res@ == add_alias(platform, ip@),
{
    match platform {
        Platform::MacOs => Command::new("ifconfig").arg("lo0").arg("alias").arg(ip),
        Platform::Linux => {
            let cidr = host_cidr(ip);
            Command::new("ip").arg("addr").arg("add").arg(cidr.as_str()).arg("dev").arg("lo")
        },
        Platform::Windows => Command::new("netsh").arg("interface").arg("ip").arg("add").arg(
            "address",
        ).arg("Loopback Pseudo-Interface 1").arg(ip).arg("255.255.255.255"),
    }
}

/// Takes an address off the loopback interface.
pub fn remove_alias_command(platform: Platform, ip: &str) -> (res: Command)
    ensures
        res@ == remove_alias(platform, ip@),
{
    match platform {
        Platform::MacOs => Command::new("ifconfig").arg("lo0").arg("-alias").arg(ip),
        Platform::Linux => {
            let cidr = host_cidr(ip);
            Command::new("ip").arg("addr").arg("del").arg(cidr.as_str()).arg("dev").arg("lo")
        },
        Platform::Windows => Command::new("netsh").arg("interface").arg("ip").arg("delete").arg(
            "address",
        ).arg("Loopback Pseudo-Interface 1").arg(ip),
    }
}

/// The network that holds a single address.
pub fn host_cidr(ip: &str) -> (res: String)
    ensures
        res@ == ip@ + "/32"@,
{
    let mut res = ip.to_string();
    res.append("/32");
    res
}

// ── Laws ────────────────────────────────────────────────

/// The line of a command is its program and its arguments, separated by single spaces.
pub proof fn law_command_line_words(c: CommandView)
    requires
        c.args.len() > 0,
        !c.program.contains(' '),
        forall|i: int| 0 <= i < c.args.len() ==> !(#[trigger] c.args[i]).contains(' '),
    ensures
        text::split(command_line(c), ' ') == seq![c.program] + c.args,
{
    let words = seq![c.program] + c.args;
    let space = seq![' '];
    reveal_strlit(" ");
    assert(" "@ =~= space);
    lemma_join_first(c.program, c.args, space);
    assert forall|i: int| 0 <= i < words.len() implies !(#[trigger] words[i]).contains(' ') by {
        if i > 0 {
            assert(words[i] == c.args[i - 1]);
        }
    }
    text::lemma_split_join(words, ' ');
}

proof fn lemma_join_first(first: Seq<char>, rest: Seq<Seq<char>>, sep: Seq<char>)
    requires
        rest.len() > 0,
    ensures
        text::join(seq![first] + rest, sep) == first + sep + text::join(rest, sep),
    decreases rest.len(),
{
    let all = seq![first] + rest;
    let init = rest.drop_last();
    assert(all.drop_last() =~= seq![first] + init);
    assert(all.last() == rest.last());
    if init.len() > 0 {
        lemma_join_first(first, init, sep);
        assert(text::join(all, sep) =~= first + sep + text::join(rest, sep));
    } else {
        assert(seq![first] + init =~= seq![first]);
        text::law_join_grows(seq![first], first, sep);
        assert(rest =~= seq![rest.last()]);
        text::law_join_grows(seq![first], rest.last(), sep);
        assert(all =~= seq![first].push(rest.last()));
    }
}

/// Each platform gives its loopback interface an address, and takes it off again, with its own command,
/// which names that very address. On Linux it is a network of one host.
pub proof fn law_alias_commands(ip: Seq<char>)
    ensures
        add_alias(Platform::MacOs, ip).program == "ifconfig"@,
        add_alias(Platform::MacOs, ip).args == seq!["lo0"@, "alias"@, ip],
        remove_alias(Platform::MacOs, ip).program == "ifconfig"@,
        remove_alias(Platform::MacOs, ip).args == seq!["lo0"@, "-alias"@, ip],
        add_alias(Platform::Linux, ip).program == "ip"@,
        add_alias(Platform::Linux, ip).args == seq!["addr"@, "add"@, ip + "/32"@, "dev"@, "lo"@],
        remove_alias(Platform::Linux, ip).program == "ip"@,
        remove_alias(Platform::Linux, ip).args == seq![
            "addr"@,
            "del"@,
            ip + "/32"@,
            "dev"@,
            "lo"@,
        ],
        add_alias(Platform::Windows, ip).program == "netsh"@,
        add_alias(Platform::Windows, ip).args == seq![
            "interface"@,
            "ip"@,
            "add"@,
            "address"@,
            "Loopback Pseudo-Interface 1"@,
            ip,
            "255.255.255.255"@,
        ],
        remove_alias(Platform::Windows, ip).program == "netsh"@,
        remove_alias(Platform::Windows, ip).args == seq![
            "interface"@,
            "ip"@,
            "delete"@,
            "address"@,
            "Loopback Pseudo-Interface 1"@,
            ip,
        ],
{
}

/// An exit code is shown as an optional number: a program that a signal ended has none.
pub proof fn law_exit_code(code: i32)
    ensures
        exit_code(None) == "None"@,
        code >= 0 ==> exit_code(Some(code)) == "Some("@ + text::digits(code as nat) + ")"@,
        code < 0 ==> exit_code(Some(code)) == "Some("@ + ("-"@ + text::digits((-code) as nat)) + ")"@,
{
    reveal_strlit("-");
    assert("-"@ =~= seq!['-']);
}

/// Every argument comes behind one space, whatever it holds.
pub proof fn law_command_line_grows(c: CommandView, arg: Seq<char>)
    ensures
        c.args.len() == 0 ==> command_line(CommandView { program: c.program, args: c.args.push(arg) })
            == c.program + " "@ + arg,
        c.args.len() > 0 ==> command_line(CommandView { program: c.program, args: c.args.push(arg) })
            == command_line(c) + " "@ + arg,
{
    text::law_join_grows(c.args, arg, " "@);
    if c.args.len() == 0 {
        assert(c.args.push(arg) =~= seq![arg]);
    } else {
        assert(c.program + " "@ + (text::join(c.args, " "@) + " "@ + arg) =~= command_line(c) + " "@
            + arg);
    }
}

} // verus!
