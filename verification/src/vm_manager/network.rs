//! The network of a machine: the commands that connect it and cut it off, and the
//! rules that send all of its traffic to the proxy.

use vstd::prelude::*;

use crate::numbers;
use crate::text::{self, prefixed};
use crate::unicode;

verus! {

/// The port that the proxy listens on.
pub const PROXY_PORT: u16 = 9999;

// ---------------------------------------------------------------------------
// Commands
// ---------------------------------------------------------------------------

/// A command of the host.
#[derive(Debug)]
pub struct Command {
    /// The program.
    pub program: String,
    /// Its arguments.
    pub args: Vec<String>,
    /// Whether its failure is a failure of the whole.
    pub required: bool,
}

/// The texts of a command.
pub struct CommandView {
    /// The program.
    pub program: Seq<char>,
    /// Its arguments.
    pub args: Seq<Seq<char>>,
    /// Whether its failure is a failure of the whole.
    pub required: bool,
}

impl View for Command {
    type V = CommandView;

    open spec fn view(&self) -> CommandView {
        CommandView {
            program: self.program@,
            args: crate::text::string_views(self.args@),
            required: self.required,
        }
    }
}

/// The views of a run of commands.
pub open spec fn command_views(s: Seq<Command>) -> Seq<CommandView> {
    Seq::new(s.len(), |i: int| s[i]@)
}

/// A command that has to succeed.
pub open spec fn must(program: Seq<char>, args: Seq<Seq<char>>) -> CommandView {
    CommandView { program, args, required: true }
}

/// A command that may fail.
pub open spec fn may(program: Seq<char>, args: Seq<Seq<char>>) -> CommandView {
    CommandView { program, args, required: false }
}

/// The command with those arguments.
pub fn command(program: &str, args: &[&str], required: bool) -> (c: Command)
    ensures
        c@.program == program@,
        c@.required == required,
        c@.args == Seq::new(args@.len(), |i: int| args@[i]@),
{
    let mut v: Vec<String> = Vec::new();
    let mut i: usize = 0;
    while i < args.len()
        invariant
            i <= args@.len(),
            v@.len() == i,
            forall|j: int| 0 <= j < i ==> (#[trigger] v@[j])@ == args@[j]@,
        decreases args@.len() - i,
    {
        v.push(args[i].to_owned());
        i = i + 1;
    }
    proof {
        assert(crate::text::string_views(v@) =~= Seq::new(
            args@.len(),
            |i: int| args@[i]@,
        ));
    }
    Command { program: program.to_owned(), args: v, required }
}

/// The command line: the program and its arguments with spaces between them.
pub open spec fn command_line(c: CommandView) -> Seq<char> {
    c.program + " "@ + text::join(c.args, " "@)
}

/// What came of running a command.
pub enum Outcome {
    /// It could not be run.
    NotRun,
    /// It ran: whether it succeeded, and what it wrote to standard output and to
    /// standard error.
    Ran(bool, Vec<u8>, Vec<u8>),
}

/// Why a command counts as failed; nothing where it succeeded, or may fail.
pub open spec fn failure_text(c: CommandView, outcome: Outcome) -> Option<Seq<char>> {
    if !c.required {
        None
    } else {
        match outcome {
            Outcome::NotRun => Some("Failed to run: "@ + command_line(c)),
            Outcome::Ran(true, _, _) => None,
            Outcome::Ran(false, stdout, stderr) => Some(
                "Command failed: "@ + command_line(c) + "\nstdout: "@ + unicode::decoded(stdout@)
                    + "\nstderr: "@ + unicode::decoded(stderr@),
            ),
        }
    }
}

impl Command {
    /// The command line.
    pub fn line(&self) -> (s: String)
        ensures
            s@ == command_line(self@),
    {
        let mut parts: Vec<Vec<char>> = Vec::new();
        let mut i: usize = 0;
        while i < self.args.len()
            invariant
                i <= self.args@.len(),
                parts@.len() == i,
                forall|j: int| 0 <= j < i ==> (#[trigger] parts@[j])@ == self.args@[j]@,
            decreases self.args@.len() - i,
        {
            parts.push(text::chars_of(self.args[i].as_str()));
            i = i + 1;
        }
        proof {
            assert(text::views(parts@) =~= self@.args);
        }
        let space = text::chars_of(" ");
        let joined = text::join_chars(&parts, space.as_slice());
        let joined = text::string_of(joined.as_slice());
        let mut s = self.program.clone();
        s.append(" ");
        s.append(joined.as_str());
        s
    }

    /// Whether what came of running the command lets the whole go on, and why not.
    pub fn check(&self, outcome: &Outcome) -> (r: Result<(), String>)
        ensures
            match r {
                Ok(_) => failure_text(self@, *outcome) is None,
                Err(e) => failure_text(self@, *outcome) == Some(e@),
            },
    {
        if !self.required {
            return Ok(());
        }
        match outcome {
            Outcome::NotRun => Err(prefixed("Failed to run: ", self.line().as_str())),
            Outcome::Ran(success, stdout, stderr) => {
                if *success {
                    return Ok(());
                }
                let mut m = prefixed("Command failed: ", self.line().as_str());
                m.append("\nstdout: ");
                m.append(unicode::decode_lossy(stdout.as_slice()).as_str());
                m.append("\nstderr: ");
                m.append(unicode::decode_lossy(stderr.as_slice()).as_str());
                Err(m)
            },
        }
    }
}

// ---------------------------------------------------------------------------
// Interfaces
// ---------------------------------------------------------------------------

/// The commands that make the interface `tap` with that address and network of the host
/// on it. The filter on return paths is off, or what the proxy answers would be dropped.
pub open spec fn tap_up(tap: Seq<char>, cidr: Seq<char>) -> Seq<CommandView> {
    seq![
        must("sudo"@, seq!["ip"@, "tuntap"@, "add"@, "dev"@, tap, "mode"@, "tap"@]),
        must("sudo"@, seq!["ip"@, "addr"@, "add"@, cidr, "dev"@, tap]),
        must("sudo"@, seq!["ip"@, "link"@, "set"@, "dev"@, tap, "up"@]),
        may("sudo"@, seq!["ethtool"@, "-K"@, tap, "tx"@, "off"@, "rx"@, "off"@]),
        must(
            "sudo"@,
            seq![
                "sh"@,
                "-c"@,
                "echo 0 > "@ + ("/proc/sys/net/ipv4/conf/"@ + tap + "/rp_filter"@),
            ],
        ),
        must("sudo"@, seq!["sh"@, "-c"@, "echo 0 > /proc/sys/net/ipv4/conf/all/rp_filter"@]),
    ]
}

/// The commands that take the interface `tap` away.
pub open spec fn tap_down(tap: Seq<char>) -> Seq<CommandView> {
    seq![
        may("sudo"@, seq!["ip"@, "link"@, "set"@, "dev"@, tap, "down"@]),
        must("sudo"@, seq!["ip"@, "tuntap"@, "del"@, "dev"@, tap, "mode"@, "tap"@]),
    ]
}

/// The commands that make the interface `tap_name` with the host's address on it, in a
/// network of four addresses.
pub fn setup_tap_interface(tap_name: &str, host_ip: &str) -> (r: Vec<Command>)
    ensures
        command_views(r@) == tap_up(tap_name@, host_ip@ + "/30"@),
{
    let mut cidr = host_ip.to_owned();
    cidr.append("/30");
    tap_commands(tap_name, cidr.as_str())
}

/// The commands that make the interface `tap_name` with that address and network of the
/// host on it.
pub fn tap_commands(tap_name: &str, cidr: &str) -> (r: Vec<Command>)
    ensures
        command_views(r@) == tap_up(tap_name@, cidr@),
{
    let mut path = prefixed("/proc/sys/net/ipv4/conf/", tap_name);
    path.append("/rp_filter");
    let echo = prefixed("echo 0 > ", path.as_str());
    let mut r: Vec<Command> = Vec::new();
    r.push(command("sudo", &["ip", "tuntap", "add", "dev", tap_name, "mode", "tap"], true));
    r.push(command("sudo", &["ip", "addr", "add", cidr, "dev", tap_name], true));
    r.push(command("sudo", &["ip", "link", "set", "dev", tap_name, "up"], true));
    r.push(command("sudo", &["ethtool", "-K", tap_name, "tx", "off", "rx", "off"], false));
    r.push(command("sudo", &["sh", "-c", echo.as_str()], true));
    r.push(
        command("sudo", &["sh", "-c", "echo 0 > /proc/sys/net/ipv4/conf/all/rp_filter"], true),
    );
    proof {
        let want = tap_up(tap_name@, cidr@);
        assert forall|i: int| 0 <= i < 6 implies command_views(r@)[i] == #[trigger] want[i] by {
            assert(r@[i]@.args =~= want[i].args);
        }
        assert(command_views(r@) =~= want);
    }
    r
}

/// The commands that take the interface `tap_name` away.
pub fn cleanup_tap_interface(tap_name: &str) -> (r: Vec<Command>)
    ensures
        command_views(r@) == tap_down(tap_name@),
{
    let mut r: Vec<Command> = Vec::new();
    r.push(command("sudo", &["ip", "link", "set", "dev", tap_name, "down"], false));
    r.push(command("sudo", &["ip", "tuntap", "del", "dev", tap_name, "mode", "tap"], true));
    proof {
        let want = tap_down(tap_name@);
        assert forall|i: int| 0 <= i < 2 implies command_views(r@)[i] == #[trigger] want[i] by {
            assert(r@[i]@.args =~= want[i].args);
        }
        assert(command_views(r@) =~= want);
    }
    r
}

// ---------------------------------------------------------------------------
// Rules
// ---------------------------------------------------------------------------

/// An ASCII letter, an ASCII digit or an underscore.
pub open spec fn is_table_char(c: char) -> bool {
    ('a' <= c && c <= 'z') || ('A' <= c && c <= 'Z') || ('0' <= c && c <= '9') || c == '_'
}

/// The name of the table with the rules of a machine: what cannot stand in such a
/// name is an underscore in it.
pub open spec fn table_name(session_id: Seq<char>) -> Seq<char> {
    "ae_vm_"@ + Seq::new(
        session_id.len(),
        |i: int|
            if is_table_char(session_id[i]) {
                session_id[i]
            } else {
                '_'
            },
    )
}

/// The name of the table with the rules of a machine.
pub fn nft_table_name(session_id: &str) -> (s: String)
    ensures
        s@ == table_name(session_id@),
{
    let cs = text::chars_of(session_id);
    let mut v: Vec<char> = Vec::new();
    let mut i: usize = 0;
    while i < cs.len()
        invariant
            i <= cs@.len(),
            v@.len() == i,
            forall|j: int|
                0 <= j < i ==> #[trigger] v@[j] == (if is_table_char(cs@[j]) {
                    cs@[j]
                } else {
                    '_'
                }),
        decreases cs@.len() - i,
    {
        let c: char = cs[i];
        if (c >= 'a' && c <= 'z') || (c >= 'A' && c <= 'Z') || (c >= '0' && c <= '9') || c == '_' {
            v.push(c);
        } else {
            v.push('_');
        }
        i = i + 1;
    }
    let s = prefixed("ae_vm_", text::string_of(v.as_slice()).as_str());
    proof {
        assert(s@ =~= table_name(session_id@));
    }
    s
}

/// The rules of a machine. Whatever it sends by TCP, to whatever port but the proxy's own,
/// goes to the proxy, and keeps its source address. Of what is left, nothing passes
/// through the host from it or to it, and of the host itself it reaches the proxy alone.
/// What comes from other interfaces, and goes to others, is not touched.
pub open spec fn ruleset_text(table: Seq<char>, tap: Seq<char>, host_ip: Seq<char>) -> Seq<char> {
    let port = numbers::decimal(PROXY_PORT as nat);
    "\ntable ip "@ + table
        + " {\n    chain prerouting {\n        type nat hook prerouting priority dstnat; policy accept;\n        iifname \""@
        + tap + "\" tcp dport != "@ + port + " dnat to "@ + host_ip + ":"@ + port
        + "\n    }\n    chain postrouting {\n        type nat hook postrouting priority srcnat; policy accept;\n    }\n    chain forward {\n        type filter hook forward priority filter; policy drop;\n        iifname != \""@
        + tap + "\" oifname != \""@ + tap
        + "\" accept\n    }\n    chain input {\n        type filter hook input priority filter; policy drop;\n        iifname != \""@
        + tap + "\" accept\n        ip daddr "@ + host_ip + " tcp dport "@ + port
        + " accept\n    }\n}\n"@
}

/// The rules of a machine.
pub fn ruleset(table: &str, tap: &str, host_ip: &str) -> (s: String)
    ensures
        s@ == ruleset_text(table@, tap@, host_ip@),
{
    let port = numbers::number_string(PROXY_PORT as u64);
    let mut s = prefixed("\ntable ip ", table);
    s.append(
        " {\n    chain prerouting {\n        type nat hook prerouting priority dstnat; policy accept;\n        iifname \"",
    );
    s.append(tap);
    s.append("\" tcp dport != ");
    s.append(port.as_str());
    s.append(" dnat to ");
    s.append(host_ip);
    s.append(":");
    s.append(port.as_str());
    s.append(
        "\n    }\n    chain postrouting {\n        type nat hook postrouting priority srcnat; policy accept;\n    }\n    chain forward {\n        type filter hook forward priority filter; policy drop;\n        iifname != \"",
    );
    s.append(tap);
    s.append("\" oifname != \"");
    s.append(tap);
    s.append(
        "\" accept\n    }\n    chain input {\n        type filter hook input priority filter; policy drop;\n        iifname != \"",
    );
    s.append(tap);
    s.append("\" accept\n        ip daddr ");
    s.append(host_ip);
    s.append(" tcp dport ");
    s.append(port.as_str());
    s.append(" accept\n    }\n}\n");
    s
}

/// A file with rules, and the command that loads it.
pub struct RuleFile {
    /// Where the file is written.
    pub path: String,
    /// The rules.
    pub content: String,
    /// What loads them.
    pub load: Command,
}

/// The file with the rules of a machine, and the command that loads it.
pub fn setup_nftables(tap_name: &str, host_ip: &str, session_id: &str) -> (r: RuleFile)
    ensures
        r.path@ == "/tmp/ae-vm-manager-nftables-"@ + session_id@ + ".conf"@,
        r.content@ == ruleset_text(table_name(session_id@), tap_name@, host_ip@),
        r.load@ == must("sudo"@, seq!["/usr/sbin/nft"@, "-f"@, r.path@]),
{
    let table = nft_table_name(session_id);
    let content = ruleset(table.as_str(), tap_name, host_ip);
    let mut path = prefixed("/tmp/ae-vm-manager-nftables-", session_id);
    path.append(".conf");
    let load = command("sudo", &["/usr/sbin/nft", "-f", path.as_str()], true);
    proof {
        assert(load@.args =~= seq!["/usr/sbin/nft"@, "-f"@, path@]);
    }
    RuleFile { path, content, load }
}

/// The command that removes the rules of a machine.
pub fn cleanup_nftables(session_id: &str) -> (r: Command)
    ensures
        r@ == must(
            "sudo"@,
            seq!["/usr/sbin/nft"@, "delete"@, "table"@, "ip"@, table_name(session_id@)],
        ),
{
    let table = nft_table_name(session_id);
    let r = command("sudo", &["/usr/sbin/nft", "delete", "table", "ip", table.as_str()], true);
    proof {
        assert(r@.args =~= seq![
            "/usr/sbin/nft"@,
            "delete"@,
            "table"@,
            "ip"@,
            table_name(session_id@),
        ]);
    }
    r
}

// ---------------------------------------------------------------------------
// Laws
// ---------------------------------------------------------------------------

/// Two machines with valid names never share a table, and the name of the machine
/// stands in that of its table as it is.
pub proof fn law_tables_are_apart(a: Seq<char>, b: Seq<char>)
    requires
        super::helpers::valid_id(a),
        super::helpers::valid_id(b),
    ensures
        table_name(a) == "ae_vm_"@ + a,
        table_name(a) == table_name(b) ==> a == b,
{
    lemma_valid_kept(a);
    lemma_valid_kept(b);
    if table_name(a) == table_name(b) {
        let n = "ae_vm_"@.len() as int;
        assert(table_name(a).skip(n) =~= a);
        assert(table_name(b).skip(n) =~= b);
    }
}

proof fn lemma_valid_kept(a: Seq<char>)
    requires
        super::helpers::valid_id(a),
    ensures
        table_name(a) == "ae_vm_"@ + a,
{
    assert forall|i: int| 0 <= i < a.len() implies is_table_char(#[trigger] a[i]) by {
        assert(super::helpers::is_id_char(a[i]));
    }
    assert(table_name(a) =~= "ae_vm_"@ + a);
}

/// The command that takes an interface away is the one that made it, with `del` in
/// place of `add`.
pub proof fn law_tap_down_undoes_tap_up(tap: Seq<char>, cidr: Seq<char>)
    ensures
        tap_up(tap, cidr)[0].args[2] == "add"@,
        tap_up(tap, cidr)[0].args.update(2, "del"@) == tap_down(tap)[1].args,
{
    assert(tap_up(tap, cidr)[0].args.update(2, "del"@) =~= tap_down(tap)[1].args);
}

proof fn lemma_port_digits()
    ensures
        numbers::decimal(PROXY_PORT as nat) == "9999"@,
{
    reveal_strlit("9999");
    reveal_with_fuel(numbers::decimal, 5);
    assert(numbers::decimal(9999) =~= "9999"@);
}

/// All that a machine sends is led to the proxy on the host, and what does not go there is
/// dropped; the traffic of other interfaces is let through.
pub proof fn law_machine_reaches_the_proxy_only(
    table: Seq<char>,
    tap: Seq<char>,
    host_ip: Seq<char>,
)
    ensures
        text::contains(
            ruleset_text(table, tap, host_ip),
            " {\n    chain prerouting {\n        type nat hook prerouting priority dstnat; policy accept;\n        iifname \""@
                + tap + "\" tcp dport != "@ + "9999"@ + " dnat to "@ + host_ip + ":"@ + "9999"@,
        ),
        text::contains(
            ruleset_text(table, tap, host_ip),
            "\n    }\n    chain postrouting {\n        type nat hook postrouting priority srcnat; policy accept;\n    }\n    chain forward {\n        type filter hook forward priority filter; policy drop;\n        iifname != \""@
                + tap + "\" oifname != \""@ + tap
                + "\" accept\n    }\n    chain input {\n        type filter hook input priority filter; policy drop;\n        iifname != \""@
                + tap + "\" accept\n        ip daddr "@ + host_ip + " tcp dport "@ + "9999"@
                + " accept\n    }\n}\n"@,
        ),
        ("\ntable ip "@ + table).is_prefix_of(ruleset_text(table, tap, host_ip)),
{
    lemma_port_digits();
    let rules = ruleset_text(table, tap, host_ip);
    let a = "\ntable ip "@ + table;
    let b =
        " {\n    chain prerouting {\n        type nat hook prerouting priority dstnat; policy accept;\n        iifname \""@
        + tap + "\" tcp dport != "@ + "9999"@ + " dnat to "@ + host_ip + ":"@ + "9999"@;
    let c =
        "\n    }\n    chain postrouting {\n        type nat hook postrouting priority srcnat; policy accept;\n    }\n    chain forward {\n        type filter hook forward priority filter; policy drop;\n        iifname != \""@
        + tap + "\" oifname != \""@ + tap
        + "\" accept\n    }\n    chain input {\n        type filter hook input priority filter; policy drop;\n        iifname != \""@
        + tap + "\" accept\n        ip daddr "@ + host_ip + " tcp dport "@ + "9999"@
        + " accept\n    }\n}\n"@;
    assert(rules =~= a + b + c);
    text::law_middle_is_contained(a, b, c);
    let none = Seq::<char>::empty();
    text::law_middle_is_contained(a + b, c, none);
    assert(a + b + c + none =~= rules);
    assert(rules.subrange(0, a.len() as int) =~= a);
}

/// An interface is made under its name, gets the host's address and is put up, in that
/// order, and none of these may fail; it is taken away under the same name.
pub proof fn law_interface_is_made_and_taken_away(tap: Seq<char>, cidr: Seq<char>)
    ensures
        ({
            let up = tap_up(tap, cidr);
            let down = tap_down(tap);
            &&& up.len() == 6
            &&& up[0].required && up[0].args.contains("tuntap"@) && up[0].args.contains(tap)
            &&& up[1].required && up[1].args.contains("addr"@) && up[1].args.contains(cidr)
                && up[1].args.contains(tap)
            &&& up[2].required && up[2].args.contains(tap) && up[2].args.contains("up"@)
            &&& down.last().required && down.last().args.contains("del"@)
                && down.last().args.contains(tap)
            &&& forall|i: int| 0 <= i < up.len() ==> (#[trigger] up[i]).program == "sudo"@
            &&& forall|i: int| 0 <= i < down.len() ==> (#[trigger] down[i]).program == "sudo"@
        }),
{
    let up = tap_up(tap, cidr);
    let down = tap_down(tap);
    assert(up[0].args[1] == "tuntap"@ && up[0].args[4] == tap);
    assert(up[1].args[1] == "addr"@ && up[1].args[3] == cidr && up[1].args[5] == tap);
    assert(up[2].args[4] == tap && up[2].args[5] == "up"@);
    assert(down[1].args[2] == "del"@ && down[1].args[4] == tap);
}

/// A command that must succeed fails where it cannot be run or does not succeed; one that
/// need not never does. What it wrote is told.
pub proof fn law_needed_commands_must_succeed(c: CommandView, outcome: Outcome)
    ensures
        failure_text(c, outcome) is Some <==> c.required && !(outcome matches Outcome::Ran(ok, _, _)
            && ok),
        c.required && outcome is Ran && !outcome->Ran_0 ==> (failure_text(c, outcome) matches Some(
            t,
        ) && unicode::decoded(outcome->Ran_2@).is_suffix_of(t)),
        c.program.is_prefix_of(command_line(c)),
{
    let line = command_line(c);
    assert(line.subrange(0, c.program.len() as int) =~= c.program);
    if let Outcome::Ran(ok, stdout, stderr) = outcome {
        if !ok && c.required {
            let t = failure_text(c, outcome)->0;
            let e = unicode::decoded(stderr@);
            assert(t.subrange(t.len() - e.len(), t.len() as int) =~= e);
        }
    }
}

/// A command is seen with all that it holds.
pub proof fn law_command_is_seen_whole(c: Command)
    ensures
        c@.program == c.program@,
        c@.required == c.required,
        c@.args.len() == c.args@.len(),
        forall|i: int| 0 <= i < c.args@.len() ==> c@.args[i] == (#[trigger] c.args@[i])@,
{
}

/// The rules of a machine are loaded from the file that they are written to, into a table
/// of the machine's own, and it is that table that is removed.
pub proof fn law_rules_are_loaded_and_removed(
    tap: &str,
    host_ip: &str,
    session_id: &str,
    f: RuleFile,
    c: Command,
)
    requires
        call_ensures(setup_nftables, (tap, host_ip, session_id), f),
        call_ensures(cleanup_nftables, (session_id,), c),
    ensures
        f.content@ == ruleset_text(table_name(session_id@), tap@, host_ip@),
        f.load@.required,
        f.load@.args.contains("/usr/sbin/nft"@),
        f.load@.args.last() == f.path@,
        c@.required,
        c@.args.contains("/usr/sbin/nft"@),
        c@.args.contains("delete"@),
        c@.args.last() == table_name(session_id@),
        ("\ntable ip "@ + c@.args.last()).is_prefix_of(f.content@),
{
    law_machine_reaches_the_proxy_only(table_name(session_id@), tap@, host_ip@);
    assert(f.load@.args[0] == "/usr/sbin/nft"@);
    assert(c@.args[0] == "/usr/sbin/nft"@ && c@.args[1] == "delete"@);
}

/// The interface of a machine gets the host's address in a net of four.
pub proof fn law_interface_gets_the_host_address(tap: &str, host_ip: &str, r: Vec<Command>)
    requires
        call_ensures(setup_tap_interface, (tap, host_ip), r),
    ensures
        r@.len() == 6,
        r@[1]@.args.contains(host_ip@ + "/30"@),
        r@[1]@.args.contains(tap@),
{
    let v = command_views(r@);
    let cidr = host_ip@ + "/30"@;
    law_interface_is_made_and_taken_away(tap@, cidr);
    assert(v.len() == r@.len());
    assert(v[1] == r@[1]@);
}

} // verus!
