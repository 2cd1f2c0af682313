//! What the user asked for on the command line, and the commands that come of it.

use vstd::prelude::*;
use vstd::string::StrSliceExecFns;

use crate::action::{group_plan, plan, Action, ActionView, Fault};
use crate::message::{MessageView, OxyMessage};
use crate::words::{shlex_split, shlex_words, texts};

verus! {

broadcast use group_plan;

/// The command line, as far as a session depends on it.
#[derive(Clone, Debug, PartialEq, Eq)]
pub struct Arguments {
    /// The mode that the program runs in.
    pub mode: String,
    /// Whether compression was asked for.
    pub compression: bool,
    /// The user to be on the server.
    pub user: Option<String>,
    /// Commands to be carried out first, one line each.
    pub batched_metacommands: Vec<String>,
    /// Ports here that lead to addresses there.
    pub local_port_forward: Vec<String>,
    /// Ports there that lead to addresses here.
    pub remote_port_forward: Vec<String>,
    /// Ports for SOCKS clients.
    pub socks: Vec<String>,
    /// Network layer tunnels.
    pub tun: Vec<String>,
    /// Link layer tunnels.
    pub tap: Vec<String>,
    /// The command to run on the server.
    pub command: Option<Vec<String>>,
}

/// The terminal that the program runs in.
#[derive(Clone, Debug, PartialEq, Eq)]
pub struct Terminal {
    /// Whether standard input and standard output are both a terminal.
    pub interactive: bool,
    /// The kind of terminal.
    pub term: Option<String>,
}

/// What stands before the first colon; everything, where there is none.
pub open spec fn before_colon(text: Seq<char>) -> Seq<char> {
    match text.index_of_first(':') {
        Some(i) => text.take(i),
        None => text,
    }
}

/// What stands after the first colon; everything, where there is none.
pub open spec fn after_colon(text: Seq<char>) -> Seq<char> {
    match text.index_of_first(':') {
        Some(i) => text.skip(i + 1),
        None => text,
    }
}

/// The name that a tunnel has here.
pub open spec fn tunnel_local(spec_text: Seq<char>) -> Seq<char> {
    before_colon(spec_text)
}

/// The name that a tunnel has there.
pub open spec fn tunnel_remote(spec_text: Seq<char>) -> Seq<char> {
    before_colon(after_colon(spec_text))
}

/// The commands for port forwards of one kind.
pub open spec fn forwards(letter: Seq<char>, specs: Seq<Seq<char>>) -> Seq<ActionView> {
    specs.map_values(|s: Seq<char>| ActionView::HandleMetacommand(seq![letter, s]))
}

/// The commands for tunnels of one kind.
pub open spec fn tunnels(kind: Seq<char>, specs: Seq<Seq<char>>) -> Seq<ActionView> {
    specs.map_values(
        |s: Seq<char>|
            ActionView::HandleMetacommand(seq![kind, tunnel_local(s), tunnel_remote(s)]),
    )
}

/// Whether the program ends with this plan.
pub open spec fn stops(actions: Seq<ActionView>) -> bool {
    actions.len() > 0 && actions.last() is Stop
}

/// The batched commands, up to the first that cannot be split into words.
pub open spec fn batched(lines: Seq<Seq<char>>) -> Seq<ActionView>
    decreases lines.len(),
{
    if lines.len() == 0 {
        Seq::empty()
    } else {
        let before = batched(lines.drop_last());
        if stops(before) {
            before
        } else {
            match shlex_words(lines.last()) {
                Some(words) => before.push(ActionView::HandleMetacommand(words)),
                None => before.push(ActionView::Stop(Fault::UnsplittableCommand)),
            }
        }
    }
}

impl Arguments {
    /// The user name, as it is advertised.
    pub open spec fn advertised_user(self) -> Seq<ActionView> {
        match self.user {
            Some(user) => seq![
                ActionView::Send(MessageView::UsernameAdvertisement { username: user@ }),
            ],
            None => Seq::empty(),
        }
    }

    /// The commands for the tunnels.
    pub open spec fn tunnel_commands(self) -> Seq<ActionView> {
        tunnels("tun"@, texts(self.tun@)) + tunnels("tap"@, texts(self.tap@))
    }

    /// All that the command line asks for before the terminal is taken care of.
    pub open spec fn batch(self) -> Seq<ActionView> {
        let first = self.advertised_user() + batched(texts(self.batched_metacommands@));
        if stops(batched(texts(self.batched_metacommands@))) {
            first
        } else {
            first + forwards("L"@, texts(self.local_port_forward@)) + forwards(
                "R"@,
                texts(self.remote_port_forward@),
            ) + forwards("D"@, texts(self.socks@)) + self.tunnel_commands()
        }
    }
}

/// A run that stopped early is not changed by the lines that would have followed.
proof fn lemma_batched_stops(lines: Seq<Seq<char>>, n: int)
    requires
        0 <= n <= lines.len(),
    ensures
        stops(batched(lines.take(n))) ==> batched(lines) == batched(lines.take(n)),
    decreases lines.len(),
{
    if n < lines.len() {
        assert(lines.drop_last().take(n) =~= lines.take(n));
        lemma_batched_stops(lines.drop_last(), n);
    } else {
        assert(lines.take(n) =~= lines);
    }
}

/// Where the first colon is; the length, where there is none.
fn find_colon(text: &str) -> (at: usize)
    ensures
        match text@.index_of_first(':') {
            Some(i) => at == i,
            None => at == text@.len(),
        },
{
    let len: usize = text.unicode_len();
    let mut i: usize = 0;
    proof {
        text@.index_of_first_ensures(':');
    }
    while i < len
        invariant
            i <= len == text@.len(),
            forall|k: int| 0 <= k < i ==> text@[k] != ':',
            match text@.index_of_first(':') {
                Some(index) => i <= index < len && text@[index] == ':' && (forall|j: int|
                    0 <= j < index ==> text@[j] != ':'),
                None => !text@.contains(':'),
            },
        decreases len - i,
    {
        if text.get_char(i) == ':' {
            assert(text@.contains(text@[i as int]));
            return i;
        }
        i = i + 1;
    }
    i
}

/// Splits the name of a tunnel here from its name there.
pub fn split_tunnel(tunnel: &String) -> (names: (String, String))
    ensures
        names.0@ == tunnel_local(tunnel@),
        names.1@ == tunnel_remote(tunnel@),
{
    let text: &str = tunnel.as_str();
    let len: usize = text.unicode_len();
    let at: usize = find_colon(text);
    proof {
        text@.index_of_first_ensures(':');
        after_colon(text@).index_of_first_ensures(':');
        assert(text@.subrange(0, text@.len() as int) =~= text@);
    }
    if at < len {
        let local: &str = text.substring_char(0, at);
        let rest: &str = text.substring_char(at + 1, len);
        let end: usize = find_colon(rest);
        let remote: &str = rest.substring_char(0, end);
        assert(local@ =~= tunnel_local(text@));
        assert(rest@ =~= after_colon(text@));
        assert(remote@ =~= tunnel_remote(text@));
        (local.to_owned(), remote.to_owned())
    } else {
        (text.to_owned(), text.to_owned())
    }
}

/// A command of the given words.
fn command2(first: &str, second: &String) -> (action: Action)
    ensures
        action@ == ActionView::HandleMetacommand(seq![first@, second@]),
{
    let parts: Vec<String> = vec![first.to_owned(), second.clone()];
    assert(texts(parts@) =~= seq![first@, second@]);
    Action::HandleMetacommand(parts)
}

/// Appends the commands for port forwards of one kind.
fn push_forwards(letter: &str, specs: &Vec<String>, actions: &mut Vec<Action>)
    ensures
        plan(final(actions)@) == plan(old(actions)@) + forwards(letter@, texts(specs@)),
{
    let mut i: usize = 0;
    while i < specs.len()
        invariant
            i <= specs@.len(),
            plan(actions@) == plan(old(actions)@) + forwards(letter@, texts(specs@)).take(
                i as int,
            ),
        decreases specs@.len() - i,
    {
        actions.push(command2(letter, &specs[i]));
        i = i + 1;
        assert(plan(actions@) =~= plan(old(actions)@) + forwards(letter@, texts(specs@)).take(
            i as int,
        ));
    }
    assert(forwards(letter@, texts(specs@)).take(i as int) =~= forwards(letter@, texts(specs@)));
}

/// Appends the commands for tunnels of one kind.
fn push_tunnels(kind: &str, specs: &Vec<String>, actions: &mut Vec<Action>)
    ensures
        plan(final(actions)@) == plan(old(actions)@) + tunnels(kind@, texts(specs@)),
{
    let ghost all = tunnels(kind@, texts(specs@));
    let mut i: usize = 0;
    while i < specs.len()
        invariant
            i <= specs@.len(),
            all == tunnels(kind@, texts(specs@)),
            plan(actions@) == plan(old(actions)@) + all.take(i as int),
        decreases specs@.len() - i,
    {
        let (local, remote) = split_tunnel(&specs[i]);
        let parts: Vec<String> = vec![kind.to_owned(), local, remote];
        assert(texts(parts@) =~= seq![kind@, local@, remote@]);
        actions.push(Action::HandleMetacommand(parts));
        i = i + 1;
        assert(plan(actions@) =~= plan(old(actions)@) + all.take(i as int));
    }
    assert(all.take(i as int) =~= all);
}

/// The command of a line that was split into words, or the end of the program where it could
/// not be.
pub fn command_or_stop(split: Option<Vec<String>>) -> (action: Action)
    ensures
        action == (match split {
            Some(parts) => Action::HandleMetacommand(parts),
            None => Action::Stop(Fault::UnsplittableCommand),
        }),
{
    match split {
        Some(parts) => Action::HandleMetacommand(parts),
        None => Action::Stop(Fault::UnsplittableCommand),
    }
}

/// Appends the batched commands, and tells whether all of them could be split into words.
fn push_batched(lines: &Vec<String>, actions: &mut Vec<Action>) -> (all_split: bool)
    ensures
        plan(final(actions)@) == plan(old(actions)@) + batched(texts(lines@)),
        all_split == !stops(batched(texts(lines@))),
{
    let ghost all = texts(lines@);
    let mut i: usize = 0;
    while i < lines.len()
        invariant
            i <= lines@.len(),
            all == texts(lines@),
            plan(actions@) == plan(old(actions)@) + batched(all.take(i as int)),
            !stops(batched(all.take(i as int))),
        decreases lines@.len() - i,
    {
        proof {
            assert(all.take(i + 1).drop_last() =~= all.take(i as int));
            assert(all.take(i + 1).last() == lines@[i as int]@);
            lemma_batched_stops(all, i + 1);
        }
        let split: Option<Vec<String>> = shlex_split(lines[i].as_str());
        let failed: bool = split.is_none();
        actions.push(command_or_stop(split));
        if failed {
            assert(plan(actions@) =~= plan(old(actions)@) + batched(all));
            return false;
        }
        i = i + 1;
        assert(plan(actions@) =~= plan(old(actions)@) + batched(all.take(i as int)));
    }
    assert(all.take(i as int) =~= all);
    true
}

/// The commands for the tunnels that the command line asks for.
pub fn init_tuntap(arguments: &Arguments) -> (actions: Vec<Action>)
    ensures
        plan(actions@) == arguments.tunnel_commands(),
{
    let mut actions: Vec<Action> = Vec::new();
    push_tunnels("tun", &arguments.tun, &mut actions);
    push_tunnels("tap", &arguments.tap, &mut actions);
    assert(plan(actions@) =~= arguments.tunnel_commands());
    actions
}

/// All that the command line asks for before the terminal is taken care of: the user name, the
/// batched commands, the port forwards and the tunnels, in this order. A batched command that
/// cannot be split into words ends it.
pub fn run_batched_metacommands(arguments: &Arguments) -> (actions: Vec<Action>)
    ensures
        plan(actions@) == arguments.batch(),
{
    let mut actions: Vec<Action> = Vec::new();
    if let Some(user) = &arguments.user {
        actions.push(
            Action::Send(OxyMessage::UsernameAdvertisement { username: user.clone() }),
        );
    }
    assert(plan(actions@) =~= arguments.advertised_user());
    if !push_batched(&arguments.batched_metacommands, &mut actions) {
        return actions;
    }
    push_forwards("L", &arguments.local_port_forward, &mut actions);
    push_forwards("R", &arguments.remote_port_forward, &mut actions);
    push_forwards("D", &arguments.socks, &mut actions);
    let mut tunnels: Vec<Action> = init_tuntap(arguments);
    actions.append(&mut tunnels);
    actions
}

} // verus!
