//! What the beginning and the end of a session owe, in terms of the roles, the command line and
//! the terminal.

use vstd::prelude::*;

use crate::action::{plan, ActionView, Fault, Timer};
use crate::arguments::{
    after_colon, batched, forwards, stops, tunnel_local, tunnel_remote, tunnels, Arguments,
    Terminal,
};
use crate::message::MessageView;
use crate::startup::{attachment, hook_calls, PostAuthStep, PostAuthTurn};
use crate::state::{is_server_mode, Oxy};
use crate::words::{shlex_words, texts};

verus! {

/// Four modes make a server, and all others a client.
pub proof fn law_modes_of_a_server(mode: Seq<char>)
    ensures
        is_server_mode(mode) <==> seq!["server"@, "serve-one"@, "reexec"@, "reverse-server"@]
            .contains(mode),
{
    let modes = seq!["server"@, "serve-one"@, "reexec"@, "reverse-server"@];
    assert(modes[0] == "server"@ && modes[1] == "serve-one"@ && modes[2] == "reexec"@ && modes[3]
        == "reverse-server"@);
}

/// Starting puts the exit hook in place first; a client then advertises its key and does nothing of
/// what a server does; a server watches for the handshake before it takes it up, and advertises no
/// key.
pub proof fn law_start_by_role(before: Oxy, actions: Seq<ActionView>, after: Oxy)
    requires
        before.launches(actions, after),
    ensures
        after.launched && !before.launched,
        actions.len() > 0 && actions[0] == ActionView::PushExitHook,
        before.is_server ==> actions.len() == 3 && actions[1] == ActionView::WatchHandshake
            && actions[2] == ActionView::FinishServerHandshake,
        !before.is_server ==> actions.len() == 2 && actions[1] == ActionView::AdvertiseClientKey,
{
}

/// At the end the terminal is put back exactly where there is a UI, and first; the program that was
/// chosen, and no other, is taken down; and exactly a client that is no daemon says goodbye, last.
pub proof fn law_end_puts_things_back(oxy: Oxy, victim: Option<i32>)
    ensures
        ({
            let actions = oxy.exit_plan(victim);
            &&& actions.contains(ActionView::CookUi) <==> oxy.ui
            &&& oxy.ui ==> actions[0] == ActionView::CookUi
            &&& forall|pid: i32|
                #[trigger] actions.contains(ActionView::Terminate { pid }) <==> victim == Some(pid)
            &&& actions.contains(ActionView::SayGoodbye) <==> !oxy.is_server && !oxy.is_daemon
            &&& actions.contains(ActionView::SayGoodbye) ==> actions.last()
                == ActionView::SayGoodbye
            &&& actions.len() == (if oxy.ui {
                1int
            } else {
                0
            }) + (if victim is Some {
                1int
            } else {
                0
            }) + (if !oxy.is_server && !oxy.is_daemon {
                1int
            } else {
                0
            })
        }),
{
    let actions = oxy.exit_plan(victim);
    let cooked = if oxy.ui {
        1int
    } else {
        0
    };
    let taken = if victim is Some {
        1int
    } else {
        0
    };
    if oxy.ui {
        assert(actions[0] == ActionView::CookUi);
    }
    if victim is Some {
        assert(actions[cooked] == (ActionView::Terminate { pid: victim->0 }));
    }
    if !oxy.is_server && !oxy.is_daemon {
        assert(actions[cooked + taken] == ActionView::SayGoodbye);
    }
}

/// A command line that cannot be split into words ends what comes of the batched lines, right where
/// it stands; up to there every line has become the command of its words, in order, and no line is
/// left out.
pub proof fn law_batched_lines_become_commands(lines: Seq<Seq<char>>, n: int)
    requires
        0 <= n <= lines.len(),
        forall|i: int| 0 <= i < n ==> shlex_words(#[trigger] lines[i]) is Some,
        n < lines.len() ==> shlex_words(lines[n]) is None,
    ensures
        ({
            let actions = batched(lines);
            &&& forall|i: int|
                0 <= i < n ==> #[trigger] actions[i] == ActionView::HandleMetacommand(
                    shlex_words(lines[i])->0,
                )
            &&& n == lines.len() ==> actions.len() == n
            &&& n < lines.len() ==> actions.len() == n + 1 && actions[n] == ActionView::Stop(
                Fault::UnsplittableCommand,
            )
        }),
    decreases lines.len(),
{
    if lines.len() > 0 {
        let shorter = lines.drop_last();
        assert forall|i: int| 0 <= i < n && i < shorter.len() implies shlex_words(
            #[trigger] shorter[i],
        ) is Some by {
            assert(shorter[i] == lines[i]);
        }
        if n < lines.len() {
            if n < shorter.len() {
                assert(shorter[n] == lines[n]);
            }
            law_batched_lines_become_commands(shorter, n);
            if n == shorter.len() {
                assert(lines.last() == lines[n]);
                if n > 0 {
                    assert(batched(shorter).last() == batched(shorter)[n - 1]);
                }
            } else {
                assert(stops(batched(shorter)));
            }
            assert forall|i: int| 0 <= i < n implies #[trigger] batched(lines)[i]
                == ActionView::HandleMetacommand(shlex_words(lines[i])->0) by {
                assert(batched(shorter)[i] == ActionView::HandleMetacommand(
                    shlex_words(shorter[i])->0,
                ));
            }
        } else {
            law_batched_lines_become_commands(shorter, n - 1);
            if n > 1 {
                assert(batched(shorter).last() == batched(shorter)[n - 2]);
            }
            assert(lines.last() == lines[n - 1]);
            assert forall|i: int| 0 <= i < n implies #[trigger] batched(lines)[i]
                == ActionView::HandleMetacommand(shlex_words(lines[i])->0) by {
                if i < n - 1 {
                    assert(batched(shorter)[i] == ActionView::HandleMetacommand(
                        shlex_words(shorter[i])->0,
                    ));
                }
            }
        }
    }
}

/// Lines that can all be split do not end the program.
proof fn lemma_not_stopped(lines: Seq<Seq<char>>, n: int)
    requires
        n == lines.len(),
        forall|i: int| 0 <= i < n ==> shlex_words(#[trigger] lines[i]) is Some,
    ensures
        !stops(batched(lines)),
{
    law_batched_lines_become_commands(lines, n);
    if n > 0 {
        assert(batched(lines)[n - 1] == batched(lines).last());
    }
}

/// How many actions something optional takes.
pub open spec fn if_any(present: bool) -> int {
    if present {
        1
    } else {
        0
    }
}

/// What the command line leads to on a client that is no daemon.
///
/// All of it comes, in this order, each item exactly once: the request for compression, where it
/// was asked for; the user name, where there is one; the batched commands; the local, the remote
/// and the SOCKS forwards, with their letters; the network and the link layer tunnels, with their
/// names here and there. Then it is the terminal's turn.
#[verifier::rlimit(60)]
pub proof fn law_command_line_is_carried_out(
    before: Oxy,
    arguments: Arguments,
    terminal: Terminal,
    turn: PostAuthTurn,
    after: Oxy,
    i: int,
)
    requires
        before.took_post_auth(PostAuthStep::CommandLine, arguments, terminal, turn, after),
        !before.is_daemon,
        forall|k: int|
            0 <= k < arguments.batched_metacommands@.len() ==> shlex_words(
                (#[trigger] arguments.batched_metacommands@[k])@,
            ) is Some,
    ensures
        after == before,
        turn.next == Some(PostAuthStep::Attachment),
        ({
            let actions = plan(turn.actions@);
            let asked = if_any(arguments.compression);
            let named = asked + if_any(arguments.user is Some);
            let locals = named + arguments.batched_metacommands@.len();
            let remotes = locals + arguments.local_port_forward@.len();
            let socks = remotes + arguments.remote_port_forward@.len();
            let tuns = socks + arguments.socks@.len();
            let taps = tuns + arguments.tun@.len();
            &&& actions.len() == taps + arguments.tap@.len()
            &&& arguments.compression ==> actions[0] == ActionView::Send(
                MessageView::CompressionRequest { compression_type: 0 },
            )
            &&& arguments.user is Some ==> actions[asked] == ActionView::Send(
                MessageView::UsernameAdvertisement { username: arguments.user->0@ },
            )
            &&& 0 <= i < arguments.batched_metacommands@.len() ==> actions[named + i]
                == ActionView::HandleMetacommand(
                shlex_words(arguments.batched_metacommands@[i]@)->0,
            )
            &&& 0 <= i < arguments.local_port_forward@.len() ==> actions[locals + i]
                == ActionView::HandleMetacommand(
                seq!["L"@, arguments.local_port_forward@[i]@],
            )
            &&& 0 <= i < arguments.remote_port_forward@.len() ==> actions[remotes + i]
                == ActionView::HandleMetacommand(
                seq!["R"@, arguments.remote_port_forward@[i]@],
            )
            &&& 0 <= i < arguments.socks@.len() ==> actions[socks + i]
                == ActionView::HandleMetacommand(seq!["D"@, arguments.socks@[i]@])
            &&& 0 <= i < arguments.tun@.len() ==> names_tunnel(
                actions[tuns + i],
                "tun"@,
                arguments.tun@[i]@,
            )
            &&& 0 <= i < arguments.tap@.len() ==> names_tunnel(
                actions[taps + i],
                "tap"@,
                arguments.tap@[i]@,
            )
        }),
{
    lemma_command_line_in_parts(before, arguments, terminal, turn, after);
    let actions = plan(turn.actions@);
    let asked = before.compression_request(arguments);
    let named = arguments.advertised_user();
    let lines = texts(arguments.batched_metacommands@);
    let batch = batched(lines);
    let ls = forwards("L"@, texts(arguments.local_port_forward@));
    let rs = forwards("R"@, texts(arguments.remote_port_forward@));
    let ds = forwards("D"@, texts(arguments.socks@));
    let tuns = tunnels("tun"@, texts(arguments.tun@));
    let taps = tunnels("tap"@, texts(arguments.tap@));
    assert(asked.len() == if_any(arguments.compression));
    assert(named.len() == if_any(arguments.user is Some));
    assert(batch.len() == arguments.batched_metacommands@.len());
    lemma_parts_in_place(asked, named, batch, ls, rs, ds, tuns, taps, actions, i);
    if arguments.compression {
        assert(actions[0] == asked[0]);
    }
    if arguments.user is Some {
        assert(actions[asked.len() as int] == named[0]);
    }
    if 0 <= i < batch.len() {
        assert(lines[i] == arguments.batched_metacommands@[i]@);
    }
    if 0 <= i < ls.len() {
        assert(texts(arguments.local_port_forward@)[i] == arguments.local_port_forward@[i]@);
    }
    if 0 <= i < rs.len() {
        assert(texts(arguments.remote_port_forward@)[i] == arguments.remote_port_forward@[i]@);
    }
    if 0 <= i < ds.len() {
        assert(texts(arguments.socks@)[i] == arguments.socks@[i]@);
    }
    if 0 <= i < tuns.len() {
        law_tunnel_is_split_at_its_colons(arguments.tun@[i]@);
        assert(texts(arguments.tun@)[i] == arguments.tun@[i]@);
    }
    if 0 <= i < taps.len() {
        law_tunnel_is_split_at_its_colons(arguments.tap@[i]@);
        assert(texts(arguments.tap@)[i] == arguments.tap@[i]@);
    }
}

/// Where every batched line can be split, the actions of the command line are those of its parts.
proof fn lemma_command_line_in_parts(
    before: Oxy,
    arguments: Arguments,
    terminal: Terminal,
    turn: PostAuthTurn,
    after: Oxy,
)
    requires
        before.took_post_auth(PostAuthStep::CommandLine, arguments, terminal, turn, after),
        !before.is_daemon,
        forall|k: int|
            0 <= k < arguments.batched_metacommands@.len() ==> shlex_words(
                (#[trigger] arguments.batched_metacommands@[k])@,
            ) is Some,
    ensures
        after == before,
        turn.next == Some(PostAuthStep::Attachment),
        plan(turn.actions@) == before.compression_request(arguments) + arguments.advertised_user()
            + batched(texts(arguments.batched_metacommands@)) + forwards(
            "L"@,
            texts(arguments.local_port_forward@),
        ) + forwards("R"@, texts(arguments.remote_port_forward@)) + forwards(
            "D"@,
            texts(arguments.socks@),
        ) + tunnels("tun"@, texts(arguments.tun@)) + tunnels("tap"@, texts(arguments.tap@)),
        batched(texts(arguments.batched_metacommands@)).len()
            == arguments.batched_metacommands@.len(),
        forall|k: int|
            0 <= k < arguments.batched_metacommands@.len() ==> #[trigger] batched(
                texts(arguments.batched_metacommands@),
            )[k] == ActionView::HandleMetacommand(
                shlex_words(arguments.batched_metacommands@[k]@)->0,
            ),
{
    let lines = texts(arguments.batched_metacommands@);
    let n = lines.len() as int;
    assert forall|k: int| 0 <= k < n implies shlex_words(#[trigger] lines[k]) is Some by {
        assert(lines[k] == arguments.batched_metacommands@[k]@);
    }
    law_batched_lines_become_commands(lines, n);
    lemma_not_stopped(lines, n);
    lemma_batch_goes_on(arguments);
}

/// Where the parts of a concatenation lie.
proof fn lemma_parts_in_place(
    a: Seq<ActionView>,
    b: Seq<ActionView>,
    c: Seq<ActionView>,
    d: Seq<ActionView>,
    e: Seq<ActionView>,
    f: Seq<ActionView>,
    g: Seq<ActionView>,
    h: Seq<ActionView>,
    all: Seq<ActionView>,
    i: int,
)
    requires
        all == a + b + c + d + e + f + g + h,
    ensures
        all.len() == a.len() + b.len() + c.len() + d.len() + e.len() + f.len() + g.len() + h.len(),
        a.len() > 0 ==> all[0] == a[0],
        b.len() > 0 ==> all[a.len() as int] == b[0],
        0 <= i < c.len() ==> all[a.len() + b.len() + i] == c[i],
        0 <= i < d.len() ==> all[a.len() + b.len() + c.len() + i] == d[i],
        0 <= i < e.len() ==> all[a.len() + b.len() + c.len() + d.len() + i] == e[i],
        0 <= i < f.len() ==> all[a.len() + b.len() + c.len() + d.len() + e.len() + i] == f[i],
        0 <= i < g.len() ==> all[a.len() + b.len() + c.len() + d.len() + e.len() + f.len() + i]
            == g[i],
        0 <= i < h.len() ==> all[a.len() + b.len() + c.len() + d.len() + e.len() + f.len()
            + g.len() + i] == h[i],
{
}

/// A batch of which every line can be split goes on.
proof fn lemma_batch_goes_on(arguments: Arguments)
    requires
        !stops(batched(texts(arguments.batched_metacommands@))),
    ensures
        !stops(arguments.batch()),
{
    let named = arguments.advertised_user();
    let lines = batched(texts(arguments.batched_metacommands@));
    let ls = forwards("L"@, texts(arguments.local_port_forward@));
    let rs = forwards("R"@, texts(arguments.remote_port_forward@));
    let ds = forwards("D"@, texts(arguments.socks@));
    let tuns = tunnels("tun"@, texts(arguments.tun@));
    let taps = tunnels("tap"@, texts(arguments.tap@));
    let all = named + lines + ls + rs + ds + (tuns + taps);
    assert(arguments.batch() == all);
    if all.len() > 0 {
        if taps.len() > 0 {
            assert(all.last() == taps.last());
        } else if tuns.len() > 0 {
            assert(all.last() == tuns.last());
        } else if ds.len() > 0 {
            assert(all.last() == ds.last());
        } else if rs.len() > 0 {
            assert(all.last() == rs.last());
        } else if ls.len() > 0 {
            assert(all.last() == ls.last());
        } else if lines.len() > 0 {
            assert(all.last() == lines.last());
        } else {
            assert(all.last() == named.last());
        }
    }
}

/// Whether an action sets up a tunnel of this kind: under the one name, on both sides, of a text
/// without a colon; else under what stands before the first colon here, and under what stands
/// between it and the next there.
pub open spec fn names_tunnel(action: ActionView, kind: Seq<char>, text: Seq<char>) -> bool {
    &&& action matches ActionView::HandleMetacommand(words)
    &&& words.len() == 3
    &&& words[0] == kind
    &&& split_at_colons(text, words[1], words[2])
}

/// Whether a text without a colon is both names, and one with a colon begins with the first name, a
/// colon and the second name, where the text ends or another colon follows.
pub open spec fn split_at_colons(text: Seq<char>, here: Seq<char>, there: Seq<char>) -> bool {
    if !text.contains(':') {
        here == text && there == text
    } else {
        let start = here + seq![':'] + there;
        &&& !here.contains(':') && !there.contains(':')
        &&& start.len() <= text.len() && text.take(start.len() as int) == start
        &&& start.len() < text.len() ==> text[start.len() as int] == ':'
    }
}

/// The two names of a tunnel.
pub proof fn law_tunnel_is_split_at_its_colons(text: Seq<char>)
    ensures
        split_at_colons(text, tunnel_local(text), tunnel_remote(text)),
{
    text.index_of_first_ensures(':');
    if text.contains(':') {
        let i = text.index_of_first(':')->0;
        let rest = text.skip(i + 1);
        let here = tunnel_local(text);
        let there = tunnel_remote(text);
        assert(after_colon(text) == rest);
        rest.index_of_first_ensures(':');
        assert(!here.contains(':'));
        if rest.contains(':') {
            let j = rest.index_of_first(':')->0;
            assert(there =~= rest.take(j));
            assert(!there.contains(':'));
        } else {
            assert(there == rest);
        }
        let start = here + seq![':'] + there;
        assert(text.take(start.len() as int) =~= start);
    }
}

/// A daemon asks for compression only where it copies, and the command line brings nothing else;
/// then come the hooks.
pub proof fn law_daemon_skips_the_command_line(
    before: Oxy,
    arguments: Arguments,
    terminal: Terminal,
    turn: PostAuthTurn,
    after: Oxy,
)
    requires
        before.took_post_auth(PostAuthStep::CommandLine, arguments, terminal, turn, after),
        before.is_daemon,
    ensures
        after == before,
        turn.next == Some(PostAuthStep::Hooks),
        ({
            let actions = plan(turn.actions@);
            &&& arguments.compression && arguments.mode@ == "copy"@ ==> actions.len() == 1
                && actions[0] == ActionView::Send(
                MessageView::CompressionRequest { compression_type: 0 },
            )
            &&& !(arguments.compression && arguments.mode@ == "copy"@) ==> actions.len() == 0
        }),
{
}

/// A batched line that cannot be split ends the program in place of everything that would follow
/// it: the last action is the stop, no other step follows, and neither forwards nor tunnels nor a
/// terminal come.
pub proof fn law_unsplittable_line_ends_it(
    before: Oxy,
    arguments: Arguments,
    terminal: Terminal,
    turn: PostAuthTurn,
    after: Oxy,
    n: int,
)
    requires
        before.took_post_auth(PostAuthStep::CommandLine, arguments, terminal, turn, after),
        !before.is_daemon,
        0 <= n < arguments.batched_metacommands@.len(),
        forall|k: int|
            0 <= k < n ==> shlex_words((#[trigger] arguments.batched_metacommands@[k])@) is Some,
        shlex_words(arguments.batched_metacommands@[n]@) is None,
    ensures
        turn.next is None,
        after == before,
        ({
            let actions = plan(turn.actions@);
            let first = if_any(arguments.compression) + if_any(arguments.user is Some);
            &&& actions.len() == first + n + 1
            &&& actions.last() == ActionView::Stop(Fault::UnsplittableCommand)
            &&& forall|i: int|
                0 <= i < n ==> actions[first + i] == ActionView::HandleMetacommand(
                    shlex_words((#[trigger] arguments.batched_metacommands@[i])@)->0,
                )
        }),
{
    let lines = texts(arguments.batched_metacommands@);
    assert forall|k: int| 0 <= k < n implies shlex_words(#[trigger] lines[k]) is Some by {
        assert(lines[k] == arguments.batched_metacommands@[k]@);
    }
    assert(lines[n] == arguments.batched_metacommands@[n]@);
    law_batched_lines_become_commands(lines, n);
    let batch = batched(lines);
    assert(batch.last() == batch[n]);
    assert(stops(batch));
    assert(arguments.batch().last() == batch.last());
    let actions = plan(turn.actions@);
    let first = if_any(arguments.compression) + if_any(arguments.user is Some);
    assert forall|i: int| 0 <= i < n implies actions[first + i] == ActionView::HandleMetacommand(
        shlex_words((#[trigger] arguments.batched_metacommands@[i])@)->0,
    ) by {
        assert(lines[i] == arguments.batched_metacommands@[i]@);
        assert(actions[first + i] == batch[i]);
    }
}

/// Whether an action is the command of these two words and, behind them, every word of a command,
/// in order.
pub open spec fn runs_command(
    action: ActionView,
    first: Seq<char>,
    second: Seq<char>,
    words: Seq<String>,
) -> bool {
    &&& action matches ActionView::HandleMetacommand(all)
    &&& all.len() == 2 + words.len()
    &&& all[0] == first
    &&& all[1] == second
    &&& forall|i: int| 0 <= i < words.len() ==> #[trigger] all[2 + i] == words[i]@
}

/// The user's command is run whole.
///
/// With a terminal it is run in a pseudo terminal, all its words behind "pty" and "--", none where
/// there is no command; the kind of terminal is advertised before that, where it is known. Without
/// a terminal it is run on a pipe, all its words behind "pipe" and "--", and standard input is
/// watched before that and is then being forwarded; without a command there is nothing to do.
pub proof fn law_command_is_run_whole(
    before: Oxy,
    arguments: Arguments,
    terminal: Terminal,
    turn: PostAuthTurn,
    after: Oxy,
)
    requires
        before.took_post_auth(PostAuthStep::Attachment, arguments, terminal, turn, after),
    ensures
        turn.next == Some(PostAuthStep::CreateUi),
        ({
            let actions = plan(turn.actions@);
            let words = match arguments.command {
                Some(command) => command@,
                None => Seq::empty(),
            };
            &&& terminal.interactive ==> {
                &&& actions.len() == 1 + if_any(terminal.term is Some)
                &&& runs_command(actions.last(), "pty"@, "--"@, words)
                &&& terminal.term is Some ==> actions[0] == ActionView::Send(
                    MessageView::EnvironmentAdvertisement {
                        key: "TERM"@,
                        value: terminal.term->0@,
                    },
                )
            }
            &&& !terminal.interactive && arguments.command is Some ==> {
                &&& actions.len() == 2
                &&& actions[0] == ActionView::WatchStdin
                &&& runs_command(actions.last(), "pipe"@, "--"@, words)
            }
            &&& !terminal.interactive && arguments.command is None ==> actions.len() == 0
        }),
        after.stdin_open == (before.stdin_open || (!terminal.interactive && arguments.command
            is Some)),
        after == (Oxy { stdin_open: after.stdin_open, ..before }),
{
    let actions = plan(turn.actions@);
    assert(actions == attachment(arguments, terminal));
}

/// On a client the command at the front of the queue comes first, alone, and is taken from the
/// queue; then the command line. A server goes straight to the hooks.
pub proof fn law_queue_comes_first(
    before: Oxy,
    arguments: Arguments,
    terminal: Terminal,
    turn: PostAuthTurn,
    after: Oxy,
)
    requires
        before.took_post_auth(PostAuthStep::Queue, arguments, terminal, turn, after),
    ensures
        ({
            let actions = plan(turn.actions@);
            let queue = before.metacommand_queue@;
            let left = after.metacommand_queue@;
            &&& before.is_server ==> turn.next == Some(PostAuthStep::Hooks) && actions.len() == 0
                && after == before
            &&& !before.is_server ==> turn.next == Some(PostAuthStep::CommandLine)
            &&& !before.is_server && queue.len() == 0 ==> actions.len() == 0 && left.len() == 0
            &&& !before.is_server && queue.len() > 0 ==> {
                &&& actions.len() == 1
                &&& actions[0] matches ActionView::HandleMetacommand(words) && words.len()
                    == queue[0]@.len() && (forall|k: int|
                    0 <= k < words.len() ==> #[trigger] words[k] == queue[0]@[k]@)
                &&& left.len() == queue.len() - 1
                &&& forall|k: int| 0 <= k < left.len() ==> #[trigger] left[k] == queue[k + 1]
            }
            &&& after == (Oxy { metacommand_queue: after.metacommand_queue, ..before })
        }),
{
}

/// The terminal UI is created exactly on a client that has a terminal; then come the hooks.
pub proof fn law_ui_for_clients_with_a_terminal(
    before: Oxy,
    arguments: Arguments,
    terminal: Terminal,
    turn: PostAuthTurn,
    after: Oxy,
)
    requires
        before.took_post_auth(PostAuthStep::CreateUi, arguments, terminal, turn, after),
    ensures
        turn.next == Some(PostAuthStep::Hooks),
        !before.is_server && terminal.interactive ==> plan(turn.actions@).len() == 1 && plan(
            turn.actions@,
        )[0] == ActionView::CreateUi && after.ui,
        before.is_server || !terminal.interactive ==> plan(turn.actions@).len() == 0 && after.ui
            == before.ui,
        after == (Oxy { ui: after.ui, ..before }),
{
}

/// The signal handler comes first, then every hook, each once, in the order in which they were put
/// in; none is left, and nothing follows.
pub proof fn law_hooks_come_last(
    before: Oxy,
    arguments: Arguments,
    terminal: Terminal,
    turn: PostAuthTurn,
    after: Oxy,
)
    requires
        before.took_post_auth(PostAuthStep::Hooks, arguments, terminal, turn, after),
    ensures
        ({
            let actions = plan(turn.actions@);
            let hooks = before.post_auth_hooks@;
            &&& turn.next is None
            &&& actions.len() == 1 + hooks.len()
            &&& actions[0] == ActionView::RegisterSignalHandler
            &&& forall|i: int|
                0 <= i < hooks.len() ==> actions[1 + i] == ActionView::RunHook(#[trigger] hooks[i])
            &&& after.post_auth_hooks@.len() == 0
            &&& after == (Oxy { post_auth_hooks: after.post_auth_hooks, ..before })
        }),
{
    let hooks = before.post_auth_hooks@;
    let actions = plan(turn.actions@);
    assert forall|i: int| 0 <= i < hooks.len() implies actions[1 + i] == ActionView::RunHook(
        #[trigger] hooks[i],
    ) by {
        assert(hook_calls(hooks)[i] == ActionView::RunHook(hooks[i]));
    }
}

/// One step after a key exchange.
pub struct PostAuth {
    pub before: Oxy,
    pub step: PostAuthStep,
    pub arguments: Arguments,
    pub terminal: Terminal,
    pub turn: PostAuthTurn,
    pub after: Oxy,
}

impl PostAuth {
    /// Whether the step was taken as its turn says.
    pub open spec fn taken(self) -> bool {
        self.before.took_post_auth(
            self.step,
            self.arguments,
            self.terminal,
            self.turn,
            self.after,
        )
    }
}

/// Whether a step of a run was taken, and is followed by the one that it asked for, by none where
/// it asked for none.
pub open spec fn goes_on(run: Seq<PostAuth>, i: int) -> bool {
    &&& run[i].taken()
    &&& run[i].before.is_server == run[0].before.is_server
    &&& i + 1 < run.len() ==> run[i].turn.next == Some(run[i + 1].step)
    &&& i + 1 == run.len() ==> run[i].turn.next is None
}

/// Steps from the first to the last, each the one that the one before asked for. What happens to
/// the session in between is left open, but for its role.
pub open spec fn all_steps(run: Seq<PostAuth>) -> bool {
    &&& run.len() > 0
    &&& run[0].step == PostAuthStep::Queue
    &&& forall|i: int| 0 <= i < run.len() ==> #[trigger] goes_on(run, i)
}

/// Every step comes that the role asks for, in order: on a server the hooks alone; on a client the
/// command line, then, unless it is a daemon by then or a batched line cannot be split, the
/// terminal and the UI, and at the end the hooks.
pub proof fn law_all_steps_come(run: Seq<PostAuth>)
    requires
        all_steps(run),
    ensures
        run[0].before.is_server ==> run.len() == 2 && run[1].step == PostAuthStep::Hooks,
        !run[0].before.is_server ==> {
            &&& run.len() >= 2
            &&& run[1].step == PostAuthStep::CommandLine
            &&& run[1].before.is_daemon ==> run.len() == 3 && run[2].step == PostAuthStep::Hooks
            &&& !run[1].before.is_daemon && (forall|k: int|
                0 <= k < run[1].arguments.batched_metacommands@.len() ==> shlex_words(
                    (#[trigger] run[1].arguments.batched_metacommands@[k])@,
                ) is Some) ==> run.len() == 5 && run[2].step == PostAuthStep::Attachment
                && run[3].step == PostAuthStep::CreateUi && run[4].step == PostAuthStep::Hooks
        },
{
    assert(goes_on(run, 0));
    lemma_after_the_step(run[0]);
    assert(goes_on(run, 1));
    lemma_after_the_step(run[1]);
    if run.len() > 2 {
        assert(goes_on(run, 2));
        lemma_after_the_step(run[2]);
    }
    if run.len() > 3 {
        assert(goes_on(run, 3));
        lemma_after_the_step(run[3]);
    }
    if run.len() > 4 {
        assert(goes_on(run, 4));
        lemma_after_the_step(run[4]);
    }
}

/// What each step asks for next.
proof fn lemma_after_the_step(at: PostAuth)
    requires
        at.taken(),
    ensures
        at.step == PostAuthStep::Queue ==> at.turn.next == Some(
            if at.before.is_server {
                PostAuthStep::Hooks
            } else {
                PostAuthStep::CommandLine
            },
        ),
        at.step == PostAuthStep::CommandLine && at.before.is_daemon ==> at.turn.next == Some(
            PostAuthStep::Hooks,
        ),
        at.step == PostAuthStep::CommandLine && !at.before.is_daemon && (forall|k: int|
            0 <= k < at.arguments.batched_metacommands@.len() ==> shlex_words(
                (#[trigger] at.arguments.batched_metacommands@[k])@,
            ) is Some) ==> at.turn.next == Some(PostAuthStep::Attachment),
        at.step == PostAuthStep::Attachment ==> at.turn.next == Some(PostAuthStep::CreateUi),
        at.step == PostAuthStep::CreateUi ==> at.turn.next == Some(PostAuthStep::Hooks),
        at.step == PostAuthStep::Hooks ==> at.turn.next is None,
{
    if at.step == PostAuthStep::CommandLine && !at.before.is_daemon && (forall|k: int|
        0 <= k < at.arguments.batched_metacommands@.len() ==> shlex_words(
            (#[trigger] at.arguments.batched_metacommands@[k])@,
        ) is Some) {
        lemma_command_line_in_parts(at.before, at.arguments, at.terminal, at.turn, at.after);
    }
}

/// A peer is given up exactly when it was last heard of more than three minutes ago, and then
/// nothing else is done; else it gets one sign of life, and the next one is due in a minute.
pub proof fn law_three_minutes_of_silence(oxy: Oxy, now: u128)
    ensures
        ({
            let actions = oxy.keepalive_plan(now);
            let silent = now > oxy.last_message_seen + 180 * 1_000_000_000;
            &&& oxy.expired(now) <==> silent
            &&& silent ==> actions.len() == 1 && actions[0] == ActionView::Stop(
                Fault::KeepaliveExpired,
            )
            &&& !silent ==> actions.len() == 2 && actions[0] == ActionView::Send(MessageView::Ping)
                && actions[1] == (ActionView::SetTimeout { timer: Timer::Keepalive, seconds: 60 })
        }),
{
}

} // verus!
