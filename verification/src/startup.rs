//! The beginning and the end of a session.

use vstd::prelude::*;
use vstd::std_specs::iter::IteratorSpec;

use crate::action::{group_plan, plan, Action, ActionView, Fault, Timer};
use crate::arguments::{run_batched_metacommands, stops, Arguments, Terminal};
use crate::message::{MessageView, OxyMessage};
use crate::state::{same_text, Oxy, KEEPALIVE_LIMIT_NANOS, KEEPALIVE_SECONDS};
use crate::transfer::{next_command, without_next};
use crate::words::texts;

verus! {

broadcast use group_plan;

/// The steps that follow the key exchange.
#[derive(Clone, Copy, Debug, PartialEq, Eq, Structural)]
pub enum PostAuthStep {
    /// On a client, the command at the front of the queue.
    Queue,
    /// The request for compression, and what the command line asks for.
    CommandLine,
    /// The pseudo terminal or the pipe that the user works with.
    Attachment,
    /// The terminal UI.
    CreateUi,
    /// The signal handler and the hooks.
    Hooks,
}

/// What a step after the key exchange leads to.
#[derive(Clone, Debug, PartialEq, Eq)]
pub struct PostAuthTurn {
    pub actions: Vec<Action>,
    /// The step to take once the actions have been carried out.
    pub next: Option<PostAuthStep>,
}

/// The calls of the given hooks, in order.
pub open spec fn hook_calls(hooks: Seq<u64>) -> Seq<ActionView> {
    hooks.map_values(|hook: u64| ActionView::RunHook(hook))
}

/// The words of the command to run on the server, if any.
pub open spec fn command_words(command: Option<Vec<String>>) -> Seq<Seq<char>> {
    match command {
        Some(words) => texts(words@),
        None => Seq::empty(),
    }
}

/// How the terminal is taken care of: a pseudo terminal for one, a pipe for a command without.
pub open spec fn attachment(arguments: Arguments, terminal: Terminal) -> Seq<ActionView> {
    if terminal.interactive {
        let advertised = match terminal.term {
            Some(term) => seq![
                ActionView::Send(
                    MessageView::EnvironmentAdvertisement { key: "TERM"@, value: term@ },
                ),
            ],
            None => Seq::empty(),
        };
        advertised.push(
            ActionView::HandleMetacommand(
                seq!["pty"@, "--"@] + command_words(arguments.command),
            ),
        )
    } else if arguments.command is Some {
        seq![
            ActionView::WatchStdin,
            ActionView::HandleMetacommand(
                seq!["pipe"@, "--"@] + command_words(arguments.command),
            ),
        ]
    } else {
        Seq::empty()
    }
}

/// Two fixed words, and the words of a command behind them.
fn command_with(first: &str, second: &str, command: &Option<Vec<String>>) -> (action: Action)
    ensures
        action@ == ActionView::HandleMetacommand(
            seq![first@, second@] + command_words(*command),
        ),
{
    let mut parts: Vec<String> = vec![first.to_owned(), second.to_owned()];
    let ghost head = seq![first@, second@];
    assert(texts(parts@) =~= head);
    if let Some(words) = command {
        let mut i: usize = 0;
        while i < words.len()
            invariant
                i <= words@.len(),
                texts(parts@) == head + texts(words@).take(i as int),
            decreases words@.len() - i,
        {
            let ghost before = parts@;
            parts.push(words[i].clone());
            i = i + 1;
            assert(texts(parts@) =~= texts(before).push(words@[i - 1]@));
            assert(texts(parts@) =~= head + texts(words@).take(i as int));
        }
        assert(texts(words@).take(i as int) =~= texts(words@));
    }
    assert(texts(parts@) =~= head + command_words(*command));
    Action::HandleMetacommand(parts)
}

impl Oxy {
    /// What the start of the session takes, by role.
    pub open spec fn launch_plan(self) -> Seq<ActionView> {
        if self.is_server {
            seq![
                ActionView::PushExitHook,
                ActionView::WatchHandshake,
                ActionView::FinishServerHandshake,
            ]
        } else {
            seq![ActionView::PushExitHook, ActionView::AdvertiseClientKey]
        }
    }

    /// Whether the session can be started: it is not started twice.
    pub open spec fn can_launch(self) -> bool {
        !self.launched
    }

    /// What starting does: `self` is the state before it, `after` the one behind it.
    pub open spec fn launches(self, actions: Seq<ActionView>, after: Oxy) -> bool {
        &&& self.can_launch()
        &&& actions == self.launch_plan()
        &&& after == (Oxy { launched: true, ..self })
    }

    /// Starts the session, once.
    pub fn launch(&mut self) -> (actions: Vec<Action>)
        requires
            old(self).can_launch(),
        ensures
            old(self).launches(plan(actions@), *final(self)),
    {
        let mut actions: Vec<Action> = Vec::new();
        actions.push(Action::PushExitHook);
        self.launched = true;
        if self.is_client() {
            actions.push(Action::AdvertiseClientKey);
        } else {
            actions.push(Action::WatchHandshake);
            actions.push(Action::FinishServerHandshake);
        }
        assert(plan(actions@) =~= old(self).launch_plan());
        actions
    }

    /// What is left to do when the program exits; `victim` is the program in a pseudo terminal
    /// that is taken down.
    pub open spec fn exit_plan(self, victim: Option<i32>) -> Seq<ActionView> {
        (if self.ui {
            seq![ActionView::CookUi]
        } else {
            Seq::empty()
        }) + (match victim {
            Some(pid) => seq![ActionView::Terminate { pid }],
            None => Seq::empty(),
        }) + (if !self.is_server && !self.is_daemon {
            seq![ActionView::SayGoodbye]
        } else {
            Seq::empty()
        })
    }

    /// What is left to do when the program exits, given which program in a pseudo terminal is
    /// taken down.
    pub fn exit_actions(&self, victim: Option<i32>) -> (actions: Vec<Action>)
        ensures
            plan(actions@) == self.exit_plan(victim),
    {
        let mut actions: Vec<Action> = Vec::new();
        if self.ui {
            actions.push(Action::CookUi);
        }
        if let Some(pid) = victim {
            actions.push(Action::Terminate { pid });
        }
        if self.is_client() && !self.is_daemon {
            actions.push(Action::SayGoodbye);
        }
        assert(plan(actions@) =~= self.exit_plan(victim));
        actions
    }

    /// The process id of some program in a pseudo terminal.
    fn first_pty(&self) -> (pid: Option<i32>)
        ensures
            pid is None ==> self.ptys@.len() == 0,
            pid matches Some(pid) ==> self.ptys@.len() > 0 && self.ptys@.contains_value(pid),
    {
        broadcast use vstd::std_specs::hash::group_hash_axioms;

        let ghost all = self.ptys.values().remaining();
        for pid in iter: self.ptys.values()
            invariant
                iter.seq() == all,
                all.unref().to_set() == self.ptys@.values(),
                all.len() == self.ptys@.dom().len(),
                iter.index() == 0,
        {
            assert(all.unref()[0] == *pid);
            assert(all.unref().to_set().contains(*pid));
            return Some(*pid);
        }
        None
    }

    /// What is left to do when the program exits. Of the programs in pseudo terminals one is
    /// taken down, whichever comes first.
    pub fn exit_hook(&self) -> (actions: Vec<Action>)
        ensures
            self.ptys@.len() == 0 ==> plan(actions@) == self.exit_plan(None),
            self.ptys@.len() > 0 ==> exists|pid: i32|
                self.ptys@.contains_value(pid) && plan(actions@) == #[trigger] self.exit_plan(
                    Some(pid),
                ),
    {
        self.exit_actions(self.first_pty())
    }

    /// What is done when the key exchange is complete: the transport's news are gone through,
    /// from now on whenever there are some, and only after the first time comes what follows the
    /// key exchange.
    pub fn upgrade_to_encrypted(&self) -> (actions: Vec<Action>)
        ensures
            plan(actions@) == seq![
                ActionView::WatchMainTransport,
                ActionView::NotifyMainTransport,
                ActionView::DoPostAuth,
            ],
    {
        let mut actions: Vec<Action> = Vec::new();
        actions.push(Action::WatchMainTransport);
        actions.push(Action::NotifyMainTransport);
        actions.push(Action::DoPostAuth);
        assert(plan(actions@) =~= seq![
            ActionView::WatchMainTransport,
            ActionView::NotifyMainTransport,
            ActionView::DoPostAuth,
        ]);
        actions
    }

    /// Creates the terminal UI, on a client that has a terminal.
    pub fn create_ui(&mut self, interactive: bool) -> (action: Option<Action>)
        ensures
            !old(self).is_server && interactive ==> action == Some(Action::CreateUi) && *final(self)
                == (Oxy { ui: true, ..*old(self) }),
            old(self).is_server || !interactive ==> action is None && *final(self) == *old(self),
    {
        if self.is_server() {
            return None;
        }
        if !interactive {
            return None;
        }
        self.ui = true;
        Some(Action::CreateUi)
    }

    /// Whether compression is to be asked for: where the user wants it, except on a daemon that
    /// only carries data which is encrypted already.
    pub open spec fn wants_compression(self, arguments: Arguments) -> bool {
        arguments.compression && (!self.is_daemon || arguments.mode@ == "copy"@)
    }

    /// Asks for compression, where it is wanted.
    pub fn activate_compression(&self, arguments: &Arguments) -> (action: Option<Action>)
        ensures
            action == (if self.wants_compression(*arguments) {
                Some(Action::Send(OxyMessage::CompressionRequest { compression_type: 0 }))
            } else {
                None
            }),
    {
        if arguments.compression {
            if !self.is_daemon || same_text(&arguments.mode, "copy") {
                return Some(Action::Send(OxyMessage::CompressionRequest { compression_type: 0 }));
            }
        }
        None
    }

    /// The request for compression, where it is wanted.
    pub open spec fn compression_request(self, arguments: Arguments) -> Seq<ActionView> {
        if self.wants_compression(arguments) {
            seq![ActionView::Send(MessageView::CompressionRequest { compression_type: 0 })]
        } else {
            Seq::empty()
        }
    }

    /// What a step after the key exchange leads to: `self` is the state before it, `after` the one
    /// behind it.
    pub open spec fn took_post_auth(
        self,
        step: PostAuthStep,
        arguments: Arguments,
        terminal: Terminal,
        turn: PostAuthTurn,
        after: Oxy,
    ) -> bool {
        let actions = plan(turn.actions@);
        match step {
            PostAuthStep::Queue => if self.is_server {
                &&& actions.len() == 0
                &&& turn.next == Some(PostAuthStep::Hooks)
                &&& after == self
            } else {
                &&& actions == next_command(self.metacommand_queue@)
                &&& turn.next == Some(PostAuthStep::CommandLine)
                &&& after.metacommand_queue@ == without_next(self.metacommand_queue@)
                &&& after == (Oxy { metacommand_queue: after.metacommand_queue, ..self })
            },
            PostAuthStep::CommandLine => {
                &&& actions == self.compression_request(arguments) + (if self.is_daemon {
                    Seq::empty()
                } else {
                    arguments.batch()
                })
                &&& turn.next == (if self.is_daemon {
                    Some(PostAuthStep::Hooks)
                } else if stops(arguments.batch()) {
                    None
                } else {
                    Some(PostAuthStep::Attachment)
                })
                &&& after == self
            },
            PostAuthStep::Attachment => {
                &&& actions == attachment(arguments, terminal)
                &&& turn.next == Some(PostAuthStep::CreateUi)
                &&& after == (Oxy {
                    stdin_open: self.stdin_open || (!terminal.interactive
                        && arguments.command is Some),
                    ..self
                })
            },
            PostAuthStep::CreateUi => {
                let creates = !self.is_server && terminal.interactive;
                &&& actions == (if creates {
                    seq![ActionView::CreateUi]
                } else {
                    Seq::empty()
                })
                &&& turn.next == Some(PostAuthStep::Hooks)
                &&& after == (Oxy { ui: self.ui || creates, ..self })
            },
            PostAuthStep::Hooks => {
                &&& actions == seq![ActionView::RegisterSignalHandler] + hook_calls(
                    self.post_auth_hooks@,
                )
                &&& turn.next is None
                &&& after.post_auth_hooks@.len() == 0
                &&& after == (Oxy { post_auth_hooks: after.post_auth_hooks, ..self })
            },
        }
    }

    /// The pseudo terminal or the pipe that the user works with.
    fn attach(&mut self, arguments: &Arguments, terminal: &Terminal) -> (actions: Vec<Action>)
        ensures
            plan(actions@) == attachment(*arguments, *terminal),
            *final(self) == (Oxy {
                stdin_open: old(self).stdin_open || (!terminal.interactive
                    && arguments.command is Some),
                ..*old(self)
            }),
    {
        let mut actions: Vec<Action> = Vec::new();
        if terminal.interactive {
            if let Some(term) = &terminal.term {
                actions.push(
                    Action::Send(
                        OxyMessage::EnvironmentAdvertisement {
                            key: "TERM".to_owned(),
                            value: term.clone(),
                        },
                    ),
                );
            }
            actions.push(command_with("pty", "--", &arguments.command));
        } else if arguments.command.is_some() {
            self.stdin_open = true;
            actions.push(Action::WatchStdin);
            actions.push(command_with("pipe", "--", &arguments.command));
        }
        assert(plan(actions@) =~= attachment(*arguments, *terminal));
        actions
    }

    /// Takes all post-auth hooks, to be run.
    fn run_post_auth_hooks(&mut self) -> (actions: Vec<Action>)
        ensures
            plan(actions@) == hook_calls(old(self).post_auth_hooks@),
            final(self).post_auth_hooks@.len() == 0,
            *final(self) == (Oxy { post_auth_hooks: final(self).post_auth_hooks, ..*old(self) }),
    {
        let mut hooks: Vec<u64> = Vec::new();
        std::mem::swap(&mut hooks, &mut self.post_auth_hooks);
        let ghost calls = hook_calls(hooks@);
        let mut actions: Vec<Action> = Vec::new();
        let mut i: usize = 0;
        while i < hooks.len()
            invariant
                i <= hooks@.len(),
                calls == hook_calls(hooks@),
                plan(actions@) == calls.take(i as int),
            decreases hooks@.len() - i,
        {
            actions.push(Action::RunHook(hooks[i]));
            i = i + 1;
            assert(plan(actions@) =~= calls.take(i as int));
        }
        assert(calls.take(i as int) =~= calls);
        actions
    }

    /// One step of what is done once the session is encrypted: on a client the queue, the
    /// compression, the command line and the terminal; on either side the signal handler and the
    /// hooks. It starts with `Queue`. A batched command that cannot be split into words ends it.
    pub fn do_post_auth(
        &mut self,
        step: PostAuthStep,
        arguments: &Arguments,
        terminal: &Terminal,
    ) -> (turn: PostAuthTurn)
        ensures
            old(self).took_post_auth(step, *arguments, *terminal, turn, *final(self)),
    {
        let mut actions: Vec<Action> = Vec::new();
        let next: Option<PostAuthStep> = match step {
            PostAuthStep::Queue => {
                if self.is_client() {
                    if let Some(command) = self.pop_metacommand() {
                        actions.push(command);
                    }
                    assert(plan(actions@) =~= next_command(old(self).metacommand_queue@));
                    Some(PostAuthStep::CommandLine)
                } else {
                    Some(PostAuthStep::Hooks)
                }
            },
            PostAuthStep::CommandLine => {
                if let Some(request) = self.activate_compression(arguments) {
                    actions.push(request);
                }
                assert(plan(actions@) =~= self.compression_request(*arguments));
                if self.is_daemon {
                    assert(plan(actions@) =~= self.compression_request(*arguments) + Seq::empty());
                    Some(PostAuthStep::Hooks)
                } else {
                    let mut batch: Vec<Action> = run_batched_metacommands(arguments);
                    let stopped: bool = ends_in_stop(&batch);
                    actions.append(&mut batch);
                    if stopped {
                        None
                    } else {
                        Some(PostAuthStep::Attachment)
                    }
                }
            },
            PostAuthStep::Attachment => {
                actions = self.attach(arguments, terminal);
                Some(PostAuthStep::CreateUi)
            },
            PostAuthStep::CreateUi => {
                if let Some(create) = self.create_ui(terminal.interactive) {
                    actions.push(create);
                    assert(plan(actions@) =~= seq![ActionView::CreateUi]);
                }
                Some(PostAuthStep::Hooks)
            },
            PostAuthStep::Hooks => {
                actions.push(Action::RegisterSignalHandler);
                let mut calls: Vec<Action> = self.run_post_auth_hooks();
                assert(plan(actions@) =~= seq![ActionView::RegisterSignalHandler]);
                actions.append(&mut calls);
                None
            },
        };
        PostAuthTurn { actions, next }
    }

    /// Whether nothing was heard of the peer for too long.
    pub open spec fn expired(self, now: u128) -> bool {
        now - self.last_message_seen > KEEPALIVE_LIMIT_NANOS
    }

    /// What is done when it is time for a sign of life.
    pub open spec fn keepalive_plan(self, now: u128) -> Seq<ActionView> {
        if self.expired(now) {
            seq![ActionView::Stop(Fault::KeepaliveExpired)]
        } else {
            seq![
                ActionView::Send(MessageView::Ping),
                ActionView::SetTimeout { timer: Timer::Keepalive, seconds: KEEPALIVE_SECONDS },
            ]
        }
    }

    /// Sends a sign of life, or gives the peer up.
    pub fn notify_keepalive(&self, now: u128) -> (actions: Vec<Action>)
        ensures
            plan(actions@) == self.keepalive_plan(now),
    {
        let mut actions: Vec<Action> = Vec::new();
        if now > self.last_message_seen && now - self.last_message_seen > KEEPALIVE_LIMIT_NANOS {
            actions.push(Action::Stop(Fault::KeepaliveExpired));
            assert(plan(actions@) =~= seq![ActionView::Stop(Fault::KeepaliveExpired)]);
        } else {
            actions.push(Action::Send(OxyMessage::Ping));
            actions.push(
                Action::SetTimeout { timer: Timer::Keepalive, seconds: KEEPALIVE_SECONDS },
            );
            assert(plan(actions@) =~= seq![
                ActionView::Send(MessageView::Ping),
                ActionView::SetTimeout { timer: Timer::Keepalive, seconds: KEEPALIVE_SECONDS },
            ]);
        }
        actions
    }
}

/// Whether the program ends with these actions.
fn ends_in_stop(actions: &Vec<Action>) -> (stopped: bool)
    ensures
        stopped == stops(plan(actions@)),
{
    if actions.is_empty() {
        return false;
    }
    let last: &Action = &actions[actions.len() - 1];
    match last {
        Action::Stop(_) => true,
        _ => false,
    }
}

} // verus!
