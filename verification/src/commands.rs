//! The colon-prefixed command line: enabling and disabling handlers by
//! name, and telling commands apart from action queries.

use vstd::prelude::*;
use crate::text::{trim_seq, trim_chars, chars_of, string_from_chars, str_eq, chars_to_owned};
use crate::matching::{tokens_of, split_tokens};
use crate::store::{ActionStore, set_handler_enabled_spec};

verus! {

/// What the input line asks for: an action search, or a command.
#[derive(Clone, Copy, Debug, PartialEq, Eq, Structural)]
pub enum ItemMode {
    Action,
    Command,
}

/// A command line starts with a colon; everything else is a query.
pub open spec fn mode_of(s: Seq<char>) -> ItemMode {
    if s.len() > 0 && s[0] == ':' {
        ItemMode::Command
    } else {
        ItemMode::Action
    }
}

/// Tells a command line apart from an action query.
pub fn mode_of_query(query: &str) -> (r: ItemMode)
    ensures
        r == mode_of(query@),
{
    let q = chars_of(query);
    if q.len() > 0 && q[0] == ':' {
        ItemMode::Command
    } else {
        ItemMode::Action
    }
}

/// The operations a command can ask of the store.
#[derive(Clone, Copy, Debug, PartialEq, Eq, Structural)]
pub enum CommandKind {
    Enable,
    Disable,
}

/// A registered command: its typed name and what it does.
#[derive(Clone, Debug)]
pub struct CommandDefinition {
    pub name: String,
    pub kind: CommandKind,
}

/// The outcome reported back to the input line.
#[derive(Clone, Debug)]
pub struct CommandResult {
    pub success: bool,
    pub message: String,
}

/// The fixed table of commands.
pub struct CommandRegistry {
    commands: Vec<CommandDefinition>,
}

/// The command line with its colon prefix removed and blanks trimmed.
pub open spec fn command_text(s: Seq<char>) -> Seq<char> {
    if s.len() > 0 && s[0] == ':' {
        trim_seq(s.skip(1))
    } else {
        trim_seq(s)
    }
}

impl CommandRegistry {
    /// The registry with its two commands, `disable` and `enable`.
    pub fn new() -> (r: CommandRegistry)
        ensures
            r.command_names() =~= seq!["disable"@, "enable"@],
    {
        let mut commands: Vec<CommandDefinition> = Vec::new();
        commands.push(
            CommandDefinition { name: chars_to_owned("disable"), kind: CommandKind::Disable },
        );
        commands.push(
            CommandDefinition { name: chars_to_owned("enable"), kind: CommandKind::Enable },
        );
        let r = CommandRegistry { commands };
        proof {
            assert(r.command_names() =~= seq!["disable"@, "enable"@]);
        }
        r
    }

    /// The names of the registered commands, in registration order.
    pub closed spec fn command_names(&self) -> Seq<Seq<char>> {
        Seq::new(self.commands@.len(), |i: int| self.commands@[i].name@)
    }

    /// Lists the registered command names.
    pub fn get_command_list(&self) -> (r: Vec<String>)
        ensures
            r.deep_view() == self.command_names(),
    {
        let mut out: Vec<String> = Vec::new();
        let mut i: usize = 0;
        while i < self.commands.len()
            invariant
                i <= self.commands@.len(),
                out@.len() == i,
                forall|k: int| 0 <= k < i ==> (#[trigger] out@[k])@ == self.commands@[k].name@,
            decreases self.commands@.len() - i,
        {
            out.push(chars_to_owned(self.commands[i].name.as_str()));
            i = i + 1;
        }
        proof {
            assert(out.deep_view() =~= self.command_names());
        }
        out
    }

    /// Runs one command line against the store: `disable <handler>`
    /// and `enable <handler>` flip the handler's enablement; anything
    /// else is refused and leaves the store untouched.
    pub fn execute_command(&self, store: &mut ActionStore, command_line: &str) -> (r:
        CommandResult)
        requires
            old(store).wf(),
        ensures
            final(store).wf(),
            ({
                let toks = tokens_of(command_text(command_line@));
                if toks.len() >= 2 && toks[0] == "disable"@ {
                    r.success && final(store)@ == set_handler_enabled_spec(
                        old(store)@,
                        toks[1],
                        false,
                    )
                } else if toks.len() >= 2 && toks[0] == "enable"@ {
                    r.success && final(store)@ == set_handler_enabled_spec(
                        old(store)@,
                        toks[1],
                        true,
                    )
                } else {
                    !r.success && final(store)@ == old(store)@
                }
            }),
    {
        let q = chars_of(command_line);
        let body = if q.len() > 0 && q[0] == ':' {
            let rest = crate::matching::subvec(&q, 1, q.len());
            proof {
                assert(q@.subrange(1, q@.len() as int) =~= q@.skip(1));
            }
            trim_chars(&rest)
        } else {
            trim_chars(&q)
        };
        let toks = split_tokens(&body);
        proof {
            assert(toks.deep_view() == tokens_of(command_text(command_line@)));
        }
        if toks.len() >= 2 {
            let name = string_from_chars(&toks[0]);
            let arg = string_from_chars(&toks[1]);
            proof {
                assert(toks@[0]@ == toks.deep_view()[0]);
                assert(toks@[1]@ == toks.deep_view()[1]);
            }
            if str_eq(name.as_str(), "disable") {
                store.set_handler_enabled(arg.as_str(), false);
                return CommandResult { success: true, message: chars_to_owned("handler disabled") };
            }
            if str_eq(name.as_str(), "enable") {
                store.set_handler_enabled(arg.as_str(), true);
                return CommandResult { success: true, message: chars_to_owned("handler enabled") };
            }
            return CommandResult { success: false, message: chars_to_owned("unknown command") };
        }
        CommandResult { success: false, message: chars_to_owned("missing command or argument") }
    }
}

} // verus!
