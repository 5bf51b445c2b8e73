//! Laws of the `set` and `isa` commands.

use crate::error::Failure;
use crate::reading::{lemma_eat_line, refusal, reply_to, IsaProgress, ParserState};
use crate::testfile::{IsaCommandModel, IsaModel, IsaReplyModel, IsaSpecModel};
use vstd::prelude::*;

verus! {

/// The progress after some commands.
pub open spec fn after_commands(commands: Seq<IsaCommandModel>) -> IsaProgress
    decreases commands.len(),
{
    if commands.len() == 0 {
        IsaProgress::start()
    } else {
        after_commands(commands.drop_last()).step(commands.last())
    }
}

/// The error that the first refused command means.
pub open spec fn first_refusal(
    commands: Seq<IsaCommandModel>,
    replies: Seq<IsaReplyModel>,
    from: nat,
) -> Option<Failure>
    decreases commands.len() - from,
{
    if from >= commands.len() {
        None
    } else {
        match refusal(commands[from as int], reply_to(replies, from)) {
            Some(e) => Some(e),
            None => first_refusal(commands, replies, from + 1),
        }
    }
}

/// The error in the command that ends a list of commands, if it ends with an error.
pub open spec fn final_error(st: ParserState) -> Option<Failure>
    decreases st.remaining(),
{
    match st.isa_command() {
        (Some(Ok(_)), s) => {
            proof {
                lemma_eat_line(st);
            }
            final_error(s)
        },
        (Some(Err(e)), _) => Some(e),
        (None, _) => None,
    }
}

/// The options of all `set` commands, in order.
pub open spec fn set_options(commands: Seq<IsaCommandModel>) -> Seq<Seq<char>>
    decreases commands.len(),
{
    if commands.len() == 0 {
        seq![]
    } else {
        match commands.last() {
            IsaCommandModel::SetFlags { options, .. } => set_options(commands.drop_last())
                + options,
            _ => set_options(commands.drop_last()),
        }
    }
}

/// The number of `isa` commands.
pub open spec fn isa_count(commands: Seq<IsaCommandModel>) -> nat
    decreases commands.len(),
{
    if commands.len() == 0 {
        0
    } else if commands.last() is SelectIsa {
        isa_count(commands.drop_last()) + 1
    } else {
        isa_count(commands.drop_last())
    }
}

/// The replies belong to the commands in their order. The first refused command decides; a list of
/// commands that are all accepted decides by what it holds, unless it ends with an error.
proof fn lemma_isa_specs_from(
    st: ParserState,
    replies: Seq<IsaReplyModel>,
    done: Seq<IsaCommandModel>,
)
    requires
        after_commands(done).count == done.len(),
    ensures
        ({
            let all = done + st.isa_commands();
            st.isa_specs(replies, after_commands(done)).0 == (match first_refusal(
                all,
                replies,
                done.len(),
            ) {
                Some(e) => Err(e),
                None => match final_error(st) {
                    Some(e) => Err(e),
                    None => after_commands(all).finish(),
                },
            })
        }),
    decreases st.remaining(),
{
    lemma_eat_line(st);
    let all = done + st.isa_commands();
    match st.isa_command() {
        (Some(Ok(command)), s) => {
            assert(all[done.len() as int] == command);
            if refusal(command, reply_to(replies, done.len())) is None {
                let more = done.push(command);
                assert(more.drop_last() =~= done);
                lemma_isa_specs_from(s, replies, more);
                assert(more + s.isa_commands() =~= all);
            }
        },
        _ => {
            assert(all =~= done);
        },
    }
}

/// The replies belong to the commands in their order: the first command that is refused decides.
/// If all are accepted, the ISAs are those that the commands ask for, unless the list of commands
/// ends with one that is wrong.
pub proof fn law_replies_in_order(st: ParserState, replies: Seq<IsaReplyModel>)
    ensures
        st.isa_specs(replies, IsaProgress::start()).0 == (match first_refusal(
            st.isa_commands(),
            replies,
            0,
        ) {
            Some(e) => Err(e),
            None => match final_error(st) {
                Some(e) => Err(e),
                None => after_commands(st.isa_commands()).finish(),
            },
        }),
{
    lemma_isa_specs_from(st, replies, seq![]);
    assert(seq![] + st.isa_commands() =~= st.isa_commands());
}

/// What some commands ask for.
proof fn lemma_after_commands(commands: Seq<IsaCommandModel>)
    ensures
        ({
            let p = after_commands(commands);
            &&& p.count == commands.len()
            &&& p.flags == set_options(commands)
            &&& p.isas.len() == isa_count(commands)
            &&& p.seen_isa <==> isa_count(commands) > 0
            &&& p.dangling == (if commands.len() > 0 {
                match commands.last() {
                    IsaCommandModel::SetFlags { location, .. } => Some(location),
                    _ => None,
                }
            } else {
                None
            })
        }),
    decreases commands.len(),
{
    if commands.len() > 0 {
        lemma_after_commands(commands.drop_last());
    }
}

/// The `set` commands are cumulative: an ISA has the options of all `set` commands that stand
/// before its `isa` command.
pub proof fn law_set_is_cumulative(commands: Seq<IsaCommandModel>, k: int)
    requires
        0 <= k < commands.len(),
        commands[k] is SelectIsa,
    ensures
        ({
            let isas = after_commands(commands).isas;
            let n = isa_count(commands.take(k)) as int;
            &&& n < isas.len()
            &&& isas[n] == (IsaModel {
                name: commands[k]->name,
                options: commands[k]->SelectIsa_options,
                flags: set_options(commands.take(k)),
            })
        }),
    decreases commands.len(),
{
    let before = commands.drop_last();
    lemma_after_commands(before);
    if k == commands.len() - 1 {
        assert(commands.take(k) =~= before);
    } else {
        law_set_is_cumulative(before, k);
        assert(before.take(k) =~= commands.take(k));
    }
}

/// Without `isa` commands, the options of all `set` commands are the result. With them, the last
/// command has to be an `isa` command: options that no ISA has are an error at the last `set`
/// command.
pub proof fn law_dangling_set(commands: Seq<IsaCommandModel>)
    ensures
        match after_commands(commands).finish() {
            Ok(IsaSpecModel::NoIsa(flags)) => isa_count(commands) == 0 && flags == set_options(
                commands,
            ),
            Ok(IsaSpecModel::Isas(isas)) => isa_count(commands) > 0 && commands.last() is SelectIsa
                && isas.len() == isa_count(commands),
            Err(e) => isa_count(commands) > 0 && commands.last() is SetFlags && e == (Failure {
                location: commands.last()->SetFlags_location,
                message: "dangling 'set' command after ISA specification has no effect."@,
            }),
        },
{
    lemma_after_commands(commands);
}

} // verus!
