//! Laws of command lines.

use crate::reading::{lemma_eat_line, skip_items, ParserState};
use crate::testfile::{IsaCommandModel, TestCommand};
use crate::text::words;
use crate::token::LexItem;
use vstd::prelude::*;

verus! {

/// The number of items, from the first on, that stand on a line.
pub open spec fn line_len(items: Seq<LexItem>, line: usize) -> nat
    decreases items.len(),
{
    if items.len() > 0 && items[0].location.line_number == line {
        1 + line_len(items.drop_first(), line)
    } else {
        0
    }
}

proof fn lemma_skip_line<'a>(items: Seq<LexItem<'a>>, line: usize)
    ensures
        line_len(items, line) <= items.len(),
        skip_items(items, line) == items.skip(line_len(items, line) as int),
        forall|i: int|
            0 <= i < line_len(items, line) ==> (#[trigger] items[i]).location.line_number == line,
        line_len(items, line) < items.len() ==> items[line_len(
            items,
            line,
        ) as int].location.line_number != line,
    decreases items.len(),
{
    if items.len() > 0 && items[0].location.line_number == line {
        let rest = items.drop_first();
        lemma_skip_line(rest, line);
        let n = line_len(rest, line) as int;
        assert(items.skip(n + 1) =~= rest.skip(n));
        assert forall|i: int| 0 <= i < n + 1 implies (
        #[trigger] items[i]).location.line_number == line by {
            if i > 0 {
                assert(items[i] == rest[i - 1]);
            }
        }
        if n + 1 < items.len() {
            assert(items[n + 1] == rest[n]);
        }
    } else {
        assert(items.skip(0) =~= items);
    }
}

/// A line that is consumed is the rest of the line of the token that was looked at: the items on that
/// line are taken, and no item of another line.
pub proof fn law_line_consumed(st: ParserState)
    ensures
        ({
            let s = st.fill();
            let line = s.loc.line_number;
            let n = line_len(s.items, line) as int;
            &&& n <= s.items.len()
            &&& st.eat_line().items == s.items.skip(n)
            &&& st.eat_line().lookahead is None
            &&& forall|i: int|
                0 <= i < n ==> (#[trigger] s.items[i]).location.line_number == line
            &&& n < s.items.len() ==> s.items[n].location.line_number != line
        }),
{
    lemma_skip_line(st.fill().items, st.fill().loc.line_number);
}

proof fn lemma_commands_after<'a>(st: ParserState<'a>, list: Seq<TestCommand<'a>>)
    ensures
        st.test_commands(list).0 == list + st.test_commands(seq![]).0,
        st.test_commands(list).1 == st.test_commands(seq![]).1,
    decreases st.remaining(),
{
    lemma_eat_line(st);
    if st.at_word("test"@) {
        let s = st.eat_line();
        let command = TestCommand { line: st.fill().tail };
        lemma_commands_after(s, list.push(command));
        lemma_commands_after(s, seq![].push(command));
        let rest = s.test_commands(seq![]).0;
        assert(list.push(command) + rest =~= list + (seq![].push(command) + rest));
    } else {
        assert(list + seq![] =~= list);
    }
}

/// There is one test command for each line at the beginning that starts with the word "test", in the
/// order of the lines. It holds the text that follows the word on its line.
pub proof fn law_test_commands(st: ParserState)
    ensures
        ({
            let (commands, s) = st.test_commands(seq![]);
            &&& commands.len() == 0 <==> !st.at_word("test"@)
            &&& commands.len() == 0 ==> s == st.fill()
            &&& commands.len() > 0 ==> {
                &&& commands[0].line == st.fill().tail
                &&& commands.drop_first() == st.eat_line().test_commands(seq![]).0
                &&& s == st.eat_line().test_commands(seq![]).1
            }
        }),
{
    lemma_eat_line(st);
    if st.at_word("test"@) {
        let command = TestCommand { line: st.fill().tail };
        lemma_commands_after(st.eat_line(), seq![].push(command));
        let rest = st.eat_line().test_commands(seq![]).0;
        assert((seq![].push(command) + rest).drop_first() =~= rest);
    }
}

/// A line that starts with "set" or "isa" is a command. Its words are all the words that follow on the
/// line: they are the options of a `set` command, and the name and the options of an `isa` command. An
/// `isa` command without words is an error. The command takes its line, and nothing else does.
pub proof fn law_isa_command(st: ParserState)
    ensures
        ({
            let list = words(st.fill().tail@);
            let (r, s) = st.isa_command();
            &&& r is Some <==> st.at_word("set"@) || st.at_word("isa"@)
            &&& s == (if r is Some {
                st.eat_line()
            } else {
                st.fill()
            })
            &&& match r {
                Some(Ok(IsaCommandModel::SetFlags { location, options })) => st.at_word("set"@)
                    && location == st.fill().loc && options == list,
                Some(Ok(IsaCommandModel::SelectIsa { location, name, options })) => st.at_word(
                    "isa"@,
                ) && location == st.fill().loc && seq![name] + options == list,
                Some(Err(e)) => st.at_word("isa"@) && list.len() == 0 && e.location
                    == st.fill().loc,
                None => true,
            }
        }),
{
    let list = words(st.fill().tail@);
    reveal_strlit("set");
    reveal_strlit("isa");
    if list.len() > 0 {
        assert(seq![list[0]] + list.drop_first() =~= list);
    }
}

/// The `set` and `isa` commands stand in the order of their lines, up to the first line that is none
/// or that is wrong.
pub proof fn law_isa_commands(st: ParserState)
    ensures
        match st.isa_command().0 {
            Some(Ok(command)) => {
                let list = st.isa_commands();
                &&& list.len() > 0
                &&& list[0] == command
                &&& list.drop_first() == st.isa_command().1.isa_commands()
            },
            _ => st.isa_commands().len() == 0,
        },
{
    lemma_eat_line(st);
    if let (Some(Ok(command)), s) = st.isa_command() {
        assert((seq![command] + s.isa_commands()).drop_first() =~= s.isa_commands());
    }
}

} // verus!
