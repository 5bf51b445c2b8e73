//! Laws of reading tokens, and of what is written and read again.

use crate::entities::Ebb;
use crate::error::Failure;
use crate::function::{with_entry, ArgumentExtension, ArgumentType, SignatureModel};
use crate::reading::{lemma_fill, ParserState};
use crate::testfile::Comment;
use crate::token::{LexItem, Token};
use vstd::prelude::*;

verus! {

/// The tokens among some items that are no comments, up to the first lexer error.
pub open spec fn tokens_of<'a>(items: Seq<LexItem<'a>>) -> Seq<Token<'a>>
    decreases items.len(),
{
    if items.len() == 0 {
        seq![]
    } else {
        match items[0].content {
            Ok(Token::Comment(_)) => tokens_of(items.drop_first()),
            Ok(token) => seq![token] + tokens_of(items.drop_first()),
            Err(_) => seq![],
        }
    }
}

/// The tokens that a parser will see, up to the first lexer error.
pub open spec fn upcoming<'a>(st: ParserState<'a>) -> Seq<Token<'a>> {
    match st.lookahead {
        Some(token) => seq![token] + tokens_of(st.items),
        None => tokens_of(st.items),
    }
}

/// Are there no lexer errors among the items?
pub open spec fn clean(items: Seq<LexItem>) -> bool {
    forall|i: int| 0 <= i < items.len() ==> (#[trigger] items[i]).content is Ok
}

/// A parser sees the tokens of its items in their order. Comments between them make no difference.
/// Without lexer errors, it sees no token only when nothing is left.
pub proof fn law_tokens_in_order(st: ParserState)
    ensures
        st.peek() == (if upcoming(st).len() > 0 {
            Some(upcoming(st)[0])
        } else {
            None
        }),
        upcoming(st).len() > 0 ==> upcoming(st.fill()) == upcoming(st) && upcoming(st.eat())
            == upcoming(st).drop_first(),
        clean(st.items) ==> clean(st.fill().items) && upcoming(st.fill()) == upcoming(st),
        clean(st.items) && st.peek() is None ==> st.fill().items.len() == 0,
    decreases st.items.len(),
{
    if st.lookahead is Some {
        assert(upcoming(st).drop_first() =~= tokens_of(st.items));
    } else if st.items.len() > 0 {
        let item = st.items[0];
        let next = ParserState { items: st.items.drop_first(), loc: item.location, ..st };
        assert(clean(st.items) ==> clean(next.items)) by {
            assert(forall|i: int| 0 <= i < next.items.len() ==> next.items[i] == st.items[i + 1]);
        }
        match item.content {
            Ok(Token::Comment(text)) => {
                if let Some(entity) = st.comment_entity {
                    law_tokens_in_order(
                        ParserState {
                            comments: st.comments.push(Comment { entity, text }),
                            ..next
                        },
                    );
                } else {
                    law_tokens_in_order(next);
                }
            },
            Ok(token) => {
                assert(upcoming(st).drop_first() =~= tokens_of(next.items));
            },
            Err(_) => {
                assert(!clean(st.items));
            },
        }
    }
}

/// A wanted token is consumed if it is the next one. Otherwise it is an error, at the location of
/// what was looked at, and nothing is consumed: the next token is still the next one.
pub proof fn law_wanted_token<'a>(st: ParserState<'a>, want: Token<'a>, message: Seq<char>)
    ensures
        ({
            let (r, s) = st.expect(want, message);
            &&& r is Ok <==> st.next_is(want)
            &&& r matches Ok(token) ==> st.peek() == Some(token) && s == st.eat()
            &&& r matches Err(e) ==> {
                &&& e == (Failure { location: st.fill().loc, message })
                &&& s == st.fill()
                &&& st.peek() is Some ==> s.peek() == st.peek() && s.fill() == s
            }
        }),
{
    lemma_fill(st.fill());
}

/// The tokens of an argument type.
pub open spec fn argument_tokens<'a>(arg: ArgumentType) -> Seq<Token<'a>> {
    let extension: Seq<Token<'a>> = match arg.extension {
        ArgumentExtension::Plain => seq![],
        ArgumentExtension::Uext => seq![Token::Identifier("uext")],
        ArgumentExtension::Sext => seq![Token::Identifier("sext")],
    };
    let inreg: Seq<Token<'a>> = if arg.inreg {
        seq![Token::Identifier("inreg")]
    } else {
        seq![]
    };
    seq![Token::Type(arg.value_type)] + extension + inreg
}

/// The tokens of the argument types after the first in a list.
pub open spec fn more_argument_tokens<'a>(list: Seq<ArgumentType>) -> Seq<Token<'a>>
    decreases list.len(),
{
    if list.len() == 0 {
        seq![]
    } else {
        seq![Token::Comma] + argument_tokens(list[0]) + more_argument_tokens(list.drop_first())
    }
}

/// The tokens of a list of argument types.
pub open spec fn argument_list_tokens<'a>(list: Seq<ArgumentType>) -> Seq<Token<'a>> {
    if list.len() == 0 {
        seq![]
    } else {
        argument_tokens(list[0]) + more_argument_tokens(list.drop_first())
    }
}

/// The tokens of the return types of a signature.
pub open spec fn return_tokens<'a>(list: Seq<ArgumentType>) -> Seq<Token<'a>> {
    if list.len() == 0 {
        seq![]
    } else {
        seq![Token::Arrow] + argument_list_tokens(list)
    }
}

/// The tokens of a signature.
pub open spec fn signature_tokens<'a>(sig: SignatureModel) -> Seq<Token<'a>> {
    seq![Token::LPar] + argument_list_tokens(sig.argument_types) + seq![Token::RPar]
        + return_tokens(sig.return_types)
}

/// Can a token go on with a list of argument types, or with a signature?
pub open spec fn continues(token: Token) -> bool {
    match token {
        Token::Comma => true,
        Token::Arrow => true,
        Token::Identifier(word) => word@ == "uext"@ || word@ == "sext"@ || word@ == "inreg"@,
        _ => false,
    }
}

/// Do the tokens end what stands before them?
pub open spec fn ends(rest: Seq<Token>) -> bool {
    rest.len() == 0 || !continues(rest[0])
}

/// Do the tokens start with no flag of an argument type?
pub open spec fn no_flag(rest: Seq<Token>) -> bool {
    rest.len() == 0 || !(rest[0] matches Token::Identifier(word) && (word@ == "uext"@ || word@
        == "sext"@ || word@ == "inreg"@))
}

/// Is the end of some tokens clear? A token follows them, or no lexer error does.
pub open spec fn clear_end(st: ParserState, rest: Seq<Token>) -> bool {
    rest.len() > 0 || clean(st.items)
}

/// What a reading leaves that ended before the tokens `rest`.
pub open spec fn leaves(st: ParserState, s: ParserState, rest: Seq<Token>) -> bool {
    &&& upcoming(s) == rest
    &&& clean(st.items) ==> clean(s.items)
}

proof fn lemma_words_differ()
    ensures
        "uext"@ != "sext"@,
        "uext"@ != "inreg"@,
        "sext"@ != "inreg"@,
{
    reveal_strlit("uext");
    reveal_strlit("sext");
    reveal_strlit("inreg");
    assert("uext"@[0] != "sext"@[0]);
    assert("uext"@.len() != "inreg"@.len());
    assert("sext"@.len() != "inreg"@.len());
}

/// The flags of an argument type end before something that is no flag.
proof fn lemma_no_flags<'a>(st: ParserState<'a>, arg: ArgumentType, rest: Seq<Token<'a>>)
    requires
        upcoming(st) == rest,
        clear_end(st, rest),
        no_flag(rest),
    ensures
        st.flags(arg).0 == arg,
        leaves(st, st.flags(arg).1, rest),
{
    law_tokens_in_order(st);
}

proof fn lemma_inreg_flag<'a>(st: ParserState<'a>, arg: ArgumentType, rest: Seq<Token<'a>>)
    requires
        upcoming(st) == seq![Token::Identifier("inreg")] + rest,
        clear_end(st, rest),
        no_flag(rest),
    ensures
        st.flags(arg).0 == (ArgumentType { inreg: true, ..arg }),
        leaves(st, st.flags(arg).1, rest),
{
    lemma_words_differ();
    law_tokens_in_order(st);
    assert(upcoming(st).drop_first() =~= rest);
    lemma_no_flags(st.eat(), ArgumentType { inreg: true, ..arg }, rest);
}

/// An argument type that was written is read again.
proof fn lemma_argument_round_trip<'a>(
    st: ParserState<'a>,
    arg: ArgumentType,
    rest: Seq<Token<'a>>,
)
    requires
        upcoming(st) == argument_tokens(arg) + rest,
        clear_end(st, rest),
        no_flag(rest),
    ensures
        st.argument_type().0 == Ok::<ArgumentType, Failure>(arg),
        leaves(st, st.argument_type().1, rest),
{
    lemma_words_differ();
    law_tokens_in_order(st);
    let plain = ArgumentType {
        value_type: arg.value_type,
        extension: ArgumentExtension::Plain,
        inreg: false,
    };
    let s = st.eat();
    let inreg: Seq<Token<'a>> = if arg.inreg {
        seq![Token::Identifier("inreg")]
    } else {
        seq![]
    };
    let flags = upcoming(st).drop_first();
    match arg.extension {
        ArgumentExtension::Plain => {
            assert(flags =~= inreg + rest);
            if arg.inreg {
                lemma_inreg_flag(s, plain, rest);
            } else {
                assert(flags =~= rest);
                lemma_no_flags(s, plain, rest);
            }
        },
        _ => {
            let extended = ArgumentType { extension: arg.extension, ..plain };
            law_tokens_in_order(s);
            assert(flags.drop_first() =~= inreg + rest);
            if arg.inreg {
                lemma_inreg_flag(s.eat(), extended, rest);
            } else {
                assert(flags.drop_first() =~= rest);
                lemma_no_flags(s.eat(), extended, rest);
            }
        },
    }
}

proof fn lemma_more_arguments_round_trip<'a>(
    st: ParserState<'a>,
    done: Seq<ArgumentType>,
    list: Seq<ArgumentType>,
    rest: Seq<Token<'a>>,
)
    requires
        upcoming(st) == more_argument_tokens(list) + rest,
        clear_end(st, rest),
        no_flag(rest),
        rest.len() > 0 ==> rest[0] != Token::Comma,
    ensures
        st.more_arguments(done).0 == Ok::<Seq<ArgumentType>, Failure>(done + list),
        leaves(st, st.more_arguments(done).1, rest),
    decreases list.len(),
{
    law_tokens_in_order(st);
    if list.len() == 0 {
        assert(upcoming(st) =~= rest);
        assert(done + list =~= done);
    } else {
        let tail = list.drop_first();
        let after: Seq<Token<'a>> = more_argument_tokens(tail) + rest;
        assert(upcoming(st).drop_first() =~= argument_tokens(list[0]) + after);
        let s = st.eat();
        if tail.len() > 0 {
            assert(after[0] == Token::<'a>::Comma);
        } else {
            assert(after =~= rest);
        }
        lemma_argument_round_trip(s, list[0], after);
        let s2 = s.argument_type().1;
        assert(done.push(list[0]) + tail =~= done + list);
        lemma_more_arguments_round_trip(s2, done.push(list[0]), tail, rest);
    }
}

proof fn lemma_argument_list_round_trip<'a>(
    st: ParserState<'a>,
    list: Seq<ArgumentType>,
    rest: Seq<Token<'a>>,
)
    requires
        list.len() > 0,
        upcoming(st) == argument_list_tokens(list) + rest,
        clear_end(st, rest),
        no_flag(rest),
        rest.len() > 0 ==> rest[0] != Token::Comma,
    ensures
        st.argument_list().0 == Ok::<Seq<ArgumentType>, Failure>(list),
        leaves(st, st.argument_list().1, rest),
{
    let tail = list.drop_first();
    let after: Seq<Token<'a>> = more_argument_tokens(tail) + rest;
    assert(upcoming(st) =~= argument_tokens(list[0]) + after);
    if tail.len() > 0 {
        assert(after[0] == Token::<'a>::Comma);
    } else {
        assert(after =~= rest);
    }
    lemma_argument_round_trip(st, list[0], after);
    lemma_more_arguments_round_trip(st.argument_type().1, seq![list[0]], tail, rest);
    assert(seq![list[0]] + tail =~= list);
}

/// The arguments of a signature that were written are read again.
proof fn lemma_opt_argument_list_round_trip<'a>(
    st: ParserState<'a>,
    list: Seq<ArgumentType>,
    rest: Seq<Token<'a>>,
)
    requires
        upcoming(st) == argument_list_tokens(list) + rest,
        rest.len() > 0,
        rest[0] == Token::<'a>::RPar,
    ensures
        st.opt_argument_list().0 == Ok::<Seq<ArgumentType>, Failure>(list),
        leaves(st, st.opt_argument_list().1, rest),
{
    law_tokens_in_order(st);
    if list.len() == 0 {
        assert(upcoming(st) =~= rest);
        assert(list =~= seq![]);
    } else {
        lemma_argument_list_round_trip(st.fill(), list, rest);
    }
}

/// The return types of a signature that were written are read again.
proof fn lemma_return_list_round_trip<'a>(
    st: ParserState<'a>,
    list: Seq<ArgumentType>,
    rest: Seq<Token<'a>>,
)
    requires
        upcoming(st) == return_tokens(list) + rest,
        clear_end(st, rest),
        ends(rest),
    ensures
        st.return_list().0 == Ok::<Seq<ArgumentType>, Failure>(list),
        leaves(st, st.return_list().1, rest),
{
    law_tokens_in_order(st);
    if list.len() == 0 {
        assert(upcoming(st) =~= rest);
        assert(list =~= seq![]);
    } else {
        assert(upcoming(st).drop_first() =~= argument_list_tokens(list) + rest);
        lemma_argument_list_round_trip(st.eat(), list, rest);
    }
}

/// A signature that was written is read again, if what follows it cannot be taken for more of it.
pub proof fn law_signature_round_trip<'a>(
    st: ParserState<'a>,
    sig: SignatureModel,
    rest: Seq<Token<'a>>,
)
    requires
        upcoming(st) == signature_tokens(sig) + rest,
        clear_end(st, rest),
        ends(rest),
    ensures
        st.signature().0 == Ok::<SignatureModel, Failure>(sig),
        leaves(st, st.signature().1, rest),
{
    let args: Seq<Token<'a>> = argument_list_tokens(sig.argument_types);
    let outputs: Seq<Token<'a>> = return_tokens(sig.return_types);
    let after_args: Seq<Token<'a>> = seq![Token::RPar] + (outputs + rest);
    assert(upcoming(st) =~= seq![Token::LPar] + (args + after_args));
    law_tokens_in_order(st);
    let s1 = st.eat();
    assert(upcoming(s1) =~= args + after_args);
    lemma_opt_argument_list_round_trip(s1, sig.argument_types, after_args);
    let s2 = s1.opt_argument_list().1;
    law_tokens_in_order(s2);
    let s3 = s2.eat();
    assert(upcoming(s3) =~= outputs + rest);
    lemma_return_list_round_trip(s3, sig.return_types, rest);
}

/// Is the token that of a jump table entry?
pub open spec fn is_entry(token: Token, entry: Option<Ebb>) -> bool {
    match entry {
        Some(dest) => token == Token::Ebb(dest),
        None => token matches Token::Integer(t) && t.text@ == "0"@,
    }
}

/// Are the tokens those of a list of jump table entries, with commas between them?
pub open spec fn are_entries(tokens: Seq<Token>, entries: Seq<Option<Ebb>>) -> bool
    decreases entries.len(),
{
    &&& entries.len() > 0
    &&& tokens.len() > 0
    &&& is_entry(tokens[0], entries[0])
    &&& if entries.len() == 1 {
        tokens.len() == 1
    } else {
        &&& tokens.len() > 2
        &&& tokens[1] == Token::Comma
        &&& are_entries(tokens.skip(2), entries.drop_first())
    }
}

/// The number of entries up to the last that has a destination.
pub open spec fn used_len(entries: Seq<Option<Ebb>>) -> nat
    decreases entries.len(),
{
    if entries.len() == 0 {
        0
    } else if entries.last() is Some {
        entries.len()
    } else {
        used_len(entries.drop_last())
    }
}

/// The jump table with the given entries. It ends with the last entry that has a destination.
pub open(crate) spec fn table_of(entries: Seq<Option<Ebb>>) -> Seq<Ebb> {
    Seq::new(
        used_len(entries),
        |i: int|
            match entries[i] {
                Some(dest) => dest,
                None => Ebb::of(u32::MAX),
            },
    )
}

proof fn lemma_used_len(entries: Seq<Option<Ebb>>)
    ensures
        used_len(entries) <= entries.len(),
    decreases entries.len(),
{
    if entries.len() > 0 {
        lemma_used_len(entries.drop_last());
    }
}

/// One more entry in a jump table.
pub proof fn lemma_table_of(entries: Seq<Option<Ebb>>, entry: Option<Ebb>)
    ensures
        table_of(entries.push(entry)) == (match entry {
            Some(dest) => with_entry(table_of(entries), entries.len(), dest),
            None => table_of(entries),
        }),
{
    let more = entries.push(entry);
    assert(more.drop_last() =~= entries);
    lemma_used_len(entries);
    lemma_unused(entries, used_len(entries) as int);
    match entry {
        Some(dest) => {
            assert(table_of(more) =~= with_entry(table_of(entries), entries.len(), dest));
        },
        None => {
            assert(table_of(more) =~= table_of(entries));
        },
    }
}

/// The entries after the last that has a destination have none.
proof fn lemma_unused(entries: Seq<Option<Ebb>>, from: int)
    requires
        from == used_len(entries),
    ensures
        forall|i: int| from <= i < entries.len() ==> (#[trigger] entries[i]) is None,
    decreases entries.len(),
{
    lemma_used_len(entries);
    if entries.len() > 0 && entries.last() is None {
        lemma_unused(entries.drop_last(), from);
        assert forall|i: int| from <= i < entries.len() implies (#[trigger] entries[i]) is None by {
            if i < entries.len() - 1 {
                assert(entries.drop_last()[i] is None);
            }
        }
    }
}

proof fn lemma_jump_table_entries<'a>(
    st: ParserState<'a>,
    done: Seq<Option<Ebb>>,
    tokens: Seq<Token<'a>>,
    entries: Seq<Option<Ebb>>,
    rest: Seq<Token<'a>>,
)
    requires
        are_entries(tokens, entries),
        upcoming(st) == tokens + rest,
        clear_end(st, rest),
        rest.len() > 0 ==> rest[0] != Token::Comma,
    ensures
        st.jump_table_entries(done.len(), table_of(done)).0 == Ok::<Seq<Ebb>, Failure>(
            table_of(done + entries),
        ),
        leaves(st, st.jump_table_entries(done.len(), table_of(done)).1, rest),
    decreases entries.len(),
{
    law_tokens_in_order(st);
    assert(upcoming(st)[0] == tokens[0]);
    let more = done.push(entries[0]);
    lemma_table_of(done, entries[0]);
    let s = st.eat();
    assert(st.jump_table_entry() == (Ok::<Option<Ebb>, Failure>(entries[0]), s));
    let left = upcoming(st).drop_first();
    law_tokens_in_order(s);
    if entries.len() == 1 {
        assert(left =~= rest);
        assert(done + entries =~= more);
    } else {
        assert(left[0] == tokens[1]);
        let tail = tokens.skip(2);
        let others = entries.drop_first();
        assert(left.drop_first() =~= tail + rest);
        lemma_jump_table_entries(s.eat(), more, tail, others, rest);
        assert(more + others =~= done + entries);
    }
}

/// A list of jump table entries gives the jump table with these entries: an entry "0" leaves its
/// position without a destination, and such entries at the end are left out.
pub proof fn law_jump_table_entries<'a>(
    st: ParserState<'a>,
    tokens: Seq<Token<'a>>,
    entries: Seq<Option<Ebb>>,
    rest: Seq<Token<'a>>,
)
    requires
        are_entries(tokens, entries),
        upcoming(st) == tokens + rest,
        clear_end(st, rest),
        rest.len() > 0 ==> rest[0] != Token::Comma,
    ensures
        st.jump_table_entries(0, seq![]).0 == Ok::<Seq<Ebb>, Failure>(table_of(entries)),
        leaves(st, st.jump_table_entries(0, seq![]).1, rest),
{
    let none: Seq<Option<Ebb>> = seq![];
    assert(table_of(none) =~= seq![]);
    assert(none + entries =~= entries);
    lemma_jump_table_entries(st, none, tokens, entries, rest);
}

} // verus!
