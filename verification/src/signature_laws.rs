//! Laws of the notation of signatures: the tokens that were read are those of what was read.

use crate::function::{list_text, ArgumentExtension, ArgumentType, SignatureModel};
use crate::notation_laws::{lemma_one_token, lemma_reads, reads};
use crate::reading::{lemma_argument_type, lemma_fill, ParserState};
use crate::token::Token;
use crate::token_laws::clean;
use vstd::prelude::*;

verus! {

/// Is the token this word?
pub open spec fn is_word(token: Token, word: Seq<char>) -> bool {
    token matches Token::Identifier(text) && text@ == word
}

/// The extension that a flag asks for.
pub open spec fn extension_in(token: Token) -> Option<ArgumentExtension> {
    if is_word(token, "uext"@) {
        Some(ArgumentExtension::Uext)
    } else if is_word(token, "sext"@) {
        Some(ArgumentExtension::Sext)
    } else {
        None
    }
}

/// Is this the last flag that asks for an extension?
pub open spec fn is_last_extension(flags: Seq<Token>, i: int) -> bool {
    &&& 0 <= i < flags.len()
    &&& extension_in(flags[i]) is Some
    &&& forall|j: int| i < j < flags.len() ==> extension_in(#[trigger] flags[j]) is None
}

/// Do the flags make the one argument type of the other? The last extension counts, and one "inreg"
/// is enough.
pub open spec fn flags_say(before: ArgumentType, flags: Seq<Token>, after: ArgumentType) -> bool {
    &&& after.value_type == before.value_type
    &&& forall|i: int|
        0 <= i < flags.len() ==> extension_in(#[trigger] flags[i]) is Some || is_word(
            flags[i],
            "inreg"@,
        )
    &&& after.inreg <==> before.inreg || exists|i: int|
        0 <= i < flags.len() && is_word(#[trigger] flags[i], "inreg"@)
    &&& forall|i: int| #[trigger]
        is_last_extension(flags, i) ==> Some(after.extension) == extension_in(flags[i])
    &&& (forall|i: int| 0 <= i < flags.len() ==> extension_in(#[trigger] flags[i]) is None)
        ==> after.extension == before.extension
}

/// Are the tokens the notation of this argument type? Its type comes first, then its flags.
pub open spec fn argument_written(tokens: Seq<Token>, arg: ArgumentType) -> bool {
    &&& tokens.len() > 0
    &&& tokens[0] == Token::Type(arg.value_type)
    &&& flags_say(
        ArgumentType {
            value_type: arg.value_type,
            extension: ArgumentExtension::Plain,
            inreg: false,
        },
        tokens.skip(1),
        arg,
    )
}

proof fn lemma_words_differ()
    ensures
        "uext"@ != "sext"@,
        "uext"@ != "inreg"@,
        "sext"@ != "inreg"@,
{
    reveal_strlit("uext");
    reveal_strlit("sext");
    reveal_strlit("inreg");
    assert("uext"@[0] != "sext"@[0]);
    assert("uext"@.len() != "inreg"@.len());
    assert("sext"@.len() != "inreg"@.len());
}

/// One more flag in front.
proof fn lemma_flags_say(
    before: ArgumentType,
    flag: Token,
    mid: ArgumentType,
    flags: Seq<Token>,
    after: ArgumentType,
)
    requires
        flags_say(mid, flags, after),
        mid.value_type == before.value_type,
        match extension_in(flag) {
            Some(extension) => mid.extension == extension && mid.inreg == before.inreg && !is_word(
                flag,
                "inreg"@,
            ),
            None => is_word(flag, "inreg"@) && mid.inreg && mid.extension == before.extension,
        },
    ensures
        flags_say(before, seq![flag] + flags, after),
{
    let all = seq![flag] + flags;
    assert forall|i: int| 0 <= i < all.len() implies extension_in(#[trigger] all[i]) is Some
        || is_word(all[i], "inreg"@) by {
        if i > 0 {
            assert(all[i] == flags[i - 1]);
        }
    }
    if after.inreg && !before.inreg {
        if mid.inreg {
            assert(is_word(all[0], "inreg"@));
        } else {
            let i = choose|i: int| 0 <= i < flags.len() && is_word(#[trigger] flags[i], "inreg"@);
            assert(is_word(all[i + 1], "inreg"@));
        }
    }
    if exists|i: int| 0 <= i < all.len() && is_word(#[trigger] all[i], "inreg"@) {
        let i = choose|i: int| 0 <= i < all.len() && is_word(#[trigger] all[i], "inreg"@);
        if i > 0 {
            assert(is_word(flags[i - 1], "inreg"@));
        }
    }
    assert forall|i: int| #[trigger] is_last_extension(all, i) implies Some(after.extension)
        == extension_in(all[i]) by {
        assert forall|j: int| i - 1 < j < flags.len() && 0 <= j implies extension_in(
            #[trigger] flags[j],
        ) is None by {
            assert(all[j + 1] == flags[j]);
        }
        if i > 0 {
            assert(all[i] == flags[i - 1]);
            assert(is_last_extension(flags, i - 1));
        }
    }
    if forall|i: int| 0 <= i < all.len() ==> extension_in(#[trigger] all[i]) is None {
        assert(extension_in(all[0]) is None);
        assert forall|i: int| 0 <= i < flags.len() implies extension_in(
            #[trigger] flags[i],
        ) is None by {
            assert(all[i + 1] == flags[i]);
        }
    }
}

proof fn lemma_flags_written<'a>(st: ParserState<'a>, arg: ArgumentType) -> (flags: Seq<Token<'a>>)
    requires
        clean(st.items),
    ensures
        reads(st, flags, st.flags(arg).1),
        flags_say(arg, flags, st.flags(arg).0),
    decreases st.remaining(),
{
    broadcast use {lemma_fill, lemma_one_token};

    lemma_words_differ();
    let s = st.eat();
    if st.at_word("uext"@) || st.at_word("sext"@) || st.at_word("inreg"@) {
        let flag = st.peek()->0;
        let mid = if st.at_word("uext"@) {
            ArgumentType { extension: ArgumentExtension::Uext, ..arg }
        } else if st.at_word("sext"@) {
            ArgumentType { extension: ArgumentExtension::Sext, ..arg }
        } else {
            ArgumentType { inreg: true, ..arg }
        };
        let tail = lemma_flags_written(s, mid);
        lemma_reads(st, seq![flag], s, tail, st.flags(arg).1);
        lemma_flags_say(arg, flag, mid, tail, st.flags(arg).0);
        seq![flag] + tail
    } else {
        seq![]
    }
}

/// The tokens that were read for an argument type are the notation of what was read.
pub proof fn law_argument_notation<'a>(st: ParserState<'a>) -> (tokens: Seq<Token<'a>>)
    requires
        clean(st.items),
    ensures
        st.argument_type().0 matches Ok(arg) ==> argument_written(tokens, arg) && reads(
            st,
            tokens,
            st.argument_type().1,
        ),
{
    broadcast use {lemma_fill, lemma_one_token};

    if let (Ok(value_type), s) = st.match_type("expected argument type"@) {
        let plain = ArgumentType {
            value_type,
            extension: ArgumentExtension::Plain,
            inreg: false,
        };
        let flags = lemma_flags_written(s, plain);
        let tokens = seq![Token::Type(value_type)] + flags;
        lemma_reads(st, seq![Token::Type(value_type)], s, flags, s.flags(plain).1);
        assert(tokens.skip(1) =~= flags);
        tokens
    } else {
        seq![]
    }
}

/// An argument type in a text, with its tokens.
pub struct SourceArgument<'a> {
    pub arg: ArgumentType,
    pub tokens: Seq<Token<'a>>,
}

/// Are these the argument types of a list, each with its notation?
pub open spec fn arguments_written<'a>(
    source: Seq<SourceArgument<'a>>,
    list: Seq<ArgumentType>,
) -> bool {
    &&& source.len() == list.len()
    &&& forall|k: int|
        0 <= k < source.len() ==> (#[trigger] source[k]).arg == list[k] && argument_written(
            source[k].tokens,
            source[k].arg,
        )
}

/// The tokens of some argument types, with a comma before each.
pub open spec fn comma_arguments<'a>(source: Seq<SourceArgument<'a>>) -> Seq<Token<'a>>
    decreases source.len(),
{
    if source.len() == 0 {
        seq![]
    } else {
        seq![Token::Comma] + source[0].tokens + comma_arguments(source.drop_first())
    }
}

/// The tokens of a list of argument types, with commas between them.
pub open spec fn arguments_tokens<'a>(source: Seq<SourceArgument<'a>>) -> Seq<Token<'a>> {
    if source.len() == 0 {
        seq![]
    } else {
        source[0].tokens + comma_arguments(source.drop_first())
    }
}

proof fn lemma_more_arguments_written<'a>(
    st: ParserState<'a>,
    list: Seq<ArgumentType>,
) -> (source: Seq<SourceArgument<'a>>)
    requires
        clean(st.items),
    ensures
        st.more_arguments(list).0 matches Ok(all) ==> {
            &&& all.len() == list.len() + source.len()
            &&& all.take(list.len() as int) == list
            &&& arguments_written(source, all.skip(list.len() as int))
            &&& reads(st, comma_arguments(source), st.more_arguments(list).1)
        },
    decreases st.remaining(),
{
    broadcast use {lemma_fill, lemma_one_token};

    let (more, s) = st.optional(Token::Comma);
    if more {
        lemma_argument_type(s);
        let tokens = law_argument_notation(s);
        if let (Ok(arg), s2) = s.argument_type() {
            let tail = lemma_more_arguments_written(s2, list.push(arg));
            let source = seq![SourceArgument { arg, tokens }] + tail;
            assert(source.drop_first() =~= tail);
            if let (Ok(all), end) = s2.more_arguments(list.push(arg)) {
                lemma_reads(st, seq![Token::Comma], s, tokens, s2);
                lemma_reads(
                    st,
                    seq![Token::Comma] + tokens,
                    s2,
                    comma_arguments(tail),
                    end,
                );
                let n = list.len() as int;
                assert(all.take(n + 1)[n] == arg);
                assert(all.take(n) =~= all.take(n + 1).take(n));
                assert(list.push(arg).take(n) =~= list);
                assert forall|k: int| 0 <= k < source.len() implies (#[trigger] source[k]).arg
                    == all.skip(n)[k] && argument_written(source[k].tokens, source[k].arg) by {
                    if k > 0 {
                        assert(source[k] == tail[k - 1]);
                        assert(all.skip(n)[k] == all.skip(n + 1)[k - 1]);
                    }
                }
            }
            source
        } else {
            seq![]
        }
    } else {
        assert(list.take(list.len() as int) =~= list);
        seq![]
    }
}

proof fn lemma_argument_list_written<'a>(
    st: ParserState<'a>,
) -> (source: Seq<SourceArgument<'a>>)
    requires
        clean(st.items),
    ensures
        st.argument_list().0 matches Ok(list) ==> {
            &&& list.len() > 0
            &&& arguments_written(source, list)
            &&& reads(st, arguments_tokens(source), st.argument_list().1)
        },
{
    let tokens = law_argument_notation(st);
    if let (Ok(arg), s) = st.argument_type() {
        let tail = lemma_more_arguments_written(s, seq![arg]);
        let source = seq![SourceArgument { arg, tokens }] + tail;
        assert(source.drop_first() =~= tail);
        if let (Ok(list), end) = s.more_arguments(seq![arg]) {
            lemma_reads(st, tokens, s, comma_arguments(tail), end);
            assert(list.take(1)[0] == arg);
            assert forall|k: int| 0 <= k < source.len() implies (#[trigger] source[k]).arg
                == list[k] && argument_written(source[k].tokens, source[k].arg) by {
                if k > 0 {
                    assert(source[k] == tail[k - 1]);
                    assert(list[k] == list.skip(1)[k - 1]);
                }
            }
        }
        source
    } else {
        seq![]
    }
}

/// A signature in a text: its argument types and its return types, with their tokens.
pub struct SourceSignature<'a> {
    pub args: Seq<SourceArgument<'a>>,
    pub outputs: Seq<SourceArgument<'a>>,
}

/// The tokens of a signature.
pub open spec fn source_signature_tokens<'a>(source: SourceSignature<'a>) -> Seq<Token<'a>> {
    seq![Token::LPar] + arguments_tokens(source.args) + seq![Token::RPar]
        + if source.outputs.len() == 0 {
        seq![]
    } else {
        seq![Token::Arrow] + arguments_tokens(source.outputs)
    }
}

/// Is this the signature that the text says? It has the argument types that stand in parentheses, and
/// the return types that stand after the arrow, in their order.
pub open spec fn signature_is(source: SourceSignature, sig: SignatureModel) -> bool {
    &&& arguments_written(source.args, sig.argument_types)
    &&& arguments_written(source.outputs, sig.return_types)
}

/// The tokens that were read for a signature are the notation of what was read.
pub proof fn law_signature_notation<'a>(st: ParserState<'a>) -> (source: SourceSignature<'a>)
    requires
        clean(st.items),
    ensures
        st.signature().0 matches Ok(sig) ==> signature_is(source, sig) && reads(
            st,
            source_signature_tokens(source),
            st.signature().1,
        ),
{
    broadcast use {lemma_fill, lemma_one_token};

    if let (Ok(sig), end) = st.signature() {
        let s1 = st.expect(Token::LPar, "expected function signature: ( args... )"@).1;
        let s2 = s1.opt_argument_list().1;
        let s3 = s2.expect(Token::RPar, "expected ')' after function arguments"@).1;
        let args = if s1.peek() == Some(Token::<'a>::RPar) {
            seq![]
        } else {
            lemma_argument_list_written(s1.fill())
        };
        assert(reads(s1, arguments_tokens(args), s2)) by {
            if s1.peek() != Some(Token::<'a>::RPar) {
                lemma_reads(s1, seq![], s1.fill(), arguments_tokens(args), s2);
                assert(seq![] + arguments_tokens(args) =~= arguments_tokens(args));
            }
        }
        let (arrow, s4) = s3.optional(Token::Arrow);
        let outputs = if arrow {
            lemma_argument_list_written(s4)
        } else {
            seq![]
        };
        let source = SourceSignature { args, outputs };
        let w = seq![Token::<'a>::LPar];
        let x = arguments_tokens(args);
        let y = seq![Token::<'a>::RPar];
        lemma_reads(st, w, s1, x, s2);
        lemma_reads(st, w + x, s2, y, s3);
        if arrow {
            let z = seq![Token::<'a>::Arrow];
            lemma_reads(s3, z, s4, arguments_tokens(outputs), end);
            lemma_reads(st, w + x + y, s3, z + arguments_tokens(outputs), end);
        } else {
            lemma_reads(st, w + x + y, s3, seq![], end);
        }
        source
    } else {
        SourceSignature { args: seq![], outputs: seq![] }
    }
}

/// In the notation of a list of argument types, ", " stands between the notations of its parts.
pub proof fn law_list_text(a: Seq<ArgumentType>, b: Seq<ArgumentType>)
    requires
        a.len() > 0,
        b.len() > 0,
    ensures
        list_text(a + b) == list_text(a) + ", "@ + list_text(b),
        b.len() == 1 ==> list_text(b) == b[0].text(),
    decreases b.len(),
{
    let all = a + b;
    let most = b.drop_last();
    assert(all.last() == b.last());
    if b.len() == 1 {
        assert(all.drop_last() =~= a);
    } else {
        assert(all.drop_last() =~= a + most);
        law_list_text(a, most);
        assert(list_text(all) =~= list_text(a) + ", "@ + list_text(b));
    }
}

/// The notation of an argument type without flags is that of its type. Each flag adds its word, the
/// extension before "inreg".
pub proof fn law_argument_text(arg: ArgumentType)
    ensures
        (ArgumentType { extension: ArgumentExtension::Plain, inreg: false, ..arg }).text()
            == arg.value_type.text(),
        (ArgumentType { extension: ArgumentExtension::Uext, inreg: false, ..arg }).text()
            == arg.value_type.text() + " uext"@,
        (ArgumentType { extension: ArgumentExtension::Sext, inreg: false, ..arg }).text()
            == arg.value_type.text() + " sext"@,
        (ArgumentType { inreg: true, ..arg }).text() == (ArgumentType {
            inreg: false,
            ..arg
        }).text() + " inreg"@,
{
    reveal_strlit("");
    assert(""@ =~= seq![]);
    let plain = ArgumentType { extension: ArgumentExtension::Plain, inreg: false, ..arg };
    assert(plain.text() =~= arg.value_type.text());
    let uext = ArgumentType { extension: ArgumentExtension::Uext, inreg: false, ..arg };
    assert(uext.text() =~= arg.value_type.text() + " uext"@);
    let sext = ArgumentType { extension: ArgumentExtension::Sext, inreg: false, ..arg };
    assert(sext.text() =~= arg.value_type.text() + " sext"@);
    let inreg = ArgumentType { inreg: true, ..arg };
    let not_inreg = ArgumentType { inreg: false, ..arg };
    assert(inreg.text() =~= not_inreg.text() + " inreg"@);
}

/// The notation of a signature is its argument types in parentheses. Return types follow after an
/// arrow.
pub proof fn law_signature_text(args: Seq<ArgumentType>, outputs: Seq<ArgumentType>)
    ensures
        (SignatureModel { argument_types: args, return_types: seq![] }).text() == "("@ + list_text(
            args,
        ) + ")"@,
        outputs.len() > 0 ==> (SignatureModel {
            argument_types: args,
            return_types: outputs,
        }).text() == (SignatureModel { argument_types: args, return_types: seq![] }).text()
            + " -> "@ + list_text(outputs),
        list_text(seq![]) == Seq::<char>::empty(),
{
}

} // verus!
