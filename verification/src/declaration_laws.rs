//! Laws of the notation of preambles: the tokens that were read are those of what was read.

use crate::building_laws::{fits, known, lemma_decl_grew, lemma_grew_size, lemma_preamble_grew};
use crate::context::ContextModel;
use crate::entities::{AnyEntity, Ebb, FuncRef, JumpTable, SigRef, StackSlot};
use crate::notation_laws::{flat, is_int, lemma_one_token, lemma_reads, reads};
use crate::preamble_laws::Declaration;
use crate::reading::{lemma_fill, lemma_jump_table_entry, lemma_preamble_decl, ParserState};
use crate::signature_laws::{
    is_word, law_signature_notation, signature_is, source_signature_tokens, SourceSignature,
};
use crate::token::Token;
use crate::token_laws::{are_entries, clean, is_entry, lemma_table_of, table_of};
use vstd::prelude::*;

verus! {

/// Are the tokens, from number `k` on, the notation of this signature?
pub open spec fn signature_at(
    tokens: Seq<Token>,
    k: int,
    sig: crate::function::SignatureModel,
) -> bool {
    exists|source: SourceSignature| #[trigger]
        signature_is(source, sig) && tokens.skip(k) == source_signature_tokens(source)
}

/// Are the tokens, from number `k` on, the notation of the entries of this jump table?
pub open(crate) spec fn table_at(tokens: Seq<Token>, k: int, table: Seq<Ebb>) -> bool {
    exists|entries: Seq<Option<Ebb>>| #[trigger]
        are_entries(tokens.skip(k), entries) && table == table_of(entries)
}

/// Are the tokens the notation of this declaration?
pub open(crate) spec fn declaration_written(tokens: Seq<Token>, decl: Declaration) -> bool {
    match decl {
        Declaration::StackSlot(n, data) => {
            &&& tokens.len() == 4
            &&& tokens[0] == Token::StackSlot(n)
            &&& tokens[1] == Token::Equal
            &&& is_word(tokens[2], "stack_slot"@)
            &&& is_int(tokens[3], data.size as i64)
        },
        Declaration::Signature(n, sig) => {
            &&& tokens.len() > 3
            &&& tokens[0] == Token::SigRef(n)
            &&& tokens[1] == Token::Equal
            &&& is_word(tokens[2], "signature"@)
            &&& signature_at(tokens, 3, sig)
        },
        Declaration::Function(n, name, sig) => {
            &&& tokens.len() > 4
            &&& tokens[0] == Token::FuncRef(n)
            &&& tokens[1] == Token::Equal
            &&& is_word(tokens[2], "function"@)
            &&& tokens[3] == Token::Identifier(name)
            &&& signature_at(tokens, 4, sig)
        },
        Declaration::Import(n, name, src) => {
            &&& tokens.len() == 4
            &&& tokens[0] == Token::FuncRef(n)
            &&& tokens[1] == Token::Equal
            &&& tokens[2] == Token::SigRef(src)
            &&& tokens[3] == Token::Identifier(name)
        },
        Declaration::JumpTable(n, table) => {
            &&& tokens.len() > 3
            &&& tokens[0] == Token::JumpTable(n)
            &&& tokens[1] == Token::Equal
            &&& is_word(tokens[2], "jump_table"@)
            &&& table_at(tokens, 3, table)
        },
    }
}

proof fn lemma_slot_written<'a>(st: ParserState<'a>) -> (tokens: Seq<Token<'a>>)
    requires
        clean(st.items),
    ensures
        st.stack_slot_decl().0 matches Ok((n, data)) ==> declaration_written(
            tokens,
            Declaration::StackSlot(n, data),
        ) && reads(st, tokens, st.stack_slot_decl().1),
{
    broadcast use lemma_one_token;

    if let (Ok((n, data)), end) = st.stack_slot_decl() {
        let s1 = st.match_ss("expected stack slot number: ss«n»"@).1;
        let s2 = s1.expect(Token::Equal, "expected '=' in stack_slot decl"@).1;
        let s3 = s2.expect_word("stack_slot"@, "expected 'stack_slot'"@).1;
        let word = s2.peek()->0;
        let size = s3.peek()->0;
        lemma_reads(st, seq![Token::StackSlot(n)], s1, seq![Token::Equal], s2);
        let two = seq![Token::StackSlot(n)] + seq![Token::Equal];
        lemma_reads(st, two, s2, seq![word], s3);
        lemma_reads(st, two + seq![word], s3, seq![size], end);
        two + seq![word] + seq![size]
    } else {
        seq![]
    }
}

proof fn lemma_signature_decl_written<'a>(st: ParserState<'a>) -> (tokens: Seq<Token<'a>>)
    requires
        clean(st.items),
    ensures
        st.signature_decl().0 matches Ok((n, sig)) ==> declaration_written(
            tokens,
            Declaration::Signature(n, sig),
        ) && reads(st, tokens, st.signature_decl().1),
{
    broadcast use lemma_one_token;

    if let (Ok((n, sig)), end) = st.signature_decl() {
        let s1 = st.match_sig("expected signature number: sig«n»"@).1;
        let s2 = s1.expect(Token::Equal, "expected '=' in signature decl"@).1;
        let s3 = s2.expect_word("signature"@, "expected 'signature'"@).1;
        let word = s2.peek()->0;
        let source = law_signature_notation(s3);
        let rest = source_signature_tokens(source);
        lemma_reads(st, seq![Token::SigRef(n)], s1, seq![Token::Equal], s2);
        let two = seq![Token::SigRef(n)] + seq![Token::Equal];
        lemma_reads(st, two, s2, seq![word], s3);
        lemma_reads(st, two + seq![word], s3, rest, end);
        let tokens = two + seq![word] + rest;
        assert(tokens.skip(3) =~= rest);
        assert(signature_is(source, sig));
        tokens
    } else {
        seq![]
    }
}

proof fn lemma_function_decl_written<'a>(
    st: ParserState<'a>,
    ctx: ContextModel<'a>,
) -> (tokens: Seq<Token<'a>>)
    requires
        clean(st.items),
        st.function_decl(ctx).0 is Ok,
    ensures
        ({
            let s1 = st.match_fn("expected function number: fn«n»"@).1;
            let s2 = s1.expect(Token::Equal, "expected '=' in function decl"@).1;
            let n = st.function_decl(ctx).0->Ok_0.0;
            &&& s2.callee_text(n) is Some
            &&& declaration_written(tokens, s2.callee_text(n)->0)
            &&& reads(st, tokens, st.function_decl(ctx).1)
        }),
{
    broadcast use lemma_one_token;

    let (n, data, after) = st.function_decl(ctx).0->Ok_0;
    let end = st.function_decl(ctx).1;
    let s1 = st.match_fn("expected function number: fn«n»"@).1;
    let s2 = s1.expect(Token::Equal, "expected '=' in function decl"@).1;
    lemma_reads(st, seq![Token::FuncRef(n)], s1, seq![Token::Equal], s2);
    let two = seq![Token::FuncRef(n)] + seq![Token::Equal];
    if s2.at_word("function"@) {
        let s = s2.fill();
        lemma_fill(s2);
        let s3 = s.expect_word("function"@, "expected 'function'"@).1;
        let word = s2.peek()->0;
        let name = s3.peek()->0;
        let s4 = s3.eat();
        let source = law_signature_notation(s4);
        let sig = s4.signature().0->Ok_0;
        let rest = source_signature_tokens(source);
        lemma_reads(st, two, s2, seq![word], s3);
        lemma_reads(st, two + seq![word], s3, seq![name], s4);
        lemma_reads(st, two + seq![word] + seq![name], s4, rest, end);
        let tokens = two + seq![word] + seq![name] + rest;
        assert(tokens.skip(4) =~= rest);
        assert(signature_is(source, sig));
        tokens
    } else {
        let src = s2.peek()->0;
        let s3 = s2.eat();
        let name = s3.peek()->0;
        lemma_reads(st, two, s2, seq![src], s3);
        lemma_reads(st, two + seq![src], s3, seq![name], end);
        two + seq![src] + seq![name]
    }
}

proof fn lemma_entries_written<'a>(
    st: ParserState<'a>,
    done: Seq<Option<Ebb>>,
) -> (r: (Seq<Token<'a>>, Seq<Option<Ebb>>))
    requires
        clean(st.items),
    ensures
        st.jump_table_entries(done.len(), table_of(done)).0 matches Ok(table) ==> {
            &&& are_entries(r.0, r.1)
            &&& table == table_of(done + r.1)
            &&& reads(st, r.0, st.jump_table_entries(done.len(), table_of(done)).1)
        },
    decreases st.remaining(),
{
    broadcast use {lemma_fill, lemma_one_token, lemma_jump_table_entry};

    if let (Ok(entry), s) = st.jump_table_entry() {
        let token = st.peek()->0;
        let more_done = done.push(entry);
        lemma_table_of(done, entry);
        let (more, s2) = s.optional(Token::Comma);
        if more {
            let (tokens, entries) = lemma_entries_written(s2, more_done);
            let all = seq![token, Token::Comma] + tokens;
            let list = seq![entry] + entries;
            if let (Ok(table), end) = s2.jump_table_entries(more_done.len(), table_of(more_done)) {
                assert(all.skip(2) =~= tokens);
                assert(list.drop_first() =~= entries);
                assert(more_done + entries =~= done + list);
                lemma_reads(st, seq![token], s, seq![Token::Comma], s2);
                lemma_reads(st, seq![token] + seq![Token::Comma], s2, tokens, end);
                assert(seq![token] + seq![Token::Comma] + tokens =~= all);
                assert(is_entry(all[0], list[0]));
            }
            (all, list)
        } else {
            lemma_reads(st, seq![token], s, seq![], s2);
            assert(seq![token] + seq![] =~= seq![token]);
            assert(done + seq![entry] =~= more_done);
            (seq![token], seq![entry])
        }
    } else {
        (seq![], seq![])
    }
}

proof fn lemma_table_written<'a>(st: ParserState<'a>) -> (tokens: Seq<Token<'a>>)
    requires
        clean(st.items),
    ensures
        st.jump_table_decl().0 matches Ok((n, table)) ==> declaration_written(
            tokens,
            Declaration::JumpTable(n, table),
        ) && reads(st, tokens, st.jump_table_decl().1),
{
    broadcast use lemma_one_token;

    if let (Ok((n, table)), end) = st.jump_table_decl() {
        let s1 = st.match_jt().1;
        let s2 = s1.expect(Token::Equal, "expected '=' in jump_table decl"@).1;
        let s3 = s2.expect_word("jump_table"@, "expected 'jump_table'"@).1;
        let word = s2.peek()->0;
        let none: Seq<Option<Ebb>> = seq![];
        assert(table_of(none) =~= seq![]);
        let (rest, entries) = lemma_entries_written(s3, none);
        assert(none + entries =~= entries);
        lemma_reads(st, seq![Token::JumpTable(n)], s1, seq![Token::Equal], s2);
        let two = seq![Token::JumpTable(n)] + seq![Token::Equal];
        lemma_reads(st, two, s2, seq![word], s3);
        lemma_reads(st, two + seq![word], s3, rest, end);
        let tokens = two + seq![word] + rest;
        assert(tokens.skip(3) =~= rest);
        assert(are_entries(tokens.skip(3), entries));
        tokens
    } else {
        seq![]
    }
}

/// The tokens that were read for a declaration are the notation of what it says.
pub proof fn law_declaration_notation<'a>(
    st: ParserState<'a>,
    ctx: ContextModel<'a>,
) -> (tokens: Seq<Token<'a>>)
    requires
        clean(st.items),
        st.preamble_decl(ctx).0 is Some,
        st.preamble_decl(ctx).0->0 is Ok,
    ensures
        st.declaration(ctx) is Some,
        declaration_written(tokens, st.declaration(ctx)->0),
        reads(st, tokens, st.preamble_decl(ctx).1),
{
    broadcast use {lemma_fill, lemma_one_token};

    let f = ctx.function;
    let filled = st.fill();
    let end = st.preamble_decl(ctx).1;
    let (s, tokens) = match st.peek() {
        Some(Token::StackSlot(_)) => {
            let entity = StackSlot::of(f.stack_slots.len() as u32);
            let s = filled.gather(AnyEntity::StackSlot(entity));
            (s, lemma_slot_written(s))
        },
        Some(Token::SigRef(_)) => {
            let entity = SigRef::of(f.signatures.len() as u32);
            let s = filled.gather(AnyEntity::SigRef(entity));
            (s, lemma_signature_decl_written(s))
        },
        Some(Token::FuncRef(_)) => {
            let entity = FuncRef::of(f.ext_funcs.len() as u32);
            let s = filled.gather(AnyEntity::FuncRef(entity));
            (s, lemma_function_decl_written(s, ctx))
        },
        _ => {
            let entity = JumpTable::of(f.jump_tables.len() as u32);
            let s = filled.gather(AnyEntity::JumpTable(entity));
            (s, lemma_table_written(s))
        },
    };
    assert(reads(st, seq![], s));
    lemma_reads(st, seq![], s, tokens, end);
    assert(seq![] + tokens =~= tokens);
    tokens
}

/// Are these the notations of the declarations, in their order?
pub open(crate) spec fn declarations_written(
    tokens: Seq<Seq<Token>>,
    decls: Seq<Declaration>,
) -> bool {
    &&& tokens.len() == decls.len()
    &&& forall|k: int| 0 <= k < decls.len() ==> declaration_written(tokens[k], #[trigger] decls[k])
}

/// The tokens that were read for a preamble are the notations of its declarations, in their order.
pub proof fn law_preamble_notation<'a>(
    st: ParserState<'a>,
    ctx: ContextModel<'a>,
) -> (tokens: Seq<Seq<Token<'a>>>)
    requires
        clean(st.items),
        st.preamble(ctx).0 is Ok,
    ensures
        declarations_written(tokens, st.declarations(ctx)),
        reads(st, flat(tokens), st.preamble(ctx).1),
    decreases st.remaining(),
{
    broadcast use {lemma_preamble_decl, lemma_one_token};

    if let (Some(Ok(next)), s) = st.preamble_decl(ctx) {
        let first = law_declaration_notation(st, ctx);
        let rest = law_preamble_notation(s, next);
        let tokens = seq![first] + rest;
        let decls = st.declarations(ctx);
        assert(tokens.drop_first() =~= rest);
        lemma_reads(st, first, s, flat(rest), st.preamble(ctx).1);
        assert forall|k: int| 0 <= k < decls.len() implies declaration_written(
            tokens[k],
            #[trigger] decls[k],
        ) by {
            if k > 0 {
                assert(decls[k] == s.declarations(next)[k - 1]);
            }
        }
        tokens
    } else {
        seq![]
    }
}

/// Source numbers stand for entities of the function after a declaration.
proof fn lemma_decl_known<'a>(st: ParserState<'a>, ctx: ContextModel<'a>)
    requires
        known(ctx),
    ensures
        st.preamble_decl(ctx).0 matches Some(Ok(after)) ==> {
            &&& after.function.ebbs == ctx.function.ebbs
            &&& after.function.insts == ctx.function.insts
            &&& fits(after.function) ==> known(after)
        },
{
    lemma_decl_grew(st, ctx);
}

/// Source numbers stand for entities of the function after a preamble. It adds no blocks and no
/// instructions.
pub proof fn lemma_preamble_known<'a>(st: ParserState<'a>, ctx: ContextModel<'a>)
    requires
        known(ctx),
        st.preamble(ctx).0 is Ok,
        fits(st.preamble(ctx).0->Ok_0.function),
    ensures
        known(st.preamble(ctx).0->Ok_0),
        st.preamble(ctx).0->Ok_0.function.ebbs == ctx.function.ebbs,
        st.preamble(ctx).0->Ok_0.function.insts == ctx.function.insts,
    decreases st.remaining(),
{
    broadcast use lemma_preamble_decl;

    if let (Some(Ok(next)), s) = st.preamble_decl(ctx) {
        lemma_decl_known(st, ctx);
        lemma_preamble_grew(s, next);
        lemma_grew_size(next, st.preamble(ctx).0->Ok_0);
        lemma_preamble_known(s, next);
    }
}

} // verus!
