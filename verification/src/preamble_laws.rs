//! Laws of whole preambles.

use crate::context::ContextModel;
use crate::entities::{AnyEntity, Ebb, FuncRef, JumpTable, SigRef, StackSlot};
use crate::function::{ExtFuncData, SignatureModel, StackSlotData};
use crate::reading::{lemma_preamble_decl, sig_in, ParserState};
use crate::token::Token;
use vstd::prelude::*;

verus! {

/// What a declaration in a preamble says.
pub enum Declaration<'a> {
    /// A stack slot, with its source number.
    StackSlot(u32, StackSlotData),
    /// A signature, with its source number.
    Signature(u32, SignatureModel),
    /// An external function that comes with its signature: its source number and its name.
    Function(u32, &'a str, SignatureModel),
    /// An external function with a signature that was declared before: its source number, its
    /// name, and the source number of the signature.
    Import(u32, &'a str, u32),
    /// A jump table, with its source number.
    JumpTable(u32, Seq<Ebb>),
}

impl<'a> ParserState<'a> {
    /// What the text after "fn«number» =" says.
    pub open(crate) spec fn callee_text(self, number: u32) -> Option<Declaration<'a>> {
        if self.at_word("function"@) {
            match self.fill().function_spec().0 {
                Ok((_, name, sig)) => Some(Declaration::Function(number, name, sig)),
                Err(_) => None,
            }
        } else {
            match sig_in(self.peek()) {
                Some(src) => match self.eat().function_name().0 {
                    Ok(name) => Some(Declaration::Import(number, name, src)),
                    Err(_) => None,
                },
                None => None,
            }
        }
    }

    /// What the next declaration of a preamble says, if it is well-formed.
    pub open(crate) spec fn declaration(self, ctx: ContextModel<'a>) -> Option<Declaration<'a>> {
        let f = ctx.function;
        let s = self.fill();
        match self.peek() {
            Some(Token::StackSlot(_)) => {
                let entity = StackSlot::of(f.stack_slots.len() as u32);
                match s.gather(AnyEntity::StackSlot(entity)).stack_slot_decl().0 {
                    Ok((number, data)) => Some(Declaration::StackSlot(number, data)),
                    Err(_) => None,
                }
            },
            Some(Token::SigRef(_)) => {
                let entity = SigRef::of(f.signatures.len() as u32);
                match s.gather(AnyEntity::SigRef(entity)).signature_decl().0 {
                    Ok((number, data)) => Some(Declaration::Signature(number, data)),
                    Err(_) => None,
                }
            },
            Some(Token::FuncRef(_)) => {
                let entity = FuncRef::of(f.ext_funcs.len() as u32);
                match s.gather(AnyEntity::FuncRef(entity)).match_fn(
                    "expected function number: fn«n»"@,
                ) {
                    (Ok(number), s) => s.expect(
                        Token::Equal,
                        "expected '=' in function decl"@,
                    ).1.callee_text(number),
                    (Err(_), _) => None,
                }
            },
            Some(Token::JumpTable(_)) => {
                let entity = JumpTable::of(f.jump_tables.len() as u32);
                match s.gather(AnyEntity::JumpTable(entity)).jump_table_decl().0 {
                    Ok((number, table)) => Some(Declaration::JumpTable(number, table)),
                    Err(_) => None,
                }
            },
            _ => None,
        }
    }

    /// The declarations of a preamble, in their order, up to an error.
    pub open(crate) spec fn declarations(self, ctx: ContextModel<'a>) -> Seq<Declaration<'a>>
        decreases self.remaining(),
    {
        proof {
            lemma_preamble_decl(self, ctx);
        }
        match self.preamble_decl(ctx) {
            (Some(Ok(after)), s) => seq![self.declaration(ctx)->0] + s.declarations(after),
            _ => seq![],
        }
    }
}

/// The stack slots among the declarations.
pub open spec fn slots_in(decls: Seq<Declaration>) -> Seq<(Option<u32>, StackSlotData)>
    decreases decls.len(),
{
    if decls.len() == 0 {
        seq![]
    } else {
        match decls.last() {
            Declaration::StackSlot(n, data) => slots_in(decls.drop_last()).push((Some(n), data)),
            _ => slots_in(decls.drop_last()),
        }
    }
}

/// The signatures among the declarations. That of an external function has no number.
pub open spec fn signatures_in(decls: Seq<Declaration>) -> Seq<(Option<u32>, SignatureModel)>
    decreases decls.len(),
{
    if decls.len() == 0 {
        seq![]
    } else {
        match decls.last() {
            Declaration::Signature(n, data) => signatures_in(decls.drop_last()).push(
                (Some(n), data),
            ),
            Declaration::Function(_, _, data) => signatures_in(decls.drop_last()).push(
                (None, data),
            ),
            _ => signatures_in(decls.drop_last()),
        }
    }
}

/// The external functions among the declarations, by name.
pub open spec fn functions_in<'a>(decls: Seq<Declaration<'a>>) -> Seq<(Option<u32>, &'a str)>
    decreases decls.len(),
{
    if decls.len() == 0 {
        seq![]
    } else {
        match decls.last() {
            Declaration::Function(n, name, _) => functions_in(decls.drop_last()).push(
                (Some(n), name),
            ),
            Declaration::Import(n, name, _) => functions_in(decls.drop_last()).push(
                (Some(n), name),
            ),
            _ => functions_in(decls.drop_last()),
        }
    }
}

/// The jump tables among the declarations.
pub open spec fn tables_in(decls: Seq<Declaration>) -> Seq<(Option<u32>, Seq<Ebb>)>
    decreases decls.len(),
{
    if decls.len() == 0 {
        seq![]
    } else {
        match decls.last() {
            Declaration::JumpTable(n, data) => tables_in(decls.drop_last()).push((Some(n), data)),
            _ => tables_in(decls.drop_last()),
        }
    }
}

/// The reference to stack slot `k`.
pub open(crate) spec fn slot_key() -> spec_fn(int) -> StackSlot {
    |k: int| StackSlot::of(k as u32)
}

/// The reference to signature `k`.
pub open(crate) spec fn signature_key() -> spec_fn(int) -> SigRef {
    |k: int| SigRef::of(k as u32)
}

/// The reference to external function `k`.
pub open(crate) spec fn function_key() -> spec_fn(int) -> FuncRef {
    |k: int| FuncRef::of(k as u32)
}

/// The reference to jump table `k`.
pub open(crate) spec fn table_key() -> spec_fn(int) -> JumpTable {
    |k: int| JumpTable::of(k as u32)
}

/// Are declarations of one kind kept under their positions? Declaration `k` has the key `k`, which
/// holds its data, and its source number stands for that key. No source number was declared twice,
/// and no other source number stands for anything.
pub open spec fn kept<D, K>(
    decls: Seq<(Option<u32>, D)>,
    data: Seq<D>,
    map: Map<u32, K>,
    key: spec_fn(int) -> K,
) -> bool {
    &&& data.len() == decls.len()
    &&& forall|k: int| 0 <= k < decls.len() ==> data[k] == (#[trigger] decls[k]).1
    &&& forall|k: int|
        0 <= k < decls.len() ==> ((#[trigger] decls[k]).0 matches Some(n) ==> map.contains_key(n)
            && map[n] == key(k))
    &&& forall|j: int, k: int|
        0 <= j < k < decls.len() && (#[trigger] decls[j]).0 is Some ==> decls[j].0 != (
        #[trigger] decls[k]).0
    &&& forall|n: u32| #[trigger]
        map.contains_key(n) ==> exists|k: int|
            0 <= k < decls.len() && (#[trigger] decls[k]).0 == Some(n)
}

/// Does an external function have the signature that its declaration, at position `i`, gives it?
pub open(crate) spec fn has_its_signature(
    decls: Seq<Declaration>,
    ctx: ContextModel,
    i: int,
) -> bool {
    let k = functions_in(decls.take(i)).len() as int;
    let f = ctx.function;
    match decls[i] {
        Declaration::Function(..) => k < f.ext_funcs.len() && f.ext_funcs[k].signature == SigRef::of(
            signatures_in(decls.take(i)).len() as u32,
        ),
        Declaration::Import(_, _, src) => k < f.ext_funcs.len() && ctx.map.signatures.contains_key(
            src,
        ) && ctx.map.signatures[src] == f.ext_funcs[k].signature,
        _ => true,
    }
}

/// Does the context hold these declarations, and nothing else?
pub open(crate) spec fn holds<'a>(decls: Seq<Declaration<'a>>, ctx: ContextModel<'a>) -> bool {
    let f = ctx.function;
    &&& kept(slots_in(decls), f.stack_slots, ctx.map.stack_slots, slot_key())
    &&& kept(signatures_in(decls), f.signatures, ctx.map.signatures, signature_key())
    &&& kept(
        functions_in(decls),
        f.ext_funcs.map_values(|data: ExtFuncData<'a>| data.name),
        ctx.map.functions,
        function_key(),
    )
    &&& kept(tables_in(decls), f.jump_tables, ctx.map.jump_tables, table_key())
    &&& forall|i: int| 0 <= i < decls.len() ==> #[trigger] has_its_signature(decls, ctx, i)
}

/// One more declaration of a kind.
proof fn lemma_kept<D, K>(
    decls: Seq<(Option<u32>, D)>,
    data: Seq<D>,
    map: Map<u32, K>,
    key: spec_fn(int) -> K,
    number: Option<u32>,
    d: D,
)
    requires
        kept(decls, data, map, key),
        number matches Some(n) ==> !map.contains_key(n),
    ensures
        kept(
            decls.push((number, d)),
            data.push(d),
            match number {
                Some(n) => map.insert(n, key(decls.len() as int)),
                None => map,
            },
            key,
        ),
{
    let after = decls.push((number, d));
    let grown = match number {
        Some(n) => map.insert(n, key(decls.len() as int)),
        None => map,
    };
    assert forall|n: u32| #[trigger] grown.contains_key(n) implies exists|k: int|
        0 <= k < after.len() && (#[trigger] after[k]).0 == Some(n) by {
        if number == Some(n) {
            assert(after[decls.len() as int].0 == Some(n));
        } else {
            assert(map.contains_key(n));
            let k = choose|k: int| 0 <= k < decls.len() && (#[trigger] decls[k]).0 == Some(n);
            assert(after[k].0 == Some(n));
        }
    }
    assert forall|k: int| 0 <= k < after.len() implies ((#[trigger] after[k]).0 matches Some(n)
        ==> grown.contains_key(n) && grown[n] == key(k)) by {
        if k < decls.len() {
            assert(after[k] == decls[k]);
        }
    }
    assert forall|j: int, k: int|
        0 <= j < k < after.len() && (#[trigger] after[j]).0 is Some implies after[j].0 != (
    #[trigger] after[k]).0 by {
        assert(after[j] == decls[j]);
        if k < decls.len() {
            assert(after[k] == decls[k]);
        }
    }
}

/// What one more declaration adds to the lists.
proof fn lemma_lists<'a>(decls: Seq<Declaration<'a>>, d: Declaration<'a>)
    ensures
        slots_in(decls.push(d)) == (match d {
            Declaration::StackSlot(n, data) => slots_in(decls).push((Some(n), data)),
            _ => slots_in(decls),
        }),
        signatures_in(decls.push(d)) == (match d {
            Declaration::Signature(n, data) => signatures_in(decls).push((Some(n), data)),
            Declaration::Function(_, _, data) => signatures_in(decls).push((None, data)),
            _ => signatures_in(decls),
        }),
        functions_in(decls.push(d)) == (match d {
            Declaration::Function(n, name, _) => functions_in(decls).push((Some(n), name)),
            Declaration::Import(n, name, _) => functions_in(decls).push((Some(n), name)),
            _ => functions_in(decls),
        }),
        tables_in(decls.push(d)) == (match d {
            Declaration::JumpTable(n, data) => tables_in(decls).push((Some(n), data)),
            _ => tables_in(decls),
        }),
{
    assert(decls.push(d).drop_last() =~= decls);
}

/// External functions keep their signatures when more is declared.
proof fn lemma_signatures_kept<'a>(
    decls: Seq<Declaration<'a>>,
    d: Declaration<'a>,
    before: ContextModel<'a>,
    after: ContextModel<'a>,
)
    requires
        holds(decls, before),
        before.function.ext_funcs.is_prefix_of(after.function.ext_funcs),
        before.map.signatures.submap_of(after.map.signatures),
        has_its_signature(decls.push(d), after, decls.len() as int),
    ensures
        forall|i: int|
            0 <= i < decls.push(d).len() ==> #[trigger] has_its_signature(decls.push(d), after, i),
{
    let grown = decls.push(d);
    assert forall|i: int| 0 <= i < grown.len() implies #[trigger] has_its_signature(
        grown,
        after,
        i,
    ) by {
        if i < decls.len() {
            assert(has_its_signature(decls, before, i));
            assert(grown.take(i) =~= decls.take(i));
            let k = functions_in(decls.take(i)).len() as int;
            if k < before.function.ext_funcs.len() {
                assert(after.function.ext_funcs[k] == before.function.ext_funcs[k]);
            }
            if let Declaration::Import(_, _, src) = decls[i] {
                assert(before.map.signatures.dom().contains(src));
            }
        }
    }
}

/// A new external function adds its name to the names.
proof fn lemma_names<'a>(funcs: Seq<ExtFuncData<'a>>, data: ExtFuncData<'a>)
    ensures
        funcs.push(data).map_values(|data: ExtFuncData<'a>| data.name) == funcs.map_values(
            |data: ExtFuncData<'a>| data.name,
        ).push(data.name),
{
    assert(funcs.push(data).map_values(|data: ExtFuncData<'a>| data.name) =~= funcs.map_values(
        |data: ExtFuncData<'a>| data.name,
    ).push(data.name));
}

proof fn lemma_next_declaration<'a>(
    st: ParserState<'a>,
    ctx: ContextModel<'a>,
    decls: Seq<Declaration<'a>>,
)
    requires
        holds(decls, ctx),
    ensures
        st.preamble_decl(ctx).0 matches Some(Ok(after)) ==> {
            &&& st.declaration(ctx) is Some
            &&& holds(decls.push(st.declaration(ctx)->0), after)
        },
{
    if let (Some(Ok(after)), _) = st.preamble_decl(ctx) {
        let d = st.declaration(ctx)->0;
        let f = ctx.function;
        assert(st.declaration(ctx) is Some);
        lemma_lists(decls, d);
        assert(decls.push(d).take(decls.len() as int) =~= decls);
        match d {
            Declaration::StackSlot(n, data) => {
                lemma_kept(
                    slots_in(decls),
                    f.stack_slots,
                    ctx.map.stack_slots,
                    slot_key(),
                    Some(n),
                    data,
                );
            },
            Declaration::Signature(n, data) => {
                lemma_kept(
                    signatures_in(decls),
                    f.signatures,
                    ctx.map.signatures,
                    signature_key(),
                    Some(n),
                    data,
                );
            },
            Declaration::Function(n, name, data) => {
                let names = f.ext_funcs.map_values(|data: ExtFuncData<'a>| data.name);
                lemma_names(f.ext_funcs, after.function.ext_funcs.last());
                lemma_kept(
                    signatures_in(decls),
                    f.signatures,
                    ctx.map.signatures,
                    signature_key(),
                    None,
                    data,
                );
                lemma_kept(
                    functions_in(decls),
                    names,
                    ctx.map.functions,
                    function_key(),
                    Some(n),
                    name,
                );
            },
            Declaration::Import(n, name, _) => {
                let names = f.ext_funcs.map_values(|data: ExtFuncData<'a>| data.name);
                lemma_names(f.ext_funcs, after.function.ext_funcs.last());
                lemma_kept(
                    functions_in(decls),
                    names,
                    ctx.map.functions,
                    function_key(),
                    Some(n),
                    name,
                );
            },
            Declaration::JumpTable(n, data) => {
                lemma_kept(
                    tables_in(decls),
                    f.jump_tables,
                    ctx.map.jump_tables,
                    table_key(),
                    Some(n),
                    data,
                );
            },
        }
        lemma_signatures_kept(decls, d, ctx, after);
    }
}

proof fn lemma_declarations<'a>(
    st: ParserState<'a>,
    ctx: ContextModel<'a>,
    decls: Seq<Declaration<'a>>,
)
    requires
        holds(decls, ctx),
    ensures
        st.preamble(ctx).0 matches Ok(after) ==> holds(decls + st.declarations(ctx), after),
    decreases st.remaining(),
{
    lemma_preamble_decl(st, ctx);
    lemma_next_declaration(st, ctx, decls);
    if let (Some(Ok(after)), s) = st.preamble_decl(ctx) {
        let d = st.declaration(ctx)->0;
        lemma_declarations(s, after, decls.push(d));
        assert(decls.push(d) + s.declarations(after) =~= decls + (seq![d] + s.declarations(after)));
    } else {
        assert(decls + st.declarations(ctx) =~= decls);
    }
}

/// A function holds what its preamble declares, and nothing else, in the order of the declarations:
/// declaration `k` of a kind has the key `k`. No source number was declared twice within a kind, and
/// each declared source number stands for the key that holds its own data. An external function has
/// the signature that it came with, or the one that its declaration refers to.
pub proof fn law_preamble<'a>(st: ParserState<'a>, name: &'a str, signature: SignatureModel)
    ensures
        st.preamble(ContextModel::empty(name, signature)).0 matches Ok(ctx) ==> holds(
            st.declarations(ContextModel::empty(name, signature)),
            ctx,
        ),
{
    let ctx = ContextModel::empty(name, signature);
    let none: Seq<Declaration<'a>> = seq![];
    assert(holds(none, ctx));
    lemma_declarations(st, ctx, none);
    assert(none + st.declarations(ctx) =~= st.declarations(ctx));
}

} // verus!
