//! Parsing of instructions.

use crate::body::{
    controlling_type, def_values, leaves_room, lemma_instruction, lemma_instruction_text,
    result_types, InstructionText,
};
use crate::context::{
    declared, lemma_def_value, lemma_def_entity, lemma_located, lemma_with_inst, Context,
    ContextModel,
};
use crate::entities::{no_inst, AnyEntity, Ebb, EntityRef, Value};
use crate::error::{plain, viewed, Error, Location};
use crate::instructions::{
    value_count, InstructionData, InstructionFormat, Opcode, OpcodeInfo, Operands,
};
use crate::parser::Parser;
use crate::reading::lemma_fill;
use crate::sourcemap::{lemma_faithful_entity, lemma_faithful_value, updated, SourceMap};
use crate::syntax::{lemma_inst_operands, lemma_more_values};
use crate::text::decimal_text;
use crate::token::Token;
use crate::types::Type;
use vstd::prelude::*;
use vstd::string::*;

verus! {

broadcast use lemma_fill;

impl<'a, 's> Parser<'a, 's> {
    /// Parse the result values of an instruction.
    ///
    /// [inst-results "="], where inst-results ::= Value(v) { "," Value(vx) }
    fn parse_inst_results(&mut self) -> (r: Result<Vec<Value>, Error>)
        ensures
            (viewed(r), final(self)@) == old(self)@.inst_results(),
    {
        let mut results: Vec<Value> = Vec::new();
        if let Some(Token::Value(v)) = self.token() {
            self.consume();
            results.push(v);
            assert(results@ =~= seq![v]);
            self.parse_more_values(&mut results, "expected result value")?;
            self.match_token(Token::Equal, "expected '=' before opcode")?;
        }
        Ok(results)
    }

    /// Parse an opcode.
    fn parse_opcode(&mut self) -> (r: Result<Opcode, Error>)
        ensures
            (plain(r), final(self)@) == old(self)@.opcode(),
            r is Ok ==> old(self)@.isa.has(r->Ok_0),
    {
        if let Some(Token::Identifier(text)) = self.token() {
            match self.isa.find(text) {
                Some(opcode) => {
                    self.consume();
                    Ok(opcode)
                },
                None => {
                    let message = self.isa.unknown_opcode.to_owned().concat(": '").concat(
                        text,
                    ).concat("'");
                    Err(self.error(message.as_str()))
                },
            }
        } else {
            Err(self.error("expected instruction opcode"))
        }
    }

    /// Parse a controlling type variable annotation.
    ///
    /// ["." Type]
    fn parse_explicit_type(&mut self) -> (r: Result<Option<Type>, Error>)
        ensures
            (plain(r), final(self)@) == old(self)@.explicit_type(),
    {
        if self.optional(Token::Dot) {
            let ty = self.match_type("expected type after 'opcode.'")?;
            Ok(Some(ty))
        } else {
            Ok(None)
        }
    }

    /// Type inference for polymorphic instructions.
    ///
    /// The controlling type variable can be specified explicitly as 'splat.i32x4 v5', or it can
    /// be inferred from an operand for some opcodes.
    ///
    /// The value operands are expected to use source numbering.
    ///
    /// Returns the controlling typevar for a polymorphic opcode, or the void type for a
    /// non-polymorphic opcode.
    fn infer_typevar(
        &self,
        ctx: &Context<'a>,
        info: &OpcodeInfo<'a>,
        explicit: Option<Type>,
        operands: &Operands,
    ) -> (r: Result<Type, Error>)
        requires
            ctx@.sound(),
            info.is_complete(),
            operands@.args.len() == value_count(info.format),
        ensures
            plain(r) == controlling_type(ctx@, *info, explicit, operands@, self@.loc),
            r is Ok ==> info.typing(r->Ok_0) is Some,
    {
        let ctrl_type = match explicit {
            Some(ty) => ty,
            None => {
                if info.use_typevar_operand {
                    let src = operands.value_operand(info.typevar_operand);
                    match ctx.map.get_value(src) {
                        Some(v) => {
                            assert(ctx@.map.values.contains_key(src.0));
                            assert(ctx@.function.has(AnyEntity::Value(v)));
                            ctx.function.value_type(v)
                        },
                        None => {
                            let message = "cannot determine type of operand ".to_owned().concat(
                                src.to_string().as_str(),
                            );
                            return Err(self.error(message.as_str()));
                        },
                    }
                } else if info.polymorphic {
                    let message =
                        "type variable required for polymorphic opcode, e.g. '".to_owned().concat(
                        info.name,
                    ).concat(".").concat(info.example.to_string().as_str()).concat("'");
                    return Err(self.error(message.as_str()));
                } else {
                    Type::void()
                }
            },
        };
        if info.polymorphic {
            if info.find(ctrl_type).is_none() {
                let message = ctrl_type.to_string().concat(" is not a valid typevar for ").concat(
                    info.name,
                );
                return Err(self.error(message.as_str()));
            }
        } else if ctrl_type != Type::void() {
            let message = info.name.to_owned().concat(" does not take a typevar");
            return Err(self.error(message.as_str()));
        }
        Ok(ctrl_type)
    }

    /// Add mappings for a list of source values to their corresponding new values.
    fn add_values(
        &self,
        map: &mut SourceMap,
        results: &Vec<Value>,
        new_results: &Vec<Value>,
    ) -> (r: Result<(), Error>)
        ensures
            updated(r, final(map)@) == def_values(
                old(map)@,
                results@,
                new_results@,
                0,
                self@.loc,
            ),
    {
        let ghost goal = def_values(map@, results@, new_results@, 0, self@.loc);
        let mut k: usize = 0;
        while k < results.len() && k < new_results.len()
            invariant
                goal == def_values(old(map)@, results@, new_results@, 0, self@.loc),
                def_values(map@, results@, new_results@, k as int, self@.loc) == goal,
            decreases results.len() - k,
        {
            map.def_value(results[k], new_results[k], self.loc)?;
            k += 1;
        }
        Ok(())
    }

    /// Add an instruction to `ebb`, after its text was parsed.
    ///
    /// This checks that the number of result values in the source matches the opcode or function
    /// call signature, and creates values with the right type for all the instruction results.
    fn place_instruction(
        &mut self,
        ctx: &mut Context<'a>,
        ebb: Ebb,
        results: &Vec<Value>,
        opcode: Opcode,
        opcode_loc: Location,
        explicit: Option<Type>,
        operands: Operands,
    ) -> (r: Result<(), Error>)
        requires
            old(self)@.isa.is_complete(),
            old(self)@.room(old(ctx)@),
            old(self)@.remaining() + old(ctx)@.function.size() + results@.len() + 1 < u32::MAX / 2,
            ebb.number() + 1 == old(ctx)@.function.ebbs.len(),
            old(self)@.isa.has(opcode),
            operands@.args.len() == value_count(old(self)@.isa.info(opcode).format),
            declared(old(ctx)@.function, operands@),
        ensures
            (updated(r, final(ctx)@), final(self)@) == old(self)@.place_instruction(
                old(ctx)@,
                ebb,
                (InstructionText {
                    results: results@,
                    opcode,
                    location: opcode_loc,
                    explicit,
                    operands: operands@,
                }),
            ),
            r is Ok ==> {
                &&& final(ctx)@.sound()
                &&& final(ctx)@.function.size() <= old(ctx)@.function.size() + results@.len() + 1
                &&& final(ctx)@.function.ebbs.len() == old(ctx)@.function.ebbs.len()
            },
    {
        let isa = self.isa;
        let info = &isa.opcodes[opcode.0];
        assert(info.is_complete());
        let ctrl_type = self.infer_typevar(ctx, info, explicit, &operands)?;
        let mut types: Vec<Type> = Vec::new();
        if let Some(typing) = info.find(ctrl_type) {
            types = copy_types(&typing.results);
        }
        ctx.function.add_call_results(&operands, &mut types);
        assert(types@ == result_types(ctx@.function, *info, ctrl_type, operands@));
        if results.len() != types.len() {
            let message = "instruction produces ".to_owned().concat(
                decimal_text(types.len() as u64).as_str(),
            ).concat(" result values, ").concat(
                decimal_text(results.len() as u64).as_str(),
            ).concat(" given");
            return Err(self.error(message.as_str()));
        }
        let ghost before = ctx@;
        let data = InstructionData { opcode, ty: Type::void(), operands };
        let ghost grown = ctx@.function.with_inst(ebb, data@, types@);
        proof {
            lemma_with_inst(before, ebb, data@, types@);
        }
        let inst = ctx.function.append_inst(ebb, data, &types);
        let i: usize = inst.index();
        assert(ctx@.function.insts[i as int] == ctx.function.insts@[i as int]@);
        let entity = AnyEntity::Inst(inst);
        ctx.map.def_entity(entity, opcode_loc)?;
        proof {
            lemma_def_entity(ContextModel { function: grown, map: before.map }, entity, opcode_loc);
            lemma_located(before, ctx@);
            lemma_faithful_entity(before.map, entity, opcode_loc);
            let vals = before.function.next_results(types@.len());
            lemma_def_values(ctx@, results@, vals, 0, self@.loc);
        }
        // If we saw any comments while parsing the instruction, they will have been recorded as
        // belonging to the invalid instruction.
        self.rewrite_last_comment_entities(AnyEntity::Inst(no_inst()), entity);
        self.add_values(&mut ctx.map, results, &ctx.function.insts[i].results)
    }

    /// Parse an instruction, append it to `ebb`.
    ///
    /// instruction ::= [inst-results "="] Opcode(opc) ["." Type] ...
    ///
    /// An opcode with vector immediates is an error: its operands cannot be parsed.
    pub(crate) fn parse_instruction(&mut self, ctx: &mut Context<'a>, ebb: Ebb) -> (r: Result<
        (),
        Error,
    >)
        requires
            old(self)@.isa.is_complete(),
            old(self)@.room(old(ctx)@),
            ebb.number() + 1 == old(ctx)@.function.ebbs.len(),
        ensures
            (updated(r, final(ctx)@), final(self)@) == old(self)@.instruction(old(ctx)@, ebb),
            r is Ok ==> {
                &&& leaves_room((old(self)@, old(ctx)@), (final(self)@, final(ctx)@))
                &&& final(ctx)@.function.ebbs.len() == old(ctx)@.function.ebbs.len()
            },
    {
        // Collect comments for the invalid instruction while parsing, then rewrite after we
        // allocate an instruction number.
        self.gather_comments(AnyEntity::Inst(no_inst()));
        let ghost start = self@;
        let results = self.parse_inst_results()?;
        let opcode = self.parse_opcode()?;
        let opcode_loc = self.loc;
        let explicit = self.parse_explicit_type()?;
        let isa = self.isa;
        assert(isa == start.isa) by {
            broadcast use lemma_more_values;

        }
        let format = isa.opcodes[opcode.0].format;
        assert(isa.opcodes@[opcode.0 as int].is_complete());
        if let InstructionFormat::UnaryImmVector = format {
            return Err(self.error("vector immediates are not implemented"));
        }
        let ghost st = self@;
        let operands = self.parse_inst_operands(ctx, format)?;
        proof {
            lemma_inst_operands(st, ctx@, format);
            lemma_instruction_text(start, ctx@);
            lemma_instruction(old(self)@, ctx@, ebb);
        }
        self.place_instruction(ctx, ebb, &results, opcode, opcode_loc, explicit, operands)
    }
}

/// A context stays sound when source values get to stand for values of the function.
proof fn lemma_def_values(
    ctx: ContextModel,
    srcs: Seq<Value>,
    vals: Seq<Value>,
    k: int,
    loc: Location,
)
    requires
        ctx.sound(),
        0 <= k,
        forall|i: int|
            k <= i < vals.len() ==> ctx.function.has(AnyEntity::Value(#[trigger] vals[i])),
    ensures
        def_values(ctx.map, srcs, vals, k, loc) matches Ok(map) ==> (ContextModel {
            function: ctx.function,
            map,
        }).sound(),
    decreases srcs.len() - k,
{
    if k < srcs.len() && k < vals.len() {
        if let Ok(map) = ctx.map.def_value(srcs[k], vals[k], loc) {
            lemma_def_value(ctx, srcs[k], vals[k], loc);
            lemma_located(ctx, ContextModel { function: ctx.function, map });
            lemma_faithful_value(ctx.map, srcs[k], vals[k], loc);
            lemma_def_values(
                ContextModel { function: ctx.function, map },
                srcs,
                vals,
                k + 1,
                loc,
            );
        }
    }
}

/// Copy a list of types.
fn copy_types(types: &Vec<Type>) -> (list: Vec<Type>)
    ensures
        list@ == types@,
{
    let mut list: Vec<Type> = Vec::new();
    let mut i: usize = 0;
    while i < types.len()
        invariant
            i <= types.len(),
            list@ == types@.take(i as int),
        decreases types.len() - i,
    {
        list.push(types[i]);
        i += 1;
        assert(types@.take(i as int) =~= types@.take(i - 1).push(types@[i - 1]));
    }
    assert(types@.take(i as int) =~= types@);
    list
}

} // verus!
