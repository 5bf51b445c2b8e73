//! Instruction formats, instructions, and the instruction set that a reader works with.

use crate::entities::{Ebb, FuncRef, JumpTable, SigRef, Value};
use crate::text::same_text;
use crate::types::Type;
use vstd::prelude::*;

verus! {

/// The shapes of the operand lists.
#[derive(Copy, Clone, PartialEq, Eq, Debug, Structural)]
pub enum InstructionFormat {
    Nullary,
    Unary,
    UnaryImm,
    UnaryIeee32,
    UnaryIeee64,
    UnaryImmVector,
    UnarySplit,
    Binary,
    BinaryImm,
    BinaryImmRev,
    BinaryOverflow,
    Ternary,
    TernaryOverflow,
    Jump,
    Branch,
    InsertLane,
    ExtractLane,
    IntCompare,
    FloatCompare,
    Call,
    IndirectCall,
    Return,
    BranchTable,
}

/// A reference to an opcode: its position in the instruction set.
#[derive(Copy, Clone, PartialEq, Eq, Debug, Structural)]
pub struct Opcode(pub usize);

/// The result types of an opcode for one controlling type.
#[derive(Debug)]
pub struct Typing {
    /// A type that the controlling type variable can have.
    pub ctrl: Type,
    /// The types of the results that the opcode itself determines.
    pub results: Vec<Type>,
}

/// What a reader needs to know of an opcode.
#[derive(Debug)]
pub struct OpcodeInfo<'a> {
    /// The name of the opcode in the textual IL format.
    pub name: &'a str,
    pub format: InstructionFormat,
    /// Can the controlling type be inferred from an operand?
    pub use_typevar_operand: bool,
    /// The operand that the controlling type is inferred from: its position among the SSA value
    /// operands that the format always has.
    pub typevar_operand: usize,
    /// Does the opcode have a controlling type variable?
    pub polymorphic: bool,
    /// A type that the controlling type variable can have, for messages.
    pub example: Type,
    /// One typing for each type that the controlling type variable can have. An opcode that is
    /// not polymorphic has one typing, for the void type.
    pub typings: Vec<Typing>,
}

/// The opcodes and the condition codes that a reader knows.
#[derive(Debug)]
pub struct InstructionSet<'a> {
    pub opcodes: Vec<OpcodeInfo<'a>>,
    /// The message about a name that is no opcode.
    pub unknown_opcode: &'a str,
    /// The names of the integer condition codes.
    pub int_conditions: Vec<&'a str>,
    /// The names of the floating point condition codes.
    pub float_conditions: Vec<&'a str>,
}

/// The number of SSA value operands that an instruction of the format always has.
pub open spec fn value_count(format: InstructionFormat) -> nat {
    match format {
        InstructionFormat::Unary
        | InstructionFormat::UnarySplit
        | InstructionFormat::BinaryImm
        | InstructionFormat::BinaryImmRev
        | InstructionFormat::Branch
        | InstructionFormat::ExtractLane
        | InstructionFormat::IndirectCall
        | InstructionFormat::BranchTable => 1,
        InstructionFormat::Binary
        | InstructionFormat::BinaryOverflow
        | InstructionFormat::InsertLane
        | InstructionFormat::IntCompare
        | InstructionFormat::FloatCompare => 2,
        InstructionFormat::Ternary | InstructionFormat::TernaryOverflow => 3,
        _ => 0,
    }
}

/// The position of the first typing in `typings`, from `from` on, for the controlling type `ty`.
pub open spec fn find_typing(typings: Seq<Typing>, ty: Type, from: int) -> Option<int>
    decreases typings.len() - from,
{
    if from < 0 || from >= typings.len() {
        None
    } else if typings[from].ctrl == ty {
        Some(from)
    } else {
        find_typing(typings, ty, from + 1)
    }
}

/// The position of the first text in `names`, from `from` on, that is `text`.
pub open spec fn find_name(names: Seq<&str>, text: Seq<char>, from: int) -> Option<int>
    decreases names.len() - from,
{
    if from < 0 || from >= names.len() {
        None
    } else if names[from]@ == text {
        Some(from)
    } else {
        find_name(names, text, from + 1)
    }
}

/// The position of the first opcode, from `from` on, whose name is `text`.
pub open spec fn find_opcode(opcodes: Seq<OpcodeInfo>, text: Seq<char>, from: int) -> Option<int>
    decreases opcodes.len() - from,
{
    if from < 0 || from >= opcodes.len() {
        None
    } else if opcodes[from].name@ == text {
        Some(from)
    } else {
        find_opcode(opcodes, text, from + 1)
    }
}

/// Find a name in a list.
pub fn position_of_name(names: &Vec<&str>, text: &str) -> (position: Option<usize>)
    ensures
        match position {
            Some(i) => find_name(names@, text@, 0) == Some(i as int),
            None => find_name(names@, text@, 0) is None,
        },
{
    let mut i: usize = 0;
    while i < names.len()
        invariant
            i <= names.len(),
            find_name(names@, text@, 0) == find_name(names@, text@, i as int),
        decreases names.len() - i,
    {
        if same_text(names[i], text) {
            return Some(i);
        }
        i += 1;
    }
    None
}

impl<'a> OpcodeInfo<'a> {
    /// The typing for a controlling type, if it is one that the opcode accepts.
    pub open spec fn typing(self, ty: Type) -> Option<Typing> {
        match find_typing(self.typings@, ty, 0) {
            Some(i) => Some(self.typings@[i]),
            None => None,
        }
    }

    /// Is the description complete? An operand to infer the controlling type from has to be
    /// there, and an opcode that is not polymorphic needs its one typing.
    pub open spec fn is_complete(self) -> bool {
        &&& self.use_typevar_operand ==> self.typevar_operand < value_count(self.format)
        &&& !self.polymorphic ==> self.typing(Type::void()) is Some
    }

    /// Find the typing for a controlling type.
    pub fn find(&self, ty: Type) -> (typing: Option<&Typing>)
        ensures
            match typing {
                Some(t) => self.typing(ty) == Some(*t),
                None => self.typing(ty) is None,
            },
    {
        let mut i: usize = 0;
        while i < self.typings.len()
            invariant
                i <= self.typings.len(),
                find_typing(self.typings@, ty, 0) == find_typing(self.typings@, ty, i as int),
            decreases self.typings.len() - i,
        {
            if self.typings[i].ctrl == ty {
                return Some(&self.typings[i]);
            }
            i += 1;
        }
        None
    }

    /// Check that the description is complete.
    pub fn complete(&self) -> (r: bool)
        ensures
            r == self.is_complete(),
    {
        let count: usize = match self.format {
            InstructionFormat::Unary
            | InstructionFormat::UnarySplit
            | InstructionFormat::BinaryImm
            | InstructionFormat::BinaryImmRev
            | InstructionFormat::Branch
            | InstructionFormat::ExtractLane
            | InstructionFormat::IndirectCall
            | InstructionFormat::BranchTable => 1,
            InstructionFormat::Binary
            | InstructionFormat::BinaryOverflow
            | InstructionFormat::InsertLane
            | InstructionFormat::IntCompare
            | InstructionFormat::FloatCompare => 2,
            InstructionFormat::Ternary | InstructionFormat::TernaryOverflow => 3,
            _ => 0,
        };
        let typed = self.polymorphic || self.find(Type::void()).is_some();
        (!self.use_typevar_operand || self.typevar_operand < count) && typed
    }
}

impl<'a> InstructionSet<'a> {
    /// Are the descriptions of all opcodes complete?
    pub open spec fn is_complete(self) -> bool {
        forall|i: int| 0 <= i < self.opcodes@.len() ==> (#[trigger] self.opcodes@[i]).is_complete()
    }

    /// Is the opcode one of the set?
    pub open spec fn has(self, opcode: Opcode) -> bool {
        opcode.0 < self.opcodes@.len()
    }

    /// The description of an opcode of the set.
    pub open spec fn info(self, opcode: Opcode) -> OpcodeInfo<'a>
        recommends
            self.has(opcode),
    {
        self.opcodes@[opcode.0 as int]
    }

    /// The opcode with a name.
    pub open spec fn named(self, text: Seq<char>) -> Option<Opcode> {
        match find_opcode(self.opcodes@, text, 0) {
            Some(i) => Some(Opcode(i as usize)),
            None => None,
        }
    }

    /// Check that the descriptions of all opcodes are complete.
    pub fn complete(&self) -> (r: bool)
        ensures
            r == self.is_complete(),
    {
        let mut i: usize = 0;
        while i < self.opcodes.len()
            invariant
                i <= self.opcodes.len(),
                forall|k: int| 0 <= k < i ==> (#[trigger] self.opcodes@[k]).is_complete(),
            decreases self.opcodes.len() - i,
        {
            if !self.opcodes[i].complete() {
                assert(!self.opcodes@[i as int].is_complete());
                return false;
            }
            i += 1;
        }
        true
    }

    /// Find the opcode with a name.
    pub fn find(&self, text: &str) -> (opcode: Option<Opcode>)
        ensures
            opcode == self.named(text@),
            opcode is Some ==> self.has(opcode->0),
    {
        let mut i: usize = 0;
        while i < self.opcodes.len()
            invariant
                i <= self.opcodes.len(),
                find_opcode(self.opcodes@, text@, 0) == find_opcode(
                    self.opcodes@,
                    text@,
                    i as int,
                ),
            decreases self.opcodes.len() - i,
        {
            if same_text(self.opcodes[i].name, text) {
                return Some(Opcode(i));
            }
            i += 1;
        }
        None
    }
}

/// The operands of an instruction.
#[allow(inconsistent_fields)]
#[derive(Debug)]
pub enum Operands {
    Nullary,
    Unary { arg: Value },
    UnaryImm { imm: i64 },
    /// The immediate is held as its bits.
    UnaryIeee32 { imm: u32 },
    /// The immediate is held as its bits.
    UnaryIeee64 { imm: u64 },
    UnaryImmVector,
    UnarySplit { arg: Value },
    Binary { args: [Value; 2] },
    BinaryImm { arg: Value, imm: i64 },
    BinaryImmRev { imm: i64, arg: Value },
    BinaryOverflow { args: [Value; 2] },
    Ternary { args: [Value; 3] },
    TernaryOverflow { args: [Value; 3] },
    Jump { destination: Ebb, varargs: Vec<Value> },
    Branch { arg: Value, destination: Ebb, varargs: Vec<Value> },
    InsertLane { lane: u8, args: [Value; 2] },
    ExtractLane { lane: u8, arg: Value },
    /// The condition is held as its position among the integer condition codes.
    IntCompare { cond: usize, args: [Value; 2] },
    /// The condition is held as its position among the floating point condition codes.
    FloatCompare { cond: usize, args: [Value; 2] },
    Call { func_ref: FuncRef, varargs: Vec<Value> },
    IndirectCall { sig_ref: SigRef, arg: Value, varargs: Vec<Value> },
    Return { varargs: Vec<Value> },
    BranchTable { arg: Value, table: JumpTable },
}

/// The operand of an instruction that is neither a value nor an EBB.
pub enum Constant {
    Nothing,
    Int(i64),
    Ieee32(u32),
    Ieee64(u64),
    Lane(u8),
    Condition(usize),
    Func(FuncRef),
    Sig(SigRef),
    Table(JumpTable),
}

/// The operands of an instruction, with the values and the EBB of every format in the same place.
pub struct OperandsModel {
    pub format: InstructionFormat,
    /// The SSA values that the format always has.
    pub args: Seq<Value>,
    /// The destination of a jump or branch.
    pub destination: Option<Ebb>,
    /// The arguments to a function or an EBB.
    pub varargs: Seq<Value>,
    pub constant: Constant,
}

pub open spec fn operands_model(
    format: InstructionFormat,
    args: Seq<Value>,
    constant: Constant,
) -> OperandsModel {
    OperandsModel { format, args, destination: None, varargs: seq![], constant }
}

impl View for Operands {
    type V = OperandsModel;

    open spec fn view(&self) -> OperandsModel {
        match *self {
            Operands::Nullary => operands_model(
                InstructionFormat::Nullary,
                seq![],
                Constant::Nothing,
            ),
            Operands::Unary { arg } => operands_model(
                InstructionFormat::Unary,
                seq![arg],
                Constant::Nothing,
            ),
            Operands::UnaryImm { imm } => operands_model(
                InstructionFormat::UnaryImm,
                seq![],
                Constant::Int(imm),
            ),
            Operands::UnaryIeee32 { imm } => operands_model(
                InstructionFormat::UnaryIeee32,
                seq![],
                Constant::Ieee32(imm),
            ),
            Operands::UnaryIeee64 { imm } => operands_model(
                InstructionFormat::UnaryIeee64,
                seq![],
                Constant::Ieee64(imm),
            ),
            Operands::UnaryImmVector => operands_model(
                InstructionFormat::UnaryImmVector,
                seq![],
                Constant::Nothing,
            ),
            Operands::UnarySplit { arg } => operands_model(
                InstructionFormat::UnarySplit,
                seq![arg],
                Constant::Nothing,
            ),
            Operands::Binary { args } => operands_model(
                InstructionFormat::Binary,
                args@,
                Constant::Nothing,
            ),
            Operands::BinaryImm { arg, imm } => operands_model(
                InstructionFormat::BinaryImm,
                seq![arg],
                Constant::Int(imm),
            ),
            Operands::BinaryImmRev { imm, arg } => operands_model(
                InstructionFormat::BinaryImmRev,
                seq![arg],
                Constant::Int(imm),
            ),
            Operands::BinaryOverflow { args } => operands_model(
                InstructionFormat::BinaryOverflow,
                args@,
                Constant::Nothing,
            ),
            Operands::Ternary { args } => operands_model(
                InstructionFormat::Ternary,
                args@,
                Constant::Nothing,
            ),
            Operands::TernaryOverflow { args } => operands_model(
                InstructionFormat::TernaryOverflow,
                args@,
                Constant::Nothing,
            ),
            Operands::Jump { destination, varargs } => OperandsModel {
                format: InstructionFormat::Jump,
                args: seq![],
                destination: Some(destination),
                varargs: varargs@,
                constant: Constant::Nothing,
            },
            Operands::Branch { arg, destination, varargs } => OperandsModel {
                format: InstructionFormat::Branch,
                args: seq![arg],
                destination: Some(destination),
                varargs: varargs@,
                constant: Constant::Nothing,
            },
            Operands::InsertLane { lane, args } => operands_model(
                InstructionFormat::InsertLane,
                args@,
                Constant::Lane(lane),
            ),
            Operands::ExtractLane { lane, arg } => operands_model(
                InstructionFormat::ExtractLane,
                seq![arg],
                Constant::Lane(lane),
            ),
            Operands::IntCompare { cond, args } => operands_model(
                InstructionFormat::IntCompare,
                args@,
                Constant::Condition(cond),
            ),
            Operands::FloatCompare { cond, args } => operands_model(
                InstructionFormat::FloatCompare,
                args@,
                Constant::Condition(cond),
            ),
            Operands::Call { func_ref, varargs } => OperandsModel {
                format: InstructionFormat::Call,
                args: seq![],
                destination: None,
                varargs: varargs@,
                constant: Constant::Func(func_ref),
            },
            Operands::IndirectCall { sig_ref, arg, varargs } => OperandsModel {
                format: InstructionFormat::IndirectCall,
                args: seq![arg],
                destination: None,
                varargs: varargs@,
                constant: Constant::Sig(sig_ref),
            },
            Operands::Return { varargs } => OperandsModel {
                format: InstructionFormat::Return,
                args: seq![],
                destination: None,
                varargs: varargs@,
                constant: Constant::Nothing,
            },
            Operands::BranchTable { arg, table } => operands_model(
                InstructionFormat::BranchTable,
                seq![arg],
                Constant::Table(table),
            ),
        }
    }
}

impl Operands {
    /// One of the SSA values that the format always has.
    pub fn value_operand(&self, position: usize) -> (arg: Value)
        requires
            position < self@.args.len(),
        ensures
            arg == self@.args[position as int],
    {
        match self {
            Operands::Unary { arg }
            | Operands::UnarySplit { arg }
            | Operands::BinaryImm { arg, .. }
            | Operands::BinaryImmRev { arg, .. }
            | Operands::Branch { arg, .. }
            | Operands::ExtractLane { arg, .. }
            | Operands::IndirectCall { arg, .. }
            | Operands::BranchTable { arg, .. } => *arg,
            Operands::Binary { args }
            | Operands::BinaryOverflow { args }
            | Operands::InsertLane { args, .. }
            | Operands::IntCompare { args, .. }
            | Operands::FloatCompare { args, .. } => args[position],
            Operands::Ternary { args } | Operands::TernaryOverflow { args } => args[position],
            _ => vstd::pervasive::unreached(),
        }
    }
}

/// An instruction: its opcode, the type of its first result and its operands.
#[derive(Debug)]
pub struct InstructionData {
    pub opcode: Opcode,
    /// The type of the first result, void if there is none.
    pub ty: Type,
    pub operands: Operands,
}

pub struct InstructionModel {
    pub opcode: Opcode,
    pub ty: Type,
    pub operands: OperandsModel,
}

impl View for InstructionData {
    type V = InstructionModel;

    open spec fn view(&self) -> InstructionModel {
        InstructionModel { opcode: self.opcode, ty: self.ty, operands: self.operands@ }
    }
}

} // verus!
