//! IL entity references.
//!
//! Instructions need to refer to other entities of the function: to extended basic blocks (EBBs),
//! values, stack slots, or to what the function preamble declares. The references are structs that
//! wrap a `u32` index into a table of the function, one type for each kind of entity. The number
//! `u32::MAX` stands for an invalid reference, in data that has no room for an `Option`.
//!
//! Each reference has a `to_string` method that gives its notation in the textual IL format.

use crate::text::{decimal, numbered};
use vstd::prelude::*;

verus! {

/// An entity reference that wraps an index.
pub trait EntityRef: Copy {
    /// The index that the reference wraps.
    spec fn number(self) -> nat;

    /// Create a reference from its index.
    fn new(index: usize) -> (r: Self)
        requires
            index < u32::MAX,
        ensures
            r.number() == index,
    ;

    /// The index that the reference wraps.
    fn index(self) -> (index: usize)
        ensures
            index == self.number(),
    ;
}

/// An opaque reference to an extended basic block in a function.
#[derive(Copy, Clone, PartialEq, Eq, Hash, Debug, PartialOrd, Ord, Structural)]
pub struct Ebb(pub(crate) u32);

impl Ebb {
    /// The reference that wraps `number`.
    pub open(crate) spec fn of(number: u32) -> Ebb {
        Ebb(number)
    }

    /// Create a new EBB reference from its number. This corresponds to the ebbNN representation.
    pub fn with_number(n: u32) -> (r: Option<Ebb>)
        ensures
            r == (if n < u32::MAX {
                Some(Ebb::of(n))
            } else {
                None
            }),
    {
        if n < u32::MAX {
            Some(Ebb(n))
        } else {
            None
        }
    }

    /// The notation of the reference: "ebb" and its number.
    pub open(crate) spec fn text(self) -> Seq<char> {
        "ebb"@ + decimal(self.0 as nat)
    }

    /// Write the reference as in "ebb12".
    pub fn to_string(&self) -> (text: String)
        ensures
            text@ == self.text(),
    {
        numbered("ebb", self.0 as u64)
    }
}

impl EntityRef for Ebb {
    open(crate) spec fn number(self) -> nat {
        self.0 as nat
    }

    fn new(index: usize) -> (r: Ebb) {
        Ebb(index as u32)
    }

    fn index(self) -> (index: usize) {
        self.0 as usize
    }
}

/// A guaranteed invalid EBB reference.
pub fn no_ebb() -> (r: Ebb)
    ensures
        r == Ebb::of(u32::MAX),
{
    Ebb(u32::MAX)
}

impl Default for Ebb {
    fn default() -> (r: Ebb)
        ensures
            r == Ebb::of(u32::MAX),
    {
        no_ebb()
    }
}

/// An opaque reference to an instruction in a function.
#[derive(Copy, Clone, PartialEq, Eq, Hash, Debug, PartialOrd, Ord, Structural)]
pub struct Inst(pub(crate) u32);

impl Inst {
    /// The reference that wraps `number`.
    pub open(crate) spec fn of(number: u32) -> Inst {
        Inst(number)
    }

    /// The notation of the reference: "inst" and its number.
    pub open(crate) spec fn text(self) -> Seq<char> {
        "inst"@ + decimal(self.0 as nat)
    }

    /// Write the reference as in "inst7".
    pub fn to_string(&self) -> (text: String)
        ensures
            text@ == self.text(),
    {
        numbered("inst", self.0 as u64)
    }
}

impl EntityRef for Inst {
    open(crate) spec fn number(self) -> nat {
        self.0 as nat
    }

    fn new(index: usize) -> (r: Inst) {
        Inst(index as u32)
    }

    fn index(self) -> (index: usize) {
        self.0 as usize
    }
}

/// A guaranteed invalid instruction reference.
pub fn no_inst() -> (r: Inst)
    ensures
        r == Inst::of(u32::MAX),
{
    Inst(u32::MAX)
}

impl Default for Inst {
    fn default() -> (r: Inst)
        ensures
            r == Inst::of(u32::MAX),
    {
        no_inst()
    }
}

/// An opaque reference to an SSA value.
#[derive(Copy, Clone, PartialEq, Eq, Hash, Debug, Structural)]
pub struct Value(pub(crate) u32);

impl Value {
    /// The reference that wraps `number`.
    pub open(crate) spec fn of(number: u32) -> Value {
        Value(number)
    }

    /// The direct value with number `n`: the first value produced by instruction `n`.
    pub open(crate) spec fn direct(n: nat) -> Value
        recommends
            2 * n < u32::MAX,
    {
        Value((2 * n) as u32)
    }

    /// The table value with number `n`: entry `n` of the extended value table.
    pub open(crate) spec fn table(n: nat) -> Value
        recommends
            2 * n + 1 < u32::MAX,
    {
        Value((2 * n + 1) as u32)
    }

    /// What the value refers to. Even numbers are direct values, odd ones table values.
    pub open(crate) spec fn expanded(self) -> ExpandedValue {
        if self.0 == u32::MAX {
            ExpandedValue::NoValue
        } else if self.0 % 2 == 0 {
            ExpandedValue::Direct(Inst((self.0 / 2) as u32))
        } else {
            ExpandedValue::Table((self.0 / 2) as usize)
        }
    }

    /// Create a `Direct` value from its number representation.
    /// This is the number in the vNN notation.
    pub fn direct_with_number(n: u32) -> (r: Option<Value>)
        ensures
            n < u32::MAX / 2 ==> r == Some(Value::direct(n as nat)),
            n < u32::MAX / 2 ==> r->0.expanded() == ExpandedValue::Direct(Inst::of(n)),
            n >= u32::MAX / 2 ==> r is None,
    {
        if n < u32::MAX / 2 {
            Some(Value(n * 2))
        } else {
            None
        }
    }

    /// Create a `Table` value from its number representation.
    /// This is the number in the vxNN notation.
    pub fn table_with_number(n: u32) -> (r: Option<Value>)
        ensures
            n < u32::MAX / 2 ==> r == Some(Value::table(n as nat)),
            n < u32::MAX / 2 ==> r->0.expanded() == ExpandedValue::Table(n as usize),
            n >= u32::MAX / 2 ==> r is None,
    {
        if n < u32::MAX / 2 {
            Some(Value(n * 2 + 1))
        } else {
            None
        }
    }

    /// Create a `Direct` value corresponding to the first value produced by `i`.
    pub fn new_direct(i: Inst) -> (v: Value)
        requires
            2 * i.number() < u32::MAX,
        ensures
            v == Value::direct(i.number()),
            v.expanded() == ExpandedValue::Direct(i),
    {
        Value(i.0 * 2)
    }

    /// Create a `Table` value referring to entry `index` of the extended value table.
    pub fn new_table(index: usize) -> (v: Value)
        requires
            2 * index + 1 < u32::MAX,
        ensures
            v == Value::table(index as nat),
            v.expanded() == ExpandedValue::Table(index),
    {
        Value((index as u32) * 2 + 1)
    }

    /// Expand the internal representation into something useful.
    pub fn expand(&self) -> (r: ExpandedValue)
        ensures
            r == self.expanded(),
    {
        if *self == no_value() {
            return ExpandedValue::NoValue;
        }
        let index: usize = (self.0 / 2) as usize;
        if self.0 % 2 == 0 {
            ExpandedValue::Direct(Inst::new(index))
        } else {
            ExpandedValue::Table(index)
        }
    }

    /// Get the instruction that a direct value refers to.
    pub fn unwrap_direct(&self) -> (inst: Inst)
        requires
            self.expanded() is Direct,
        ensures
            self.expanded() == ExpandedValue::Direct(inst),
    {
        if let ExpandedValue::Direct(inst) = self.expand() {
            inst
        } else {
            vstd::pervasive::unreached()
        }
    }

    /// The notation of the value: "v" and the number of a direct value, "vx" and the number of a
    /// table value.
    pub open(crate) spec fn text(self) -> Seq<char> {
        match self.expanded() {
            ExpandedValue::Direct(i) => "v"@ + decimal(i.0 as nat),
            ExpandedValue::Table(i) => "vx"@ + decimal(i as nat),
            ExpandedValue::NoValue => "NO_VALUE"@,
        }
    }

    /// Write the value as in "v7" or "vx2".
    pub fn to_string(&self) -> (text: String)
        ensures
            text@ == self.text(),
    {
        match self.expand() {
            ExpandedValue::Direct(i) => numbered("v", i.0 as u64),
            ExpandedValue::Table(i) => numbered("vx", i as u64),
            ExpandedValue::NoValue => "NO_VALUE".to_owned(),
        }
    }
}

impl EntityRef for Value {
    open(crate) spec fn number(self) -> nat {
        self.0 as nat
    }

    fn new(index: usize) -> (r: Value) {
        Value(index as u32)
    }

    fn index(self) -> (index: usize) {
        self.0 as usize
    }
}

/// A guaranteed invalid value reference.
pub fn no_value() -> (r: Value)
    ensures
        r == Value::of(u32::MAX),
{
    Value(u32::MAX)
}

impl Default for Value {
    fn default() -> (r: Value)
        ensures
            r == Value::of(u32::MAX),
    {
        no_value()
    }
}

/// Value references can either reference an instruction directly, or they can refer to the
/// extended value table.
#[derive(Copy, Clone, PartialEq, Eq, Debug, Structural)]
pub enum ExpandedValue {
    /// This is the first value produced by the referenced instruction.
    Direct(Inst),
    /// This value is described in the extended value table.
    Table(usize),
    /// This is the invalid value reference.
    NoValue,
}

/// An opaque reference to a stack slot.
#[derive(Copy, Clone, PartialEq, Eq, Hash, Debug, Structural)]
pub struct StackSlot(pub(crate) u32);

impl StackSlot {
    /// The reference that wraps `number`.
    pub open(crate) spec fn of(number: u32) -> StackSlot {
        StackSlot(number)
    }

    /// The notation of the reference: "ss" and its number.
    pub open(crate) spec fn text(self) -> Seq<char> {
        "ss"@ + decimal(self.0 as nat)
    }

    /// Write the reference as in "ss12".
    pub fn to_string(&self) -> (text: String)
        ensures
            text@ == self.text(),
    {
        numbered("ss", self.0 as u64)
    }
}

impl EntityRef for StackSlot {
    open(crate) spec fn number(self) -> nat {
        self.0 as nat
    }

    fn new(index: usize) -> (r: StackSlot) {
        StackSlot(index as u32)
    }

    fn index(self) -> (index: usize) {
        self.0 as usize
    }
}

/// A guaranteed invalid stack slot reference.
pub fn no_stack_slot() -> (r: StackSlot)
    ensures
        r == StackSlot::of(u32::MAX),
{
    StackSlot(u32::MAX)
}

impl Default for StackSlot {
    fn default() -> (r: StackSlot)
        ensures
            r == StackSlot::of(u32::MAX),
    {
        no_stack_slot()
    }
}

/// An opaque reference to a jump table.
#[derive(Copy, Clone, PartialEq, Eq, Hash, Debug, Structural)]
pub struct JumpTable(pub(crate) u32);

impl JumpTable {
    /// The reference that wraps `number`.
    pub open(crate) spec fn of(number: u32) -> JumpTable {
        JumpTable(number)
    }

    /// The notation of the reference: "jt" and its number.
    pub open(crate) spec fn text(self) -> Seq<char> {
        "jt"@ + decimal(self.0 as nat)
    }

    /// Write the reference as in "jt12".
    pub fn to_string(&self) -> (text: String)
        ensures
            text@ == self.text(),
    {
        numbered("jt", self.0 as u64)
    }
}

impl EntityRef for JumpTable {
    open(crate) spec fn number(self) -> nat {
        self.0 as nat
    }

    fn new(index: usize) -> (r: JumpTable) {
        JumpTable(index as u32)
    }

    fn index(self) -> (index: usize) {
        self.0 as usize
    }
}

/// A guaranteed invalid jump table reference.
pub fn no_jump_table() -> (r: JumpTable)
    ensures
        r == JumpTable::of(u32::MAX),
{
    JumpTable(u32::MAX)
}

impl Default for JumpTable {
    fn default() -> (r: JumpTable)
        ensures
            r == JumpTable::of(u32::MAX),
    {
        no_jump_table()
    }
}

/// A reference to an external function.
#[derive(Copy, Clone, PartialEq, Eq, Hash, Debug, Structural)]
pub struct FuncRef(pub(crate) u32);

impl FuncRef {
    /// The reference that wraps `number`.
    pub open(crate) spec fn of(number: u32) -> FuncRef {
        FuncRef(number)
    }

    /// The notation of the reference: "fn" and its number.
    pub open(crate) spec fn text(self) -> Seq<char> {
        "fn"@ + decimal(self.0 as nat)
    }

    /// Write the reference as in "fn12".
    pub fn to_string(&self) -> (text: String)
        ensures
            text@ == self.text(),
    {
        numbered("fn", self.0 as u64)
    }
}

impl EntityRef for FuncRef {
    open(crate) spec fn number(self) -> nat {
        self.0 as nat
    }

    fn new(index: usize) -> (r: FuncRef) {
        FuncRef(index as u32)
    }

    fn index(self) -> (index: usize) {
        self.0 as usize
    }
}

/// A guaranteed invalid function reference.
pub fn no_func_ref() -> (r: FuncRef)
    ensures
        r == FuncRef::of(u32::MAX),
{
    FuncRef(u32::MAX)
}

impl Default for FuncRef {
    fn default() -> (r: FuncRef)
        ensures
            r == FuncRef::of(u32::MAX),
    {
        no_func_ref()
    }
}

/// A reference to a function signature.
#[derive(Copy, Clone, PartialEq, Eq, Hash, Debug, Structural)]
pub struct SigRef(pub(crate) u32);

impl SigRef {
    /// The reference that wraps `number`.
    pub open(crate) spec fn of(number: u32) -> SigRef {
        SigRef(number)
    }

    /// The notation of the reference: "sig" and its number.
    pub open(crate) spec fn text(self) -> Seq<char> {
        "sig"@ + decimal(self.0 as nat)
    }

    /// Write the reference as in "sig12".
    pub fn to_string(&self) -> (text: String)
        ensures
            text@ == self.text(),
    {
        numbered("sig", self.0 as u64)
    }
}

impl EntityRef for SigRef {
    open(crate) spec fn number(self) -> nat {
        self.0 as nat
    }

    fn new(index: usize) -> (r: SigRef) {
        SigRef(index as u32)
    }

    fn index(self) -> (index: usize) {
        self.0 as usize
    }
}

/// A guaranteed invalid signature reference.
pub fn no_sig_ref() -> (r: SigRef)
    ensures
        r == SigRef::of(u32::MAX),
{
    SigRef(u32::MAX)
}

impl Default for SigRef {
    fn default() -> (r: SigRef)
        ensures
            r == SigRef::of(u32::MAX),
    {
        no_sig_ref()
    }
}

/// A reference to any of the entities defined in this module.
#[derive(Copy, Clone, PartialEq, Eq, Hash, Debug, Structural)]
pub enum AnyEntity {
    /// The whole function.
    Function,
    /// An extended basic block.
    Ebb(Ebb),
    /// An instruction.
    Inst(Inst),
    /// An SSA value.
    Value(Value),
    /// A stack slot.
    StackSlot(StackSlot),
    /// A jump table.
    JumpTable(JumpTable),
    /// An external function.
    FuncRef(FuncRef),
    /// A function call signature.
    SigRef(SigRef),
}

impl AnyEntity {
    /// The notation of the reference.
    pub open(crate) spec fn text(self) -> Seq<char> {
        match self {
            AnyEntity::Function => "function"@,
            AnyEntity::Ebb(r) => r.text(),
            AnyEntity::Inst(r) => r.text(),
            AnyEntity::Value(r) => r.text(),
            AnyEntity::StackSlot(r) => r.text(),
            AnyEntity::JumpTable(r) => r.text(),
            AnyEntity::FuncRef(r) => r.text(),
            AnyEntity::SigRef(r) => r.text(),
        }
    }

    /// Write the reference in the notation of its kind.
    pub fn to_string(&self) -> (text: String)
        ensures
            text@ == self.text(),
    {
        match *self {
            AnyEntity::Function => "function".to_owned(),
            AnyEntity::Ebb(r) => r.to_string(),
            AnyEntity::Inst(r) => r.to_string(),
            AnyEntity::Value(r) => r.to_string(),
            AnyEntity::StackSlot(r) => r.to_string(),
            AnyEntity::JumpTable(r) => r.to_string(),
            AnyEntity::FuncRef(r) => r.to_string(),
            AnyEntity::SigRef(r) => r.to_string(),
        }
    }
}

impl From<Ebb> for AnyEntity {
    fn from(r: Ebb) -> AnyEntity {
        AnyEntity::Ebb(r)
    }
}

impl vstd::std_specs::convert::FromSpecImpl<Ebb> for AnyEntity {
    open spec fn obeys_from_spec() -> bool {
        true
    }

    open spec fn from_spec(r: Ebb) -> AnyEntity {
        AnyEntity::Ebb(r)
    }
}

impl From<Inst> for AnyEntity {
    fn from(r: Inst) -> AnyEntity {
        AnyEntity::Inst(r)
    }
}

impl vstd::std_specs::convert::FromSpecImpl<Inst> for AnyEntity {
    open spec fn obeys_from_spec() -> bool {
        true
    }

    open spec fn from_spec(r: Inst) -> AnyEntity {
        AnyEntity::Inst(r)
    }
}

impl From<Value> for AnyEntity {
    fn from(r: Value) -> AnyEntity {
        AnyEntity::Value(r)
    }
}

impl vstd::std_specs::convert::FromSpecImpl<Value> for AnyEntity {
    open spec fn obeys_from_spec() -> bool {
        true
    }

    open spec fn from_spec(r: Value) -> AnyEntity {
        AnyEntity::Value(r)
    }
}

impl From<StackSlot> for AnyEntity {
    fn from(r: StackSlot) -> AnyEntity {
        AnyEntity::StackSlot(r)
    }
}

impl vstd::std_specs::convert::FromSpecImpl<StackSlot> for AnyEntity {
    open spec fn obeys_from_spec() -> bool {
        true
    }

    open spec fn from_spec(r: StackSlot) -> AnyEntity {
        AnyEntity::StackSlot(r)
    }
}

impl From<JumpTable> for AnyEntity {
    fn from(r: JumpTable) -> AnyEntity {
        AnyEntity::JumpTable(r)
    }
}

impl vstd::std_specs::convert::FromSpecImpl<JumpTable> for AnyEntity {
    open spec fn obeys_from_spec() -> bool {
        true
    }

    open spec fn from_spec(r: JumpTable) -> AnyEntity {
        AnyEntity::JumpTable(r)
    }
}

impl From<FuncRef> for AnyEntity {
    fn from(r: FuncRef) -> AnyEntity {
        AnyEntity::FuncRef(r)
    }
}

impl vstd::std_specs::convert::FromSpecImpl<FuncRef> for AnyEntity {
    open spec fn obeys_from_spec() -> bool {
        true
    }

    open spec fn from_spec(r: FuncRef) -> AnyEntity {
        AnyEntity::FuncRef(r)
    }
}

impl From<SigRef> for AnyEntity {
    fn from(r: SigRef) -> AnyEntity {
        AnyEntity::SigRef(r)
    }
}

impl vstd::std_specs::convert::FromSpecImpl<SigRef> for AnyEntity {
    open spec fn obeys_from_spec() -> bool {
        true
    }

    open spec fn from_spec(r: SigRef) -> AnyEntity {
        AnyEntity::SigRef(r)
    }
}

} // verus!
