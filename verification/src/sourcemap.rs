//! The mapping from the numbers in the source text to the entities of a function.
//!
//! Values, blocks, stack slots and the like are referred to by number in the source text. A
//! [`SourceMap`] holds which entity each number stands for, and where each entity was defined.

use crate::entities::{
    AnyEntity, Ebb, EntityRef, FuncRef, Inst, JumpTable, SigRef, StackSlot, Value,
};
use crate::error::{Error, Failure, Location};
use crate::text::{decimal, numbered};
use std::collections::HashMap;
use vstd::prelude::*;
use vstd::string::*;

verus! {

/// A number for each entity, by which its location is found.
pub open(crate) spec fn entity_key(entity: AnyEntity) -> u64 {
    match entity {
        AnyEntity::Function => 0,
        AnyEntity::Ebb(r) => (0x1_0000_0000 + r.number()) as u64,
        AnyEntity::Inst(r) => (0x2_0000_0000 + r.number()) as u64,
        AnyEntity::Value(r) => (0x3_0000_0000 + r.number()) as u64,
        AnyEntity::StackSlot(r) => (0x4_0000_0000 + r.number()) as u64,
        AnyEntity::JumpTable(r) => (0x5_0000_0000 + r.number()) as u64,
        AnyEntity::FuncRef(r) => (0x6_0000_0000 + r.number()) as u64,
        AnyEntity::SigRef(r) => (0x7_0000_0000 + r.number()) as u64,
    }
}

fn key_of(entity: AnyEntity) -> (key: u64)
    ensures
        key == entity_key(entity),
{
    match entity {
        AnyEntity::Function => 0,
        AnyEntity::Ebb(r) => 0x1_0000_0000 + r.0 as u64,
        AnyEntity::Inst(r) => 0x2_0000_0000 + r.0 as u64,
        AnyEntity::Value(r) => 0x3_0000_0000 + r.0 as u64,
        AnyEntity::StackSlot(r) => 0x4_0000_0000 + r.0 as u64,
        AnyEntity::JumpTable(r) => 0x5_0000_0000 + r.0 as u64,
        AnyEntity::FuncRef(r) => 0x6_0000_0000 + r.0 as u64,
        AnyEntity::SigRef(r) => 0x7_0000_0000 + r.0 as u64,
    }
}

/// Mappings from source numbers to entities, and the locations of the entities.
///
/// Values and blocks are found by the number that their source reference wraps.
#[derive(Debug)]
pub struct SourceMap {
    pub(crate) values: HashMap<u32, Value>,
    pub(crate) ebbs: HashMap<u32, Ebb>,
    pub(crate) stack_slots: HashMap<u32, StackSlot>,
    pub(crate) signatures: HashMap<u32, SigRef>,
    pub(crate) functions: HashMap<u32, FuncRef>,
    pub(crate) jump_tables: HashMap<u32, JumpTable>,
    pub(crate) locations: HashMap<u64, Location>,
}

pub struct SourceMapModel {
    pub values: Map<u32, Value>,
    pub ebbs: Map<u32, Ebb>,
    pub stack_slots: Map<u32, StackSlot>,
    pub signatures: Map<u32, SigRef>,
    pub functions: Map<u32, FuncRef>,
    pub jump_tables: Map<u32, JumpTable>,
    pub locations: Map<u64, Location>,
}

impl View for SourceMap {
    type V = SourceMapModel;

    open(crate) spec fn view(&self) -> SourceMapModel {
        SourceMapModel {
            values: self.values@,
            ebbs: self.ebbs@,
            stack_slots: self.stack_slots@,
            signatures: self.signatures@,
            functions: self.functions@,
            jump_tables: self.jump_tables@,
            locations: self.locations@,
        }
    }
}

/// What a map has for a key.
pub open spec fn lookup<K, V>(m: Map<K, V>, key: K) -> Option<V> {
    if m.contains_key(key) {
        Some(m[key])
    } else {
        None
    }
}

/// Do different keys have different values?
pub open spec fn one_to_one<K, V>(m: Map<K, V>) -> bool {
    forall|j: K, k: K|
        m.contains_key(j) && m.contains_key(k) && (#[trigger] m[j]) == (#[trigger] m[k]) ==> j == k
}

/// The outcome of an update: the new state, or the error.
pub open spec fn updated<M>(r: Result<(), Error>, after: M) -> Result<M, Failure> {
    match r {
        Ok(()) => Ok(after),
        Err(e) => Err(e@),
    }
}

impl SourceMapModel {
    /// A map without entries.
    pub open spec fn empty() -> SourceMapModel {
        SourceMapModel {
            values: Map::empty(),
            ebbs: Map::empty(),
            stack_slots: Map::empty(),
            signatures: Map::empty(),
            functions: Map::empty(),
            jump_tables: Map::empty(),
            locations: Map::empty(),
        }
    }

    /// The value that a source value stands for.
    pub open(crate) spec fn value(self, src: Value) -> Option<Value> {
        lookup(self.values, src.0)
    }

    /// The block that a source block stands for.
    pub open(crate) spec fn ebb(self, src: Ebb) -> Option<Ebb> {
        lookup(self.ebbs, src.0)
    }

    /// Where an entity was defined.
    pub open(crate) spec fn location(self, entity: AnyEntity) -> Option<Location> {
        lookup(self.locations, entity_key(entity))
    }

    /// Does every number stand for an entity of its own, which has a location?
    pub open(crate) spec fn faithful(self) -> bool {
        &&& forall|k: u32|
            self.values.contains_key(k) ==> self.location(
                AnyEntity::Value(#[trigger] self.values[k]),
            ) is Some
        &&& one_to_one(self.values)
        &&& forall|k: u32|
            self.ebbs.contains_key(k) ==> self.location(
                AnyEntity::Ebb(#[trigger] self.ebbs[k]),
            ) is Some
        &&& one_to_one(self.ebbs)
        &&& forall|k: u32|
            self.stack_slots.contains_key(k) ==> self.location(
                AnyEntity::StackSlot(#[trigger] self.stack_slots[k]),
            ) is Some
        &&& one_to_one(self.stack_slots)
        &&& forall|k: u32|
            self.signatures.contains_key(k) ==> self.location(
                AnyEntity::SigRef(#[trigger] self.signatures[k]),
            ) is Some
        &&& one_to_one(self.signatures)
        &&& forall|k: u32|
            self.functions.contains_key(k) ==> self.location(
                AnyEntity::FuncRef(#[trigger] self.functions[k]),
            ) is Some
        &&& one_to_one(self.functions)
        &&& forall|k: u32|
            self.jump_tables.contains_key(k) ==> self.location(
                AnyEntity::JumpTable(#[trigger] self.jump_tables[k]),
            ) is Some
        &&& one_to_one(self.jump_tables)
    }

    /// The error for a reference, in the entity `at`, to something that has no definition.
    pub open(crate) spec fn undefined(self, at: AnyEntity, text: Seq<char>) -> Failure {
        Failure {
            location: match self.location(at) {
                Some(loc) => loc,
                None => Location { line_number: 0 },
            },
            message: "undefined reference: "@ + text,
        }
    }

    /// The definition of an entity at a location. No entity is defined twice.
    pub open(crate) spec fn def_entity(
        self,
        entity: AnyEntity,
        loc: Location,
    ) -> Result<SourceMapModel, Failure> {
        if self.location(entity) is Some {
            Err(Failure { location: loc, message: "duplicate entity: "@ + entity.text() })
        } else {
            Ok(
                SourceMapModel {
                    locations: self.locations.insert(entity_key(entity), loc),
                    ..self
                },
            )
        }
    }

    /// The definition of what a source value stands for. No number is defined twice.
    pub open(crate) spec fn def_value(
        self,
        src: Value,
        entity: Value,
        loc: Location,
    ) -> Result<SourceMapModel, Failure> {
        if self.values.contains_key(src.0) {
            Err(Failure { location: loc, message: "duplicate value: "@ + src.text() })
        } else {
            SourceMapModel { values: self.values.insert(src.0, entity), ..self }.def_entity(
                AnyEntity::Value(entity),
                loc,
            )
        }
    }

    /// The definition of what a source block stands for. No number is defined twice.
    pub open(crate) spec fn def_ebb(
        self,
        src: Ebb,
        entity: Ebb,
        loc: Location,
    ) -> Result<SourceMapModel, Failure> {
        if self.ebbs.contains_key(src.0) {
            Err(Failure { location: loc, message: "duplicate EBB: "@ + src.text() })
        } else {
            SourceMapModel { ebbs: self.ebbs.insert(src.0, entity), ..self }.def_entity(
                AnyEntity::Ebb(entity),
                loc,
            )
        }
    }

    /// The definition of what a source stack slot number stands for. No number is defined twice.
    pub open(crate) spec fn def_ss(
        self,
        src: u32,
        entity: StackSlot,
        loc: Location,
    ) -> Result<SourceMapModel, Failure> {
        if self.stack_slots.contains_key(src) {
            Err(
                Failure { location: loc, message: "duplicate stack slot: ss"@ + decimal(src as nat) },
            )
        } else {
            SourceMapModel { stack_slots: self.stack_slots.insert(src, entity), ..self }.def_entity(
                AnyEntity::StackSlot(entity),
                loc,
            )
        }
    }

    /// The definition of what a source signature number stands for. No number is defined twice.
    pub open(crate) spec fn def_sig(
        self,
        src: u32,
        entity: SigRef,
        loc: Location,
    ) -> Result<SourceMapModel, Failure> {
        if self.signatures.contains_key(src) {
            Err(
                Failure { location: loc, message: "duplicate signature: sig"@ + decimal(src as nat) },
            )
        } else {
            SourceMapModel { signatures: self.signatures.insert(src, entity), ..self }.def_entity(
                AnyEntity::SigRef(entity),
                loc,
            )
        }
    }

    /// The definition of what a source function number stands for. No number is defined twice.
    pub open(crate) spec fn def_fn(
        self,
        src: u32,
        entity: FuncRef,
        loc: Location,
    ) -> Result<SourceMapModel, Failure> {
        if self.functions.contains_key(src) {
            Err(Failure { location: loc, message: "duplicate function: fn"@ + decimal(src as nat) })
        } else {
            SourceMapModel { functions: self.functions.insert(src, entity), ..self }.def_entity(
                AnyEntity::FuncRef(entity),
                loc,
            )
        }
    }

    /// The definition of what a source jump table number stands for. No number is defined twice.
    pub open(crate) spec fn def_jt(
        self,
        src: u32,
        entity: JumpTable,
        loc: Location,
    ) -> Result<SourceMapModel, Failure> {
        if self.jump_tables.contains_key(src) {
            Err(
                Failure { location: loc, message: "duplicate jump table: jt"@ + decimal(src as nat) },
            )
        } else {
            SourceMapModel { jump_tables: self.jump_tables.insert(src, entity), ..self }.def_entity(
                AnyEntity::JumpTable(entity),
                loc,
            )
        }
    }
}

/// Two entities with the same key are the same.
pub proof fn lemma_entity_key_injective(a: AnyEntity, b: AnyEntity)
    requires
        entity_key(a) == entity_key(b),
    ensures
        a == b,
{
}

/// A definition takes no location away, and gives one to its entity alone.
proof fn lemma_def_entity_location(map: SourceMapModel, e: AnyEntity, loc: Location)
    requires
        map.def_entity(e, loc) is Ok,
    ensures
        forall|d: AnyEntity| #[trigger]
            map.def_entity(e, loc)->Ok_0.location(d) == (if d == e {
                Some(loc)
            } else {
                map.location(d)
            }),
{
    let after = map.def_entity(e, loc)->Ok_0;
    assert forall|d: AnyEntity| #[trigger] after.location(d) == (if d == e {
        Some(loc)
    } else {
        map.location(d)
    }) by {
        if entity_key(d) == entity_key(e) {
            lemma_entity_key_injective(d, e);
        }
    }
}

/// Numbers stand for entities of their own, when an entity gets a location.
pub proof fn lemma_faithful_entity(map: SourceMapModel, e: AnyEntity, loc: Location)
    requires
        map.faithful(),
        map.def_entity(e, loc) is Ok,
    ensures
        map.def_entity(e, loc)->Ok_0.faithful(),
{
    lemma_def_entity_location(map, e, loc);
}

/// Numbers stand for entities of their own, when one more number is defined.
pub proof fn lemma_faithful_value(map: SourceMapModel, src: Value, r: Value, loc: Location)
    requires
        map.faithful(),
        map.def_value(src, r, loc) is Ok,
    ensures
        map.def_value(src, r, loc)->Ok_0.faithful(),
{
    let mid = SourceMapModel { values: map.values.insert(src.0, r), ..map };
    lemma_def_entity_location(mid, AnyEntity::Value(r), loc);
    assert forall|d: AnyEntity| #[trigger] mid.location(d) == map.location(d) by {}
}

/// Numbers stand for entities of their own, when one more number is defined.
pub proof fn lemma_faithful_ebb(map: SourceMapModel, src: Ebb, r: Ebb, loc: Location)
    requires
        map.faithful(),
        map.def_ebb(src, r, loc) is Ok,
    ensures
        map.def_ebb(src, r, loc)->Ok_0.faithful(),
{
    let mid = SourceMapModel { ebbs: map.ebbs.insert(src.0, r), ..map };
    lemma_def_entity_location(mid, AnyEntity::Ebb(r), loc);
    assert forall|d: AnyEntity| #[trigger] mid.location(d) == map.location(d) by {}
}

/// Numbers stand for entities of their own, when one more number is defined.
pub proof fn lemma_faithful_ss(map: SourceMapModel, src: u32, r: StackSlot, loc: Location)
    requires
        map.faithful(),
        map.def_ss(src, r, loc) is Ok,
    ensures
        map.def_ss(src, r, loc)->Ok_0.faithful(),
{
    let mid = SourceMapModel { stack_slots: map.stack_slots.insert(src, r), ..map };
    lemma_def_entity_location(mid, AnyEntity::StackSlot(r), loc);
    assert forall|d: AnyEntity| #[trigger] mid.location(d) == map.location(d) by {}
}

/// Numbers stand for entities of their own, when one more number is defined.
pub proof fn lemma_faithful_sig(map: SourceMapModel, src: u32, r: SigRef, loc: Location)
    requires
        map.faithful(),
        map.def_sig(src, r, loc) is Ok,
    ensures
        map.def_sig(src, r, loc)->Ok_0.faithful(),
{
    let mid = SourceMapModel { signatures: map.signatures.insert(src, r), ..map };
    lemma_def_entity_location(mid, AnyEntity::SigRef(r), loc);
    assert forall|d: AnyEntity| #[trigger] mid.location(d) == map.location(d) by {}
}

/// Numbers stand for entities of their own, when one more number is defined.
pub proof fn lemma_faithful_fn(map: SourceMapModel, src: u32, r: FuncRef, loc: Location)
    requires
        map.faithful(),
        map.def_fn(src, r, loc) is Ok,
    ensures
        map.def_fn(src, r, loc)->Ok_0.faithful(),
{
    let mid = SourceMapModel { functions: map.functions.insert(src, r), ..map };
    lemma_def_entity_location(mid, AnyEntity::FuncRef(r), loc);
    assert forall|d: AnyEntity| #[trigger] mid.location(d) == map.location(d) by {}
}

/// Numbers stand for entities of their own, when one more number is defined.
pub proof fn lemma_faithful_jt(map: SourceMapModel, src: u32, r: JumpTable, loc: Location)
    requires
        map.faithful(),
        map.def_jt(src, r, loc) is Ok,
    ensures
        map.def_jt(src, r, loc)->Ok_0.faithful(),
{
    let mid = SourceMapModel { jump_tables: map.jump_tables.insert(src, r), ..map };
    lemma_def_entity_location(mid, AnyEntity::JumpTable(r), loc);
    assert forall|d: AnyEntity| #[trigger] mid.location(d) == map.location(d) by {}
}

impl SourceMap {
    /// A map without entries.
    pub fn new() -> (map: SourceMap)
        ensures
            map@ == SourceMapModel::empty(),
    {
        SourceMap {
            values: HashMap::new(),
            ebbs: HashMap::new(),
            stack_slots: HashMap::new(),
            signatures: HashMap::new(),
            functions: HashMap::new(),
            jump_tables: HashMap::new(),
            locations: HashMap::new(),
        }
    }

    /// Where an entity was defined.
    pub fn location(&self, entity: AnyEntity) -> (loc: Option<Location>)
        ensures
            loc == self@.location(entity),
    {
        match self.locations.get(&key_of(entity)) {
            Some(loc) => Some(*loc),
            None => None,
        }
    }

    /// What a source value stands for.
    pub fn get_value(&self, src: Value) -> (entity: Option<Value>)
        ensures
            entity == self@.value(src),
    {
        match self.values.get(&src.0) {
            Some(entity) => Some(*entity),
            None => None,
        }
    }

    /// What a source block stands for.
    pub fn get_ebb(&self, src: Ebb) -> (entity: Option<Ebb>)
        ensures
            entity == self@.ebb(src),
    {
        match self.ebbs.get(&src.0) {
            Some(entity) => Some(*entity),
            None => None,
        }
    }

    /// What a source stack slot number stands for.
    pub fn get_ss(&self, src: u32) -> (entity: Option<StackSlot>)
        ensures
            entity == lookup(self@.stack_slots, src),
    {
        match self.stack_slots.get(&src) {
            Some(entity) => Some(*entity),
            None => None,
        }
    }

    /// What a source signature number stands for.
    pub fn get_sig(&self, src: u32) -> (entity: Option<SigRef>)
        ensures
            entity == lookup(self@.signatures, src),
    {
        match self.signatures.get(&src) {
            Some(entity) => Some(*entity),
            None => None,
        }
    }

    /// What a source function number stands for.
    pub fn get_fn(&self, src: u32) -> (entity: Option<FuncRef>)
        ensures
            entity == lookup(self@.functions, src),
    {
        match self.functions.get(&src) {
            Some(entity) => Some(*entity),
            None => None,
        }
    }

    /// What a source jump table number stands for.
    pub fn get_jt(&self, src: u32) -> (entity: Option<JumpTable>)
        ensures
            entity == lookup(self@.jump_tables, src),
    {
        match self.jump_tables.get(&src) {
            Some(entity) => Some(*entity),
            None => None,
        }
    }

    /// Record where an entity is defined.
    pub(crate) fn def_entity(&mut self, entity: AnyEntity, loc: Location) -> (r: Result<(), Error>)
        ensures
            updated(r, final(self)@) == old(self)@.def_entity(entity, loc),
    {
        if self.locations.insert(key_of(entity), loc).is_some() {
            let message = "duplicate entity: ".to_owned().concat(entity.to_string().as_str());
            Err(Error { location: loc, message })
        } else {
            Ok(())
        }
    }

    /// Define what a source value stands for.
    pub(crate) fn def_value(
        &mut self,
        src: Value,
        entity: Value,
        loc: Location,
    ) -> (r: Result<(), Error>)
        ensures
            updated(r, final(self)@) == old(self)@.def_value(src, entity, loc),
    {
        if self.values.insert(src.0, entity).is_some() {
            let message = "duplicate value: ".to_owned().concat(src.to_string().as_str());
            Err(Error { location: loc, message })
        } else {
            self.def_entity(AnyEntity::Value(entity), loc)
        }
    }

    /// Define what a source block stands for.
    pub(crate) fn def_ebb(&mut self, src: Ebb, entity: Ebb, loc: Location) -> (r: Result<(), Error>)
        ensures
            updated(r, final(self)@) == old(self)@.def_ebb(src, entity, loc),
    {
        if self.ebbs.insert(src.0, entity).is_some() {
            let message = "duplicate EBB: ".to_owned().concat(src.to_string().as_str());
            Err(Error { location: loc, message })
        } else {
            self.def_entity(AnyEntity::Ebb(entity), loc)
        }
    }

    /// Define what a source stack slot number stands for.
    pub(crate) fn def_ss(
        &mut self,
        src: u32,
        entity: StackSlot,
        loc: Location,
    ) -> (r: Result<(), Error>)
        ensures
            updated(r, final(self)@) == old(self)@.def_ss(src, entity, loc),
    {
        if self.stack_slots.insert(src, entity).is_some() {
            let message = numbered("duplicate stack slot: ss", src as u64);
            Err(Error { location: loc, message })
        } else {
            self.def_entity(AnyEntity::StackSlot(entity), loc)
        }
    }

    /// Define what a source signature number stands for.
    pub(crate) fn def_sig(
        &mut self,
        src: u32,
        entity: SigRef,
        loc: Location,
    ) -> (r: Result<(), Error>)
        ensures
            updated(r, final(self)@) == old(self)@.def_sig(src, entity, loc),
    {
        if self.signatures.insert(src, entity).is_some() {
            let message = numbered("duplicate signature: sig", src as u64);
            Err(Error { location: loc, message })
        } else {
            self.def_entity(AnyEntity::SigRef(entity), loc)
        }
    }

    /// Define what a source function number stands for.
    pub(crate) fn def_fn(
        &mut self,
        src: u32,
        entity: FuncRef,
        loc: Location,
    ) -> (r: Result<(), Error>)
        ensures
            updated(r, final(self)@) == old(self)@.def_fn(src, entity, loc),
    {
        if self.functions.insert(src, entity).is_some() {
            let message = numbered("duplicate function: fn", src as u64);
            Err(Error { location: loc, message })
        } else {
            self.def_entity(AnyEntity::FuncRef(entity), loc)
        }
    }

    /// Define what a source jump table number stands for.
    pub(crate) fn def_jt(
        &mut self,
        src: u32,
        entity: JumpTable,
        loc: Location,
    ) -> (r: Result<(), Error>)
        ensures
            updated(r, final(self)@) == old(self)@.def_jt(src, entity, loc),
    {
        if self.jump_tables.insert(src, entity).is_some() {
            let message = numbered("duplicate jump table: jt", src as u64);
            Err(Error { location: loc, message })
        } else {
            self.def_entity(AnyEntity::JumpTable(entity), loc)
        }
    }

    /// The error for a reference, in the entity `at`, to something that has no definition.
    fn undefined(&self, at: AnyEntity, text: String) -> (e: Error)
        ensures
            e@ == self@.undefined(at, text@),
    {
        let location = match self.location(at) {
            Some(loc) => loc,
            None => Location { line_number: 0 },
        };
        Error { location, message: "undefined reference: ".to_owned().concat(text.as_str()) }
    }

    /// Replace a source value, in the entity `at`, by the value that it stands for.
    pub(crate) fn rewrite_value(&self, val: &mut Value, at: AnyEntity) -> (r: Result<(), Error>)
        ensures
            match self@.value(*old(val)) {
                Some(new) => r is Ok && *final(val) == new,
                None => r is Err && r->Err_0@ == self@.undefined(at, old(val).text()),
            },
    {
        match self.get_value(*val) {
            Some(new) => {
                *val = new;
                Ok(())
            },
            None => Err(self.undefined(at, val.to_string())),
        }
    }

    /// Replace a source block, in the entity `at`, by the block that it stands for.
    pub(crate) fn rewrite_ebb(&self, ebb: &mut Ebb, at: AnyEntity) -> (r: Result<(), Error>)
        ensures
            match self@.ebb(*old(ebb)) {
                Some(new) => r is Ok && *final(ebb) == new,
                None => r is Err && r->Err_0@ == self@.undefined(at, old(ebb).text()),
            },
    {
        match self.get_ebb(*ebb) {
            Some(new) => {
                *ebb = new;
                Ok(())
            },
            None => Err(self.undefined(at, ebb.to_string())),
        }
    }
}

} // verus!
