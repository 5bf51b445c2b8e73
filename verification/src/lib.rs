//! A reader for Cretonne IL files that works on the tokens of a file.
//!
//! [`parse_test`] and [`parse_functions`] read whole files, and a [`Parser`] reads pieces of one.
//! What they return for each list of tokens is defined in [`reading`], [`syntax`] and [`body`], and
//! the function and the source map that are built on the way in [`function`], [`sourcemap`] and
//! [`context`]. The modules whose names end in `_laws` hold what follows from these definitions.

pub mod acceptance_laws;
pub mod body;
pub mod building_laws;
pub mod comment_entity_laws;
pub mod comment_laws;
pub mod context;
pub mod declaration_laws;
pub mod entities;
pub mod entity_laws;
pub mod error;
pub mod error_laws;
pub mod file_laws;
pub mod function;
pub mod function_laws;
pub mod instructions;
pub mod isa_laws;
pub mod line_laws;
pub mod location_laws;
pub mod notation_laws;
mod parse_blocks;
mod parse_declarations;
mod parse_files;
mod parse_instructions;
mod parse_operands;
pub mod parser;
pub mod preamble_laws;
pub mod reading;
pub mod reference_laws;
pub mod signature_laws;
pub mod source_laws;
pub mod sourcemap;
pub mod syntax;
pub mod testfile;
pub mod text;
pub mod text_laws;
pub mod token;
pub mod token_laws;
pub mod types;

pub use entities::{
    no_ebb, no_func_ref, no_inst, no_jump_table, no_sig_ref, no_stack_slot, no_value, AnyEntity,
    Ebb, EntityRef, ExpandedValue, FuncRef, Inst, JumpTable, SigRef, StackSlot, Value,
};
pub use error::{Error, Location};
pub use function::{
    ArgumentExtension, ArgumentType, EbbData, ExtFuncData, Function, InstEntry, JumpTableData,
    Signature, StackSlotData,
};
pub use instructions::{
    InstructionData, InstructionFormat, InstructionSet, Opcode, OpcodeInfo, Operands, Typing,
};
pub use parse_files::{isa_commands, parse_functions, parse_test};
pub use parser::Parser;
pub use sourcemap::SourceMap;
pub use testfile::{
    Comment, Details, Isa, IsaCommand, IsaReply, IsaSpec, TestCommand, TestFile,
};
pub use token::{FloatText, IntegerText, LexError, LexItem, LocatedError, Token};
pub use types::{LaneType, Type};
