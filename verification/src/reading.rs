//! What a parser reads from a list of tokens.
//!
//! The functions here are the meaning of the parser's methods: each takes the state of a parser to
//! what is read there, or to the error, and to the state that the parser is left in.

use crate::context::ContextModel;
use crate::entities::{AnyEntity, Ebb, FuncRef, JumpTable, SigRef, StackSlot, Value};
use crate::error::{Failure, Location};
use crate::function::{
    with_entry, ArgumentExtension, ArgumentType, ExtFuncData, SignatureModel, StackSlotData,
};
use crate::instructions::{find_name, InstructionSet};
use crate::testfile::{Comment, IsaCommandModel, IsaModel, IsaReplyModel, IsaSpecModel, TestCommand};
use crate::text::{decimal, u8_value, words};
use crate::token::{FloatText, IntegerText, LexItem, LocatedError, Token};
use crate::types::Type;
use vstd::prelude::*;

verus! {

/// The state of a parser.
pub struct ParserState<'a> {
    /// The opcodes and condition codes that the parser knows.
    pub isa: &'a InstructionSet<'a>,
    /// The items that were not looked at yet.
    pub items: Seq<LexItem<'a>>,
    /// The last error of the lexer.
    pub lex_error: Option<LocatedError<'a>>,
    /// The token that was looked at, but not consumed.
    pub lookahead: Option<Token<'a>>,
    /// The text that follows the last token on its line.
    pub tail: &'a str,
    /// The location of the last item that was looked at.
    pub loc: Location,
    /// The entity that comments belong to; without it they are ignored.
    pub comment_entity: Option<AnyEntity>,
    /// The comments that were gathered.
    pub comments: Seq<Comment<'a>>,
}

/// What is read, or the error, and the state after it.
pub type Reading<'a, T> = (Result<T, Failure>, ParserState<'a>);

/// The items after those on a line.
pub open spec fn skip_items<'a>(items: Seq<LexItem<'a>>, line: usize) -> Seq<LexItem<'a>>
    decreases items.len(),
{
    if items.len() > 0 && items[0].location.line_number == line {
        skip_items(items.drop_first(), line)
    } else {
        items
    }
}

/// How far the `set` and `isa` commands of a file were read.
pub struct IsaProgress {
    /// The number of commands.
    pub count: nat,
    /// Was there an `isa` command?
    pub seen_isa: bool,
    /// The location of the last `set` command after the last `isa` command.
    pub dangling: Option<Location>,
    /// The options of all `set` commands.
    pub flags: Seq<Seq<char>>,
    /// The ISAs.
    pub isas: Seq<IsaModel>,
}

impl IsaProgress {
    /// Before the first command.
    pub open spec fn start() -> IsaProgress {
        IsaProgress { count: 0, seen_isa: false, dangling: None, flags: seq![], isas: seq![] }
    }

    /// After one more command. The flags are cumulative; an ISA has those set before it.
    pub open spec fn step(self, command: IsaCommandModel) -> IsaProgress {
        match command {
            IsaCommandModel::SetFlags { location, options } => IsaProgress {
                count: self.count + 1,
                dangling: Some(location),
                flags: self.flags + options,
                ..self
            },
            IsaCommandModel::SelectIsa { location, name, options } => IsaProgress {
                count: self.count + 1,
                seen_isa: true,
                dangling: None,
                isas: self.isas.push(IsaModel { name, options, flags: self.flags }),
                ..self
            },
        }
    }

    /// After the last command. Flags that no ISA has are an error, if there is an ISA.
    pub open spec fn finish(self) -> Result<IsaSpecModel, Failure> {
        if !self.seen_isa {
            Ok(IsaSpecModel::NoIsa(self.flags))
        } else if self.dangling is Some {
            Err(
                Failure {
                    location: self.dangling->0,
                    message: "dangling 'set' command after ISA specification has no effect."@,
                },
            )
        } else {
            Ok(IsaSpecModel::Isas(self.isas))
        }
    }
}

/// The reply to command number `k`. A command without a reply is accepted.
pub open spec fn reply_to(replies: Seq<IsaReplyModel>, k: nat) -> IsaReplyModel {
    if k < replies.len() {
        replies[k as int]
    } else {
        IsaReplyModel::Accepted
    }
}

/// The error that a reply to a command means.
pub open spec fn refusal(command: IsaCommandModel, reply: IsaReplyModel) -> Option<Failure> {
    match reply {
        IsaReplyModel::Accepted => None,
        IsaReplyModel::UnknownIsa => match command {
            IsaCommandModel::SetFlags { .. } => None,
            IsaCommandModel::SelectIsa { location, name, .. } => Some(
                Failure { location, message: "unknown ISA '"@ + name + "'"@ },
            ),
        },
        IsaReplyModel::Rejected(e) => Some(e),
    }
}

/// The payload of a token, by the kind of token that is wanted.
pub open spec fn type_in(t: Option<Token>) -> Option<Type> {
    match t {
        Some(Token::Type(x)) => Some(x),
        _ => None,
    }
}

pub open spec fn ss_in(t: Option<Token>) -> Option<u32> {
    match t {
        Some(Token::StackSlot(x)) => Some(x),
        _ => None,
    }
}

pub open spec fn fn_in(t: Option<Token>) -> Option<u32> {
    match t {
        Some(Token::FuncRef(x)) => Some(x),
        _ => None,
    }
}

pub open spec fn sig_in(t: Option<Token>) -> Option<u32> {
    match t {
        Some(Token::SigRef(x)) => Some(x),
        _ => None,
    }
}

pub open spec fn jt_in(t: Option<Token>) -> Option<u32> {
    match t {
        Some(Token::JumpTable(x)) => Some(x),
        _ => None,
    }
}

pub open spec fn ebb_in(t: Option<Token>) -> Option<Ebb> {
    match t {
        Some(Token::Ebb(x)) => Some(x),
        _ => None,
    }
}

pub open spec fn value_in(t: Option<Token>) -> Option<Value> {
    match t {
        Some(Token::Value(x)) => Some(x),
        _ => None,
    }
}

pub open spec fn integer_in<'a>(t: Option<Token<'a>>) -> Option<IntegerText<'a>> {
    match t {
        Some(Token::Integer(x)) => Some(x),
        _ => None,
    }
}

pub open spec fn float_in<'a>(t: Option<Token<'a>>) -> Option<FloatText<'a>> {
    match t {
        Some(Token::Float(x)) => Some(x),
        _ => None,
    }
}

pub open spec fn word_in<'a>(t: Option<Token<'a>>) -> Option<&'a str> {
    match t {
        Some(Token::Identifier(x)) => Some(x),
        _ => None,
    }
}

/// A value that may come with a message in its place.
pub open spec fn checked<T>(r: Result<T, &str>, loc: Location) -> Result<T, Failure> {
    match r {
        Ok(x) => Ok(x),
        Err(message) => Err(Failure { location: loc, message: message@ }),
    }
}

impl<'a> ParserState<'a> {
    /// The state of a parser that has not looked at anything yet.
    pub open spec fn start(
        isa: &'a InstructionSet<'a>,
        items: Seq<LexItem<'a>>,
    ) -> ParserState<'a> {
        ParserState {
            isa,
            items,
            lex_error: None,
            lookahead: None,
            tail: "",
            loc: Location { line_number: 0 },
            comment_entity: None,
            comments: seq![],
        }
    }

    /// The number of items and tokens that are left.
    pub open spec fn remaining(self) -> nat {
        self.items.len() + (if self.lookahead is Some {
            1nat
        } else {
            0nat
        })
    }

    /// Look for the next token, if there is none yet. Comments before it are gathered. A lexer
    /// error ends the search.
    pub open spec fn fill(self) -> ParserState<'a>
        decreases self.items.len(),
    {
        if self.lookahead is Some || self.items.len() == 0 {
            self
        } else {
            let item = self.items[0];
            let next = ParserState {
                items: self.items.drop_first(),
                loc: item.location,
                ..self
            };
            match item.content {
                Ok(Token::Comment(text)) => match self.comment_entity {
                    Some(entity) => (ParserState {
                        comments: self.comments.push(Comment { entity, text }),
                        ..next
                    }).fill(),
                    None => next.fill(),
                },
                Ok(token) => ParserState { lookahead: Some(token), tail: item.tail, ..next },
                Err(error) => ParserState {
                    lex_error: Some(LocatedError { error, location: item.location }),
                    ..next
                },
            }
        }
    }

    /// The next token.
    pub open spec fn peek(self) -> Option<Token<'a>> {
        self.fill().lookahead
    }

    /// After the next token.
    pub open spec fn eat(self) -> ParserState<'a> {
        ParserState { lookahead: None, ..self.fill() }
    }

    /// After the line of the token that was looked at last.
    pub open spec fn eat_line(self) -> ParserState<'a> {
        let s = self.fill();
        ParserState { lookahead: None, items: skip_items(s.items, s.loc.line_number), ..s }
    }

    /// With comments to be gathered for an entity.
    pub open spec fn gather(self, entity: AnyEntity) -> ParserState<'a> {
        ParserState { comment_entity: Some(entity), ..self }
    }

    /// With the comments at the end that belong to `from` now belonging to `to`, as will those
    /// to come.
    pub open spec fn retarget(self, from: AnyEntity, to: AnyEntity) -> ParserState<'a> {
        ParserState {
            comments: Seq::new(
                self.comments.len(),
                |i: int|
                    if forall|k: int|
                        i <= k < self.comments.len() ==> (#[trigger] self.comments[k]).entity
                            == from {
                        Comment { entity: to, text: self.comments[i].text }
                    } else {
                        self.comments[i]
                    },
            ),
            comment_entity: Some(to),
            ..self
        }
    }

    /// An error at the current location.
    pub open spec fn failure(self, message: Seq<char>) -> Failure {
        Failure { location: self.loc, message }
    }

    /// Consume the next token for its payload; it is an error if it has none of the right kind.
    pub open spec fn take<T>(self, payload: Option<T>, message: Seq<char>) -> Reading<'a, T> {
        match payload {
            Some(x) => (Ok(x), self.eat()),
            None => (Err(self.fill().failure(message)), self.fill()),
        }
    }

    /// Is this the next token?
    pub open spec fn next_is(self, want: Token<'a>) -> bool {
        self.peek() is Some && self.peek()->0.same(want)
    }

    /// Consume a token.
    pub open spec fn expect(self, want: Token<'a>, message: Seq<char>) -> Reading<'a, Token<'a>> {
        if self.next_is(want) {
            (Ok(self.peek()->0), self.eat())
        } else {
            (Err(self.fill().failure(message)), self.fill())
        }
    }

    /// Consume a token, if it is the next one.
    pub open spec fn optional(self, want: Token<'a>) -> (bool, ParserState<'a>) {
        if self.next_is(want) {
            (true, self.eat())
        } else {
            (false, self.fill())
        }
    }

    /// Is the next token this word?
    pub open spec fn at_word(self, want: Seq<char>) -> bool {
        word_in(self.peek()) is Some && word_in(self.peek())->0@ == want
    }

    /// Consume a word.
    pub open spec fn expect_word(
        self,
        want: Seq<char>,
        message: Seq<char>,
    ) -> Reading<'a, Token<'a>> {
        if self.at_word(want) {
            (Ok(self.peek()->0), self.eat())
        } else {
            (Err(self.fill().failure(message)), self.fill())
        }
    }

    pub open spec fn match_type(self, message: Seq<char>) -> Reading<'a, Type> {
        self.take(type_in(self.peek()), message)
    }

    pub open spec fn match_ss(self, message: Seq<char>) -> Reading<'a, u32> {
        self.take(ss_in(self.peek()), message)
    }

    pub open spec fn match_fn(self, message: Seq<char>) -> Reading<'a, u32> {
        self.take(fn_in(self.peek()), message)
    }

    pub open spec fn match_sig(self, message: Seq<char>) -> Reading<'a, u32> {
        self.take(sig_in(self.peek()), message)
    }

    pub open spec fn match_jt(self) -> Reading<'a, u32> {
        self.take(jt_in(self.peek()), "expected jump table number: jt«n»"@)
    }

    pub open spec fn match_ebb(self, message: Seq<char>) -> Reading<'a, Ebb> {
        self.take(ebb_in(self.peek()), message)
    }

    pub open spec fn match_value(self, message: Seq<char>) -> Reading<'a, Value> {
        self.take(value_in(self.peek()), message)
    }

    /// A 64-bit immediate. A token that looks like one but is none is consumed.
    pub open spec fn match_imm64(self, message: Seq<char>) -> Reading<'a, i64> {
        match integer_in(self.peek()) {
            Some(t) => (checked(t.imm64, self.fill().loc), self.eat()),
            None => (Err(self.fill().failure(message)), self.fill()),
        }
    }

    /// A lane number.
    pub open spec fn match_uimm8(self, message: Seq<char>) -> Reading<'a, u8> {
        match integer_in(self.peek()) {
            Some(t) => (
                match u8_value(t.text@) {
                    Some(n) => Ok(n),
                    None => Err(self.fill().failure("expected u8 decimal immediate"@)),
                },
                self.eat(),
            ),
            None => (Err(self.fill().failure(message)), self.fill()),
        }
    }

    /// The bits of a 32-bit float.
    pub open spec fn match_ieee32(self, message: Seq<char>) -> Reading<'a, u32> {
        match float_in(self.peek()) {
            Some(t) => (checked(t.ieee32, self.fill().loc), self.eat()),
            None => (Err(self.fill().failure(message)), self.fill()),
        }
    }

    /// The bits of a 64-bit float.
    pub open spec fn match_ieee64(self, message: Seq<char>) -> Reading<'a, u64> {
        match float_in(self.peek()) {
            Some(t) => (checked(t.ieee64, self.fill().loc), self.eat()),
            None => (Err(self.fill().failure(message)), self.fill()),
        }
    }

    /// One of a list of names, by its position in the list.
    pub open spec fn match_enum(
        self,
        names: Seq<&'a str>,
        message: Seq<char>,
    ) -> Reading<'a, usize> {
        match word_in(self.peek()) {
            Some(text) => (
                match find_name(names, text@, 0) {
                    Some(i) => Ok(i as usize),
                    None => Err(self.fill().failure(message)),
                },
                self.eat(),
            ),
            None => (Err(self.fill().failure(message)), self.fill()),
        }
    }

    /// A list of `test` commands, after those in `list`.
    pub open spec fn test_commands(
        self,
        list: Seq<TestCommand<'a>>,
    ) -> (Seq<TestCommand<'a>>, ParserState<'a>)
        decreases self.remaining(),
    {
        if self.at_word("test"@) {
            proof {
                lemma_eat_line(self);
            }
            self.eat_line().test_commands(list.push(TestCommand { line: self.fill().tail }))
        } else {
            (list, self.fill())
        }
    }

    /// A `set` or `isa` command, if there is one.
    pub open spec fn isa_command(
        self,
    ) -> (Option<Result<IsaCommandModel, Failure>>, ParserState<'a>) {
        let s = self.fill();
        let list = words(s.tail@);
        if self.at_word("set"@) {
            (
                Some(Ok(IsaCommandModel::SetFlags { location: s.loc, options: list })),
                self.eat_line(),
            )
        } else if self.at_word("isa"@) {
            if list.len() == 0 {
                (Some(Err(s.failure("expected ISA name"@))), self.eat_line())
            } else {
                (
                    Some(
                        Ok(
                            IsaCommandModel::SelectIsa {
                                location: s.loc,
                                name: list[0],
                                options: list.drop_first(),
                            },
                        ),
                    ),
                    self.eat_line(),
                )
            }
        } else {
            (None, s)
        }
    }

    /// The `set` and `isa` commands up to the end of the list, or up to an error.
    pub open spec fn isa_commands(self) -> Seq<IsaCommandModel>
        decreases self.remaining(),
    {
        match self.isa_command() {
            (Some(Ok(command)), s) => {
                proof {
                    lemma_eat_line(self);
                }
                seq![command] + s.isa_commands()
            },
            _ => seq![],
        }
    }

    /// The ISAs that a list of `set` and `isa` commands asks for, with the replies to the
    /// commands.
    pub open spec fn isa_specs(
        self,
        replies: Seq<IsaReplyModel>,
        progress: IsaProgress,
    ) -> Reading<'a, IsaSpecModel>
        decreases self.remaining(),
    {
        match self.isa_command() {
            (Some(Ok(command)), s) => {
                proof {
                    lemma_eat_line(self);
                }
                match refusal(command, reply_to(replies, progress.count)) {
                    Some(e) => (Err(e), s),
                    None => s.isa_specs(replies, progress.step(command)),
                }
            },
            (Some(Err(e)), s) => (Err(e), s),
            (None, s) => (progress.finish(), s),
        }
    }

    /// The flags of an argument type.
    pub open spec fn flags(self, arg: ArgumentType) -> (ArgumentType, ParserState<'a>)
        decreases self.remaining(),
    {
        proof {
            lemma_fill(self);
        }
        if self.at_word("uext"@) {
            self.eat().flags(ArgumentType { extension: ArgumentExtension::Uext, ..arg })
        } else if self.at_word("sext"@) {
            self.eat().flags(ArgumentType { extension: ArgumentExtension::Sext, ..arg })
        } else if self.at_word("inreg"@) {
            self.eat().flags(ArgumentType { inreg: true, ..arg })
        } else {
            (arg, self.fill())
        }
    }

    /// arg ::= type { flag }
    pub open spec fn argument_type(self) -> Reading<'a, ArgumentType> {
        match self.match_type("expected argument type"@) {
            (Ok(value_type), s) => {
                let (arg, s) = s.flags(
                    ArgumentType {
                        value_type,
                        extension: ArgumentExtension::Plain,
                        inreg: false,
                    },
                );
                (Ok(arg), s)
            },
            (Err(e), s) => (Err(e), s),
        }
    }

    /// { "," arg }
    pub open spec fn more_arguments(
        self,
        list: Seq<ArgumentType>,
    ) -> Reading<'a, Seq<ArgumentType>>
        decreases self.remaining(),
    {
        proof {
            lemma_fill(self);
            lemma_argument_type(self.eat());
        }
        let (more, s) = self.optional(Token::Comma);
        if more {
            match s.argument_type() {
                (Ok(arg), s) => s.more_arguments(list.push(arg)),
                (Err(e), s) => (Err(e), s),
            }
        } else {
            (Ok(list), s)
        }
    }

    /// arglist ::= arg { "," arg }
    pub open spec fn argument_list(self) -> Reading<'a, Seq<ArgumentType>> {
        match self.argument_type() {
            (Ok(arg), s) => s.more_arguments(seq![arg]),
            (Err(e), s) => (Err(e), s),
        }
    }

    /// "->" retlist, if it is there
    pub open spec fn return_list(self) -> Reading<'a, Seq<ArgumentType>> {
        let (arrow, s) = self.optional(Token::Arrow);
        if arrow {
            s.argument_list()
        } else {
            (Ok(seq![]), s)
        }
    }

    /// [arglist], up to the closing parenthesis
    pub open spec fn opt_argument_list(self) -> Reading<'a, Seq<ArgumentType>> {
        if self.peek() == Some(Token::RPar) {
            (Ok(seq![]), self.fill())
        } else {
            self.fill().argument_list()
        }
    }

    /// signature ::= "(" [arglist] ")" ["->" retlist]
    pub open spec fn signature(self) -> Reading<'a, SignatureModel> {
        match self.expect(Token::LPar, "expected function signature: ( args... )"@) {
            (Ok(_), s) => match s.opt_argument_list() {
                (Ok(argument_types), s) => match s.expect(
                    Token::RPar,
                    "expected ')' after function arguments"@,
                ) {
                    (Ok(_), s) => match s.return_list() {
                        (Ok(return_types), s) => (
                            Ok(SignatureModel { argument_types, return_types }),
                            s,
                        ),
                        (Err(e), s) => (Err(e), s),
                    },
                    (Err(e), s) => (Err(e), s),
                },
                (Err(e), s) => (Err(e), s),
            },
            (Err(e), s) => (Err(e), s),
        }
    }

    pub open spec fn function_name(self) -> Reading<'a, &'a str> {
        self.take(word_in(self.peek()), "expected function name"@)
    }

    /// function-spec ::= "function" name signature
    pub open spec fn function_spec(self) -> Reading<'a, (Location, &'a str, SignatureModel)> {
        match self.expect_word("function"@, "expected 'function'"@) {
            (Ok(_), s) => {
                let location = s.loc;
                match s.function_name() {
                    (Ok(name), s) => match s.signature() {
                        (Ok(sig), s) => (Ok((location, name, sig)), s),
                        (Err(e), s) => (Err(e), s),
                    },
                    (Err(e), s) => (Err(e), s),
                }
            },
            (Err(e), s) => (Err(e), s),
        }
    }

    /// A byte size that fits into 32 bits.
    pub open spec fn slot_size(self) -> Reading<'a, StackSlotData> {
        match self.match_imm64("expected byte-size in stack_slot decl"@) {
            (Ok(bytes), s) => if bytes < 0 {
                (Err(s.failure("negative stack slot size"@)), s)
            } else if bytes > u32::MAX {
                (Err(s.failure("stack slot too large"@)), s)
            } else {
                (Ok(StackSlotData { size: bytes as u32 }), s)
            },
            (Err(e), s) => (Err(e), s),
        }
    }

    /// stack-slot-decl ::= StackSlot(ss) "=" "stack_slot" Bytes
    pub open spec fn stack_slot_decl(self) -> Reading<'a, (u32, StackSlotData)> {
        match self.match_ss("expected stack slot number: ss«n»"@) {
            (Ok(number), s) => match s.expect(Token::Equal, "expected '=' in stack_slot decl"@) {
                (Ok(_), s) => match s.expect_word("stack_slot"@, "expected 'stack_slot'"@) {
                    (Ok(_), s) => match s.slot_size() {
                        (Ok(data), s) => (Ok((number, data)), s),
                        (Err(e), s) => (Err(e), s),
                    },
                    (Err(e), s) => (Err(e), s),
                },
                (Err(e), s) => (Err(e), s),
            },
            (Err(e), s) => (Err(e), s),
        }
    }

    /// signature-decl ::= SigRef(sigref) "=" "signature" signature
    pub open spec fn signature_decl(self) -> Reading<'a, (u32, SignatureModel)> {
        match self.match_sig("expected signature number: sig«n»"@) {
            (Ok(number), s) => match s.expect(Token::Equal, "expected '=' in signature decl"@) {
                (Ok(_), s) => match s.expect_word("signature"@, "expected 'signature'"@) {
                    (Ok(_), s) => match s.signature() {
                        (Ok(data), s) => (Ok((number, data)), s),
                        (Err(e), s) => (Err(e), s),
                    },
                    (Err(e), s) => (Err(e), s),
                },
                (Err(e), s) => (Err(e), s),
            },
            (Err(e), s) => (Err(e), s),
        }
    }

    /// The name and the signature of an external function: function-spec | SigRef(sig) name.
    ///
    /// The first form adds a signature to the function that is read, the second refers to one
    /// that was declared before.
    pub open(crate) spec fn callee(
        self,
        ctx: ContextModel<'a>,
    ) -> Reading<'a, (ExtFuncData<'a>, ContextModel<'a>)> {
        let s = self.fill();
        if self.at_word("function"@) {
            match s.function_spec() {
                (Ok((location, name, sig)), s) => {
                    let signature = SigRef::of(ctx.function.signatures.len() as u32);
                    match ContextModel::with(
                        ctx.function.with_signature(sig),
                        ctx.map.def_entity(AnyEntity::SigRef(signature), location),
                    ) {
                        Ok(ctx) => (Ok((ExtFuncData { name, signature }, ctx)), s),
                        Err(e) => (Err(e), s),
                    }
                },
                (Err(e), s) => (Err(e), s),
            }
        } else {
            match sig_in(self.peek()) {
                Some(number) => match ctx.get_sig(number, s.loc) {
                    Ok(signature) => match self.eat().function_name() {
                        (Ok(name), s) => (Ok((ExtFuncData { name, signature }, ctx)), s),
                        (Err(e), s) => (Err(e), s),
                    },
                    Err(e) => (Err(e), s),
                },
                None => (
                    Err(s.failure("expected 'function' or sig«n» in function decl"@)),
                    s,
                ),
            }
        }
    }

    /// function-decl ::= FuncRef(fnref) "=" callee
    pub open(crate) spec fn function_decl(
        self,
        ctx: ContextModel<'a>,
    ) -> Reading<'a, (u32, ExtFuncData<'a>, ContextModel<'a>)> {
        match self.match_fn("expected function number: fn«n»"@) {
            (Ok(number), s) => match s.expect(Token::Equal, "expected '=' in function decl"@) {
                (Ok(_), s) => match s.callee(ctx) {
                    (Ok((data, ctx)), s) => (Ok((number, data, ctx)), s),
                    (Err(e), s) => (Err(e), s),
                },
                (Err(e), s) => (Err(e), s),
            },
            (Err(e), s) => (Err(e), s),
        }
    }

    /// jt-entry ::= Ebb(dest) | "0"
    pub open spec fn jump_table_entry(self) -> Reading<'a, Option<Ebb>> {
        let s = self.fill();
        match self.peek() {
            Some(Token::Integer(t)) => if t.text@ == "0"@ {
                (Ok(None), self.eat())
            } else {
                (Err(s.failure("invalid jump_table entry '"@ + t.text@ + "'"@)), s)
            },
            Some(Token::Ebb(dest)) => (Ok(Some(dest)), self.eat()),
            _ => (Err(s.failure("expected jump_table entry"@)), s),
        }
    }

    /// jt-entry {"," jt-entry}, where the first entry has the position `index`. An entry "0"
    /// leaves its position without a destination.
    pub open(crate) spec fn jump_table_entries(
        self,
        index: nat,
        table: Seq<Ebb>,
    ) -> Reading<'a, Seq<Ebb>>
        decreases self.remaining(),
    {
        proof {
            lemma_jump_table_entry(self);
            lemma_fill(self.jump_table_entry().1);
        }
        match self.jump_table_entry() {
            (Ok(entry), s) => {
                let table = match entry {
                    Some(dest) => with_entry(table, index, dest),
                    None => table,
                };
                let (more, s) = s.optional(Token::Comma);
                if more {
                    s.jump_table_entries(index + 1, table)
                } else {
                    (Ok(table), s)
                }
            },
            (Err(e), s) => (Err(e), s),
        }
    }

    /// jump-table-decl ::= JumpTable(jt) "=" "jump_table" jt-entry {"," jt-entry}
    pub open(crate) spec fn jump_table_decl(self) -> Reading<'a, (u32, Seq<Ebb>)> {
        match self.match_jt() {
            (Ok(number), s) => match s.expect(Token::Equal, "expected '=' in jump_table decl"@) {
                (Ok(_), s) => match s.expect_word("jump_table"@, "expected 'jump_table'"@) {
                    (Ok(_), s) => match s.jump_table_entries(0, seq![]) {
                        (Ok(table), s) => (Ok((number, table)), s),
                        (Err(e), s) => (Err(e), s),
                    },
                    (Err(e), s) => (Err(e), s),
                },
                (Err(e), s) => (Err(e), s),
            },
            (Err(e), s) => (Err(e), s),
        }
    }

    /// One declaration of a preamble, if there is one. Comments in it belong to the entity that
    /// it declares.
    pub open(crate) spec fn preamble_decl(
        self,
        ctx: ContextModel<'a>,
    ) -> (Option<Result<ContextModel<'a>, Failure>>, ParserState<'a>) {
        let f = ctx.function;
        let s = self.fill();
        match self.peek() {
            Some(Token::StackSlot(_)) => {
                let entity = StackSlot::of(f.stack_slots.len() as u32);
                match s.gather(AnyEntity::StackSlot(entity)).stack_slot_decl() {
                    (Ok((number, data)), s) => (Some(ctx.add_ss(number, data, s.loc)), s),
                    (Err(e), s) => (Some(Err(e)), s),
                }
            },
            Some(Token::SigRef(_)) => {
                let entity = SigRef::of(f.signatures.len() as u32);
                match s.gather(AnyEntity::SigRef(entity)).signature_decl() {
                    (Ok((number, data)), s) => (Some(ctx.add_sig(number, data, s.loc)), s),
                    (Err(e), s) => (Some(Err(e)), s),
                }
            },
            Some(Token::FuncRef(_)) => {
                let entity = FuncRef::of(f.ext_funcs.len() as u32);
                match s.gather(AnyEntity::FuncRef(entity)).function_decl(ctx) {
                    (Ok((number, data, ctx)), s) => (Some(ctx.add_fn(number, data, s.loc)), s),
                    (Err(e), s) => (Some(Err(e)), s),
                }
            },
            Some(Token::JumpTable(_)) => {
                let entity = JumpTable::of(f.jump_tables.len() as u32);
                match s.gather(AnyEntity::JumpTable(entity)).jump_table_decl() {
                    (Ok((number, table)), s) => (Some(ctx.add_jt(number, table, s.loc)), s),
                    (Err(e), s) => (Some(Err(e)), s),
                }
            },
            _ => (None, s),
        }
    }

    /// preamble ::= { preamble-decl }
    pub open(crate) spec fn preamble(self, ctx: ContextModel<'a>) -> Reading<'a, ContextModel<'a>>
        decreases self.remaining(),
    {
        proof {
            lemma_preamble_decl(self, ctx);
        }
        match self.preamble_decl(ctx) {
            (Some(Ok(ctx)), s) => s.preamble(ctx),
            (Some(Err(e)), s) => (Err(e), s),
            (None, s) => (Ok(ctx), s),
        }
    }
}

/// Looking for a token uses up items, and the token itself if it is consumed.
pub broadcast proof fn lemma_fill(st: ParserState)
    ensures
        (#[trigger] st.fill()).remaining() <= st.remaining(),
        st.fill().isa == st.isa,
        st.fill().comment_entity == st.comment_entity,
        st.fill().lookahead is Some ==> st.eat().remaining() < st.remaining(),
        st.eat().remaining() <= st.remaining(),
        st.lookahead is Some ==> st.fill() == st,
    decreases st.items.len(),
{
    if st.lookahead is None && st.items.len() > 0 {
        let item = st.items[0];
        let next = ParserState { items: st.items.drop_first(), loc: item.location, ..st };
        if let Ok(Token::Comment(text)) = item.content {
            if let Some(entity) = st.comment_entity {
                lemma_fill(
                    ParserState { comments: st.comments.push(Comment { entity, text }), ..next },
                );
            } else {
                lemma_fill(next);
            }
        }
    }
}

/// Skipping the items on a line leaves no more items than there were.
pub proof fn lemma_skip_items(items: Seq<LexItem>, line: usize)
    ensures
        skip_items(items, line).len() <= items.len(),
    decreases items.len(),
{
    if items.len() > 0 {
        lemma_skip_items(items.drop_first(), line);
    }
}

/// A line takes at least one token.
pub proof fn lemma_eat_line(st: ParserState)
    ensures
        st.eat_line().isa == st.isa,
        st.eat_line().remaining() <= st.remaining(),
        st.peek() is Some ==> st.eat_line().remaining() < st.remaining(),
{
    lemma_fill(st);
    lemma_skip_items(st.fill().items, st.fill().loc.line_number);
}

pub proof fn lemma_test_commands<'a>(st: ParserState<'a>, list: Seq<TestCommand<'a>>)
    ensures
        st.test_commands(list).1.isa == st.isa,
        st.test_commands(list).1.remaining() <= st.remaining(),
    decreases st.remaining(),
{
    lemma_fill(st);
    lemma_eat_line(st);
    if st.at_word("test"@) {
        lemma_test_commands(st.eat_line(), list.push(TestCommand { line: st.fill().tail }));
    }
}

pub proof fn lemma_isa_specs(
    st: ParserState,
    replies: Seq<IsaReplyModel>,
    progress: IsaProgress,
)
    ensures
        st.isa_specs(replies, progress).1.isa == st.isa,
        st.isa_specs(replies, progress).1.remaining() <= st.remaining(),
    decreases st.remaining(),
{
    lemma_fill(st);
    lemma_eat_line(st);
    if let (Some(Ok(command)), s) = st.isa_command() {
        if refusal(command, reply_to(replies, progress.count)) is None {
            lemma_isa_specs(s, replies, progress.step(command));
        }
    }
}

pub broadcast proof fn lemma_flags(st: ParserState, arg: ArgumentType)
    ensures
        (#[trigger] st.flags(arg)).1.remaining() <= st.remaining(),
        st.flags(arg).1.isa == st.isa,
    decreases st.remaining(),
{
    lemma_fill(st);
    if st.at_word("uext"@) {
        lemma_flags(st.eat(), ArgumentType { extension: ArgumentExtension::Uext, ..arg });
    } else if st.at_word("sext"@) {
        lemma_flags(st.eat(), ArgumentType { extension: ArgumentExtension::Sext, ..arg });
    } else if st.at_word("inreg"@) {
        lemma_flags(st.eat(), ArgumentType { inreg: true, ..arg });
    }
}

/// How much is left after reading something that takes at least one token.
pub open spec fn takes<T>(st: ParserState, reading: Reading<T>) -> bool {
    &&& reading.1.isa == st.isa
    &&& reading.1.remaining() <= st.remaining()
    &&& reading.0 is Ok ==> reading.1.remaining() < st.remaining()
}

pub broadcast proof fn lemma_argument_type(st: ParserState)
    ensures
        takes(st, #[trigger] st.argument_type()),
{
    broadcast use {lemma_fill, lemma_flags};

}

pub broadcast proof fn lemma_more_arguments(st: ParserState, list: Seq<ArgumentType>)
    ensures
        (#[trigger] st.more_arguments(list)).1.remaining() <= st.remaining(),
        st.more_arguments(list).1.isa == st.isa,
    decreases st.remaining(),
{
    broadcast use {lemma_fill, lemma_argument_type};

    let (more, s) = st.optional(Token::Comma);
    if more {
        if let (Ok(arg), s) = s.argument_type() {
            lemma_more_arguments(s, list.push(arg));
        }
    }
}

pub broadcast proof fn lemma_signature(st: ParserState)
    ensures
        takes(st, #[trigger] st.signature()),
{
    broadcast use {lemma_fill, lemma_argument_type, lemma_more_arguments};

}

pub broadcast proof fn lemma_function_spec(st: ParserState)
    ensures
        takes(st, #[trigger] st.function_spec()),
{
    broadcast use {lemma_fill, lemma_signature};

}

pub broadcast proof fn lemma_callee<'a>(st: ParserState<'a>, ctx: ContextModel<'a>)
    ensures
        takes(st, #[trigger] st.callee(ctx)),
{
    broadcast use {lemma_fill, lemma_function_spec};

}

pub broadcast proof fn lemma_jump_table_entry(st: ParserState)
    ensures
        takes(st, #[trigger] st.jump_table_entry()),
{
    broadcast use lemma_fill;

}

pub broadcast proof fn lemma_jump_table_entries(st: ParserState, index: nat, table: Seq<Ebb>)
    ensures
        takes(st, #[trigger] st.jump_table_entries(index, table)),
    decreases st.remaining(),
{
    broadcast use {lemma_fill, lemma_jump_table_entry};

    if let (Ok(entry), s) = st.jump_table_entry() {
        let table = match entry {
            Some(dest) => with_entry(table, index, dest),
            None => table,
        };
        let (more, s) = s.optional(Token::Comma);
        if more {
            lemma_jump_table_entries(s, index + 1, table);
        }
    }
}

/// A declaration takes at least one token.
pub broadcast proof fn lemma_preamble_decl<'a>(st: ParserState<'a>, ctx: ContextModel<'a>)
    ensures
        (#[trigger] st.preamble_decl(ctx)).1.remaining() <= st.remaining(),
        st.preamble_decl(ctx).1.isa == st.isa,
        st.preamble_decl(ctx).0 is Some && st.preamble_decl(ctx).0->0 is Ok ==> st.preamble_decl(
            ctx,
        ).1.remaining() < st.remaining(),
{
    broadcast use {lemma_fill, lemma_signature, lemma_callee, lemma_jump_table_entries};

}

pub broadcast proof fn lemma_preamble<'a>(st: ParserState<'a>, ctx: ContextModel<'a>)
    ensures
        (#[trigger] st.preamble(ctx)).1.remaining() <= st.remaining(),
        st.preamble(ctx).1.isa == st.isa,
    decreases st.remaining(),
{
    broadcast use lemma_preamble_decl;

    if let (Some(Ok(ctx)), s) = st.preamble_decl(ctx) {
        lemma_preamble(s, ctx);
    }
}

} // verus!
