//! Parsing of functions and of whole files.

use crate::body::lemma_function;
use crate::context::{laid_out, Context};
use crate::entities::AnyEntity;
use crate::error::{viewed, Error, Failure};
use crate::function::{views, Function, FunctionModel};
use crate::function_laws::{law_references_resolved, resolved};
use crate::instructions::InstructionSet;
use crate::parser::Parser;
use crate::reading::{
    lemma_eat_line, lemma_fill, lemma_function_spec, lemma_isa_specs, lemma_test_commands, refusal,
    IsaProgress, ParserState,
};
use crate::testfile::{
    Details, DetailsModel, Isa, IsaCommand, IsaCommandModel, IsaReply, IsaSpec, TestCommand,
    TestFile,
};
use crate::text::{same_text, split_words, texts};
use crate::token::{LexItem, Token};
use vstd::prelude::*;
use vstd::string::*;

verus! {

broadcast use lemma_fill;

/// What a parser says of a `set` or `isa` command.
pub open spec fn command_view(r: Option<Result<IsaCommand, Error>>) -> Option<
    Result<IsaCommandModel, Failure>,
> {
    match r {
        Some(c) => Some(viewed(c)),
        None => None,
    }
}

/// Are the references in all functions resolved?
pub open(crate) spec fn all_resolved<'a>(list: Seq<(FunctionModel<'a>, DetailsModel<'a>)>) -> bool {
    forall|i: int| 0 <= i < list.len() ==> resolved((#[trigger] list[i]).0)
}

/// Add the texts of a list to another list.
fn add_texts<'a>(list: &mut Vec<&'a str>, more: &Vec<&'a str>)
    ensures
        texts(final(list)@) == texts(old(list)@) + texts(more@),
{
    let mut i: usize = 0;
    while i < more.len()
        invariant
            i <= more.len(),
            texts(list@) == texts(old(list)@) + texts(more@).take(i as int),
        decreases more.len() - i,
    {
        let ghost before = list@;
        list.push(more[i]);
        i += 1;
        assert(texts(list@) =~= texts(before).push(more@[i - 1]@));
        assert(texts(more@).take(i as int) =~= texts(more@).take(i - 1).push(more@[i - 1]@));
    }
    assert(texts(more@).take(i as int) =~= texts(more@));
}

impl<'a, 's> Parser<'a, 's> {
    /// Parse a list of test commands.
    pub fn parse_test_commands(&mut self) -> (list: Vec<TestCommand<'a>>)
        ensures
            (list@, final(self)@) == old(self)@.test_commands(seq![]),
    {
        let mut list: Vec<TestCommand<'a>> = Vec::new();
        let ghost goal = self@.test_commands(list@);
        while self.at_word("test")
            invariant_except_break
                self@.test_commands(list@) == goal,
            invariant
                goal == old(self)@.test_commands(seq![]),
            ensures
                (list@, self@) == goal,
            decreases self@.remaining(),
        {
            proof {
                lemma_eat_line(self@);
            }
            let line = self.consume_line();
            list.push(TestCommand { line });
        }
        list
    }

    /// Parse a `set` or `isa` command line, if there is one.
    fn parse_isa_command(&mut self) -> (r: Option<Result<IsaCommand<'a>, Error>>)
        ensures
            (command_view(r), final(self)@) == old(self)@.isa_command(),
    {
        let command = match self.token() {
            Some(Token::Identifier(command)) => command,
            _ => return None,
        };
        let is_set = same_text(command, "set");
        if !is_set && !same_text(command, "isa") {
            return None;
        }
        let location = self.loc;
        // Grab the whole line so that tokens on the following lines are not taken for options.
        let mut list = split_words(self.consume_line());
        if is_set {
            return Some(Ok(IsaCommand::SetFlags { location, options: list }));
        }
        if list.len() == 0 {
            return Some(Err(Error::new(location, "expected ISA name")));
        }
        let ghost before = list@;
        let name = list.remove(0);
        assert(texts(list@) =~= texts(before).drop_first());
        Some(Ok(IsaCommand::SelectIsa { location, name, options: list }))
    }

    /// Parse a list of `set` and `isa` command lines, up to the first line that is none or that
    /// is wrong.
    fn parse_isa_commands(&mut self) -> (list: Vec<IsaCommand<'a>>)
        ensures
            views(list@) == old(self)@.isa_commands(),
    {
        let mut list: Vec<IsaCommand<'a>> = Vec::new();
        let ghost goal = self@.isa_commands();
        assert(views(list@) + goal =~= goal);
        loop
            invariant
                views(list@) + self@.isa_commands() == goal,
                goal == old(self)@.isa_commands(),
            decreases self@.remaining(),
        {
            proof {
                lemma_eat_line(self@);
            }
            let ghost before = list@;
            match self.parse_isa_command() {
                Some(Ok(command)) => {
                    list.push(command);
                    proof {
                        let rest = self@.isa_commands();
                        assert(views(list@) =~= views(before).push(command@));
                        assert(views(list@) + rest =~= views(before) + (seq![command@] + rest));
                    }
                },
                _ => {
                    assert(views(before) + seq![] =~= views(before));
                    return list;
                },
            }
        }
    }

    /// Parse a list of ISA specs.
    ///
    /// Accept a mix of `isa` and `set` command lines. The `set` commands are cumulative.
    ///
    /// The names of the ISAs and the options are judged elsewhere: `replies` are the answers to
    /// the commands, in their order.
    pub fn parse_isa_specs(&mut self, replies: &Vec<IsaReply>) -> (r: Result<IsaSpec<'a>, Error>)
        ensures
            (viewed(r), final(self)@) == old(self)@.isa_specs(
                views(replies@),
                IsaProgress::start(),
            ),
    {
        // Was there any `isa` commands?
        let mut seen_isa = false;
        // Location of last `set` command since the last `isa`.
        let mut last_set_loc = None;
        let mut isas: Vec<Isa<'a>> = Vec::new();
        let mut flags: Vec<&'a str> = Vec::new();
        // The number of replies that were used.
        let mut used: usize = 0;
        let ghost mut progress = IsaProgress::start();
        let ghost goal = self@.isa_specs(views(replies@), progress);
        proof {
            assert(texts(flags@) =~= seq![]);
            assert(views(isas@) =~= seq![]);
        }
        loop
            invariant
                goal == old(self)@.isa_specs(views(replies@), IsaProgress::start()),
                self@.isa_specs(views(replies@), progress) == goal,
                progress.seen_isa == seen_isa,
                progress.dangling == last_set_loc,
                progress.flags == texts(flags@),
                progress.isas == views(isas@),
                used <= replies@.len(),
                progress.count == used || (used == replies@.len() && progress.count >= used),
            decreases self@.remaining(),
        {
            proof {
                lemma_eat_line(self@);
            }
            let command = match self.parse_isa_command() {
                Some(Ok(command)) => command,
                Some(Err(e)) => return Err(e),
                None => {
                    return if !seen_isa {
                        // No `isa` commands, but we allow for `set` commands.
                        Ok(IsaSpec::NoIsa(flags))
                    } else if let Some(loc) = last_set_loc {
                        Err(
                            Error::new(
                                loc,
                                "dangling 'set' command after ISA specification has no effect.",
                            ),
                        )
                    } else {
                        Ok(IsaSpec::Isas(isas))
                    };
                },
            };
            if used < replies.len() {
                assert(views(replies@)[used as int] == replies@[used as int]@);
                if let Some(e) = refused(&command, &replies[used]) {
                    return Err(e);
                }
                used += 1;
            }
            proof {
                progress = progress.step(command@);
            }
            match command {
                IsaCommand::SetFlags { location, options } => {
                    last_set_loc = Some(location);
                    add_texts(&mut flags, &options);
                },
                IsaCommand::SelectIsa { name, options, .. } => {
                    last_set_loc = None;
                    seen_isa = true;
                    let mut aggregate: Vec<&'a str> = Vec::new();
                    add_texts(&mut aggregate, &flags);
                    assert(texts(aggregate@) =~= texts(flags@));
                    let isa = Isa { name, options, flags: aggregate };
                    let ghost before = isas@;
                    isas.push(isa);
                    assert(views(isas@) =~= views(before).push(isa@));
                },
            }
        }
    }

    /// Parse a whole function definition.
    ///
    /// function ::= function-spec "{" preamble function-body "}"
    pub fn parse_function(&mut self) -> (r: Result<(Function<'a>, Details<'a>), Error>)
        requires
            old(self)@.isa.is_complete(),
            old(self)@.remaining() < u32::MAX / 2,
        ensures
            (viewed(r), final(self)@) == old(self)@.function(),
            r matches Ok((f, details)) ==> {
                &&& resolved(f@)
                &&& laid_out(f@)
                &&& details@.map.faithful()
            },
    {
        // Begin gathering comments.
        // Make sure we don't include any comments before the `function` keyword.
        self.token();
        self.comments = Vec::new();
        self.gather_comments(AnyEntity::Function);
        assert(self@ == old(self)@.begin_function());
        proof {
            lemma_function_spec(self@);
        }
        let (location, name, sig) = self.parse_function_spec()?;
        let mut ctx = Context::new(Function::with_name_signature(name, sig));
        assert(ctx@.sound());

        self.match_token(Token::LBrace, "expected '{' before function body")?;
        self.parse_preamble(&mut ctx)?;
        self.parse_function_body(&mut ctx)?;
        self.match_token(Token::RBrace, "expected '}' after function body")?;

        // Collect any comments following the end of the function, then stop gathering comments.
        self.gather_comments(AnyEntity::Function);
        self.token();
        self.comment_entity = None;

        // Rewrite references to values and EBBs after parsing everything to allow forward
        // references.
        let ghost before = ctx@;
        ctx.rewrite_references()?;
        proof {
            law_references_resolved(before);
        }

        let details = Details { location, comments: self.take_comments(), map: ctx.map };
        Ok((ctx.function, details))
    }

    /// Parse a list of function definitions.
    ///
    /// This is the top-level parse function matching the whole contents of a file. A piece of text
    /// that the lexer rejects is an error.
    pub fn parse_function_list(&mut self) -> (r: Result<
        Vec<(Function<'a>, Details<'a>)>,
        Error,
    >)
        requires
            old(self)@.isa.is_complete(),
            old(self)@.remaining() < u32::MAX / 2,
        ensures
            match r {
                Ok(list) => old(self)@.function_list(seq![]) == (
                    Ok::<Seq<(FunctionModel<'a>, DetailsModel<'a>)>, Failure>(views(list@)),
                    final(self)@,
                ),
                Err(e) => old(self)@.function_list(seq![]) == (
                    Err::<Seq<(FunctionModel<'a>, DetailsModel<'a>)>, Failure>(e@),
                    final(self)@,
                ),
            },
            r matches Ok(list) ==> all_resolved(views(list@)),
    {
        let mut list: Vec<(Function<'a>, Details<'a>)> = Vec::new();
        assert(views(list@) =~= seq![]);
        let ghost goal = self@.function_list(views(list@));
        loop
            invariant
                self@.function_list(views(list@)) == goal,
                self@.isa.is_complete(),
                self@.remaining() < u32::MAX / 2,
                goal == old(self)@.function_list(seq![]),
                all_resolved(views(list@)),
            decreases self@.remaining(),
        {
            let more = self.token().is_some();
            // What the lexer rejected is not matched by anything.
            if let Some(e) = self.lex_error {
                return Err(e.report());
            }
            if !more {
                return Ok(list);
            }
            proof {
                lemma_function(self@);
            }
            let item = self.parse_function()?;
            let ghost before = list@;
            list.push(item);
            assert(views(list@) =~= views(before).push(item@));
        }
    }
}

/// The `set` and `isa` commands of a test case file, for the part of the program that answers
/// them.
pub fn isa_commands<'a>(items: &[LexItem<'a>], isa: &'a InstructionSet<'a>) -> (list: Vec<
    IsaCommand<'a>,
>)
    ensures
        views(list@) == ParserState::start(isa, items@).gather(AnyEntity::Function).test_commands(
            seq![],
        ).1.isa_commands(),
{
    let mut parser = Parser::new(items, isa);
    parser.gather_comments(AnyEntity::Function);
    parser.parse_test_commands();
    parser.parse_isa_commands()
}

/// Parse all the `items` of a file as a test case file. An item that the lexer rejected, other than
/// on a command line, is an error.
///
/// The `replies` are the answers to the `set` and `isa` commands, in their order. A command
/// without a reply is accepted.
///
/// The returned `TestFile` contains direct references to the text of the items.
pub fn parse_test<'a>(
    items: &[LexItem<'a>],
    isa: &'a InstructionSet<'a>,
    replies: &Vec<IsaReply>,
) -> (r: Result<TestFile<'a>, Error>)
    requires
        isa.is_complete(),
        items@.len() < u32::MAX / 2,
    ensures
        viewed(r) == ParserState::start(isa, items@).test_file(views(replies@)),
        r matches Ok(file) ==> all_resolved(file@.functions),
{
    let mut parser = Parser::new(items, isa);
    // Gather the preamble comments as 'Function'.
    parser.gather_comments(AnyEntity::Function);
    proof {
        lemma_test_commands(parser@, seq![]);
    }
    let commands = parser.parse_test_commands();
    proof {
        lemma_isa_specs(parser@, views(replies@), IsaProgress::start());
    }
    let isa_spec = parser.parse_isa_specs(replies)?;
    let preamble_comments = parser.take_comments();
    let functions = parser.parse_function_list()?;
    Ok(TestFile { commands, isa_spec, preamble_comments, functions })
}

/// Parse all the `items` of a file into a list of functions.
///
/// Test commands and ISA declarations are left out of the result.
pub fn parse_functions<'a>(
    items: &[LexItem<'a>],
    isa: &'a InstructionSet<'a>,
    replies: &Vec<IsaReply>,
) -> (r: Result<Vec<Function<'a>>, Error>)
    requires
        isa.is_complete(),
        items@.len() < u32::MAX / 2,
    ensures
        ParserState::start(isa, items@).file_functions(views(replies@)) == (match r {
            Ok(list) => Ok::<Seq<FunctionModel<'a>>, Failure>(views(list@)),
            Err(e) => Err(e@),
        }),
        r matches Ok(list) ==> forall|i: int|
            0 <= i < list@.len() ==> resolved((#[trigger] list@[i])@),
{
    let file = parse_test(items, isa, replies)?;
    let mut list: Vec<Function<'a>> = Vec::new();
    let ghost functions = file.functions@;
    for item in iter: file.functions
        invariant
            iter.seq() == functions,
            list@.len() == iter.index(),
            forall|i: int| 0 <= i < list@.len() ==> (#[trigger] list@[i])@ == functions[i].0@,
            all_resolved(views(functions)),
            forall|i: int| 0 <= i < list@.len() ==> resolved((#[trigger] list@[i])@),
    {
        assert(resolved(views(functions)[iter.index()].0));
        list.push(item.0);
    }
    assert(views(list@) =~= views(functions).map_values(
        |f: (FunctionModel<'a>, DetailsModel<'a>)| f.0,
    ));
    Ok(list)
}

/// The error that a reply to a command means.
fn refused(command: &IsaCommand, reply: &IsaReply) -> (error: Option<Error>)
    ensures
        match error {
            Some(e) => refusal(command@, reply@) == Some(e@),
            None => refusal(command@, reply@) is None,
        },
{
    match reply {
        IsaReply::Accepted => None,
        IsaReply::UnknownIsa => match command {
            IsaCommand::SetFlags { .. } => None,
            IsaCommand::SelectIsa { location, name, .. } => {
                let message = "unknown ISA '".to_owned().concat(name).concat("'");
                Some(Error { location: *location, message })
            },
        },
        IsaReply::Rejected(e) => Some(e.duplicate()),
    }
}

} // verus!
