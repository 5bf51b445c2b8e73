//! The contents of a test case file.

use crate::entities::AnyEntity;
use crate::error::{Error, Failure, Location};
use crate::function::{Function, FunctionModel};
use crate::sourcemap::{SourceMap, SourceMapModel};
use crate::text::{split_words, texts, words};
use vstd::prelude::*;

verus! {

/// A comment, and the entity that it belongs to.
#[derive(Copy, Clone, PartialEq, Eq, Debug)]
pub struct Comment<'a> {
    pub entity: AnyEntity,
    /// The text of the comment, with its semicolon.
    pub text: &'a str,
}

/// A `test` command.
#[derive(Copy, Clone, PartialEq, Eq, Debug)]
pub struct TestCommand<'a> {
    /// The line after the word `test`.
    pub line: &'a str,
}

impl<'a> TestCommand<'a> {
    /// The words of the command: its name and its options.
    pub fn words(&self) -> (list: Vec<&'a str>)
        ensures
            texts(list@) == words(self.line@),
    {
        split_words(self.line)
    }
}

/// A target ISA.
#[derive(PartialEq, Eq, Debug)]
pub struct Isa<'a> {
    pub name: &'a str,
    /// The options of the ISA itself.
    pub options: Vec<&'a str>,
    /// The options of all `set` commands before the ISA.
    pub flags: Vec<&'a str>,
}

pub struct IsaModel {
    pub name: Seq<char>,
    pub options: Seq<Seq<char>>,
    pub flags: Seq<Seq<char>>,
}

impl<'a> View for Isa<'a> {
    type V = IsaModel;

    open spec fn view(&self) -> IsaModel {
        IsaModel {
            name: self.name@,
            options: texts(self.options@),
            flags: texts(self.flags@),
        }
    }
}

/// The ISAs that a file asks for.
#[derive(PartialEq, Eq, Debug)]
pub enum IsaSpec<'a> {
    /// None; these are the options of all `set` commands.
    NoIsa(Vec<&'a str>),
    /// One for each `isa` command.
    Isas(Vec<Isa<'a>>),
}

pub enum IsaSpecModel {
    NoIsa(Seq<Seq<char>>),
    Isas(Seq<IsaModel>),
}

impl<'a> View for IsaSpec<'a> {
    type V = IsaSpecModel;

    open spec fn view(&self) -> IsaSpecModel {
        match self {
            IsaSpec::NoIsa(flags) => IsaSpecModel::NoIsa(texts(flags@)),
            IsaSpec::Isas(isas) => IsaSpecModel::Isas(crate::function::views(isas@)),
        }
    }
}

/// A `set` or `isa` command, for the part of the program that knows the ISAs and their options.
#[derive(PartialEq, Eq, Debug)]
pub enum IsaCommand<'a> {
    /// `set`, with its options.
    SetFlags { location: Location, options: Vec<&'a str> },
    /// `isa`, with the name of the ISA and its options.
    SelectIsa { location: Location, name: &'a str, options: Vec<&'a str> },
}

pub enum IsaCommandModel {
    SetFlags { location: Location, options: Seq<Seq<char>> },
    SelectIsa { location: Location, name: Seq<char>, options: Seq<Seq<char>> },
}

impl<'a> View for IsaCommand<'a> {
    type V = IsaCommandModel;

    open spec fn view(&self) -> IsaCommandModel {
        match self {
            IsaCommand::SetFlags { location, options } => IsaCommandModel::SetFlags {
                location: *location,
                options: texts(options@),
            },
            IsaCommand::SelectIsa { location, name, options } => IsaCommandModel::SelectIsa {
                location: *location,
                name: name@,
                options: texts(options@),
            },
        }
    }
}

/// What the part of the program that knows the ISAs says to a `set` or `isa` command.
#[derive(Debug)]
pub enum IsaReply {
    Accepted,
    /// There is no ISA with the name; no reply to a `set` command.
    UnknownIsa,
    /// The options are wrong.
    Rejected(Error),
}

pub enum IsaReplyModel {
    Accepted,
    UnknownIsa,
    Rejected(Failure),
}

impl View for IsaReply {
    type V = IsaReplyModel;

    open spec fn view(&self) -> IsaReplyModel {
        match self {
            IsaReply::Accepted => IsaReplyModel::Accepted,
            IsaReply::UnknownIsa => IsaReplyModel::UnknownIsa,
            IsaReply::Rejected(e) => IsaReplyModel::Rejected(e@),
        }
    }
}

/// What else is known of a function: where it stands, its comments, and what the source numbers
/// stand for.
#[derive(Debug)]
pub struct Details<'a> {
    pub location: Location,
    pub comments: Vec<Comment<'a>>,
    pub map: SourceMap,
}

pub struct DetailsModel<'a> {
    pub location: Location,
    pub comments: Seq<Comment<'a>>,
    pub map: SourceMapModel,
}

impl<'a> View for Details<'a> {
    type V = DetailsModel<'a>;

    open spec fn view(&self) -> DetailsModel<'a> {
        DetailsModel { location: self.location, comments: self.comments@, map: self.map@ }
    }
}

/// A test case file.
#[derive(Debug)]
pub struct TestFile<'a> {
    pub commands: Vec<TestCommand<'a>>,
    pub isa_spec: IsaSpec<'a>,
    pub preamble_comments: Vec<Comment<'a>>,
    pub functions: Vec<(Function<'a>, Details<'a>)>,
}

pub struct TestFileModel<'a> {
    pub commands: Seq<TestCommand<'a>>,
    pub isa_spec: IsaSpecModel,
    pub preamble_comments: Seq<Comment<'a>>,
    pub functions: Seq<(FunctionModel<'a>, DetailsModel<'a>)>,
}

impl<'a> View for TestFile<'a> {
    type V = TestFileModel<'a>;

    open spec fn view(&self) -> TestFileModel<'a> {
        TestFileModel {
            commands: self.commands@,
            isa_spec: self.isa_spec@,
            preamble_comments: self.preamble_comments@,
            functions: crate::function::views(self.functions@),
        }
    }
}

} // verus!
