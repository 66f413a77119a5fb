//! Errors of the runtime and of the typed accessors of literals.
use vstd::prelude::*;

verus! {

/// What can go wrong while reading literals or running a story.
#[derive(Debug, PartialEq, Eq)]
pub enum RuntimeError {
    NoStory,
    StoryNotStarted,
    StoryStarted,
    StoryFinished,
    StoryNotFound(String),
    ParagraphNotFound(String),
    MissingParagraphArgument { story: String, paragraph: String, argument: String },
    WrongArgumentSystemCallLine(String),
    WrongArgumentCommandLine(String),
    NotAString,
    NotAInteger,
    NotAFloat,
    NotANumber,
    NotABoolean,
    NotAArray,
    NotAObject,
}

/// An error with its texts as character sequences.
pub enum RuntimeErrorV {
    NoStory,
    StoryNotStarted,
    StoryStarted,
    StoryFinished,
    StoryNotFound(Seq<char>),
    ParagraphNotFound(Seq<char>),
    MissingParagraphArgument { story: Seq<char>, paragraph: Seq<char>, argument: Seq<char> },
    WrongArgumentSystemCallLine(Seq<char>),
    WrongArgumentCommandLine(Seq<char>),
    NotAString,
    NotAInteger,
    NotAFloat,
    NotANumber,
    NotABoolean,
    NotAArray,
    NotAObject,
}

impl View for RuntimeError {
    type V = RuntimeErrorV;

    open spec fn view(&self) -> RuntimeErrorV {
        match self {
            RuntimeError::NoStory => RuntimeErrorV::NoStory,
            RuntimeError::StoryNotStarted => RuntimeErrorV::StoryNotStarted,
            RuntimeError::StoryStarted => RuntimeErrorV::StoryStarted,
            RuntimeError::StoryFinished => RuntimeErrorV::StoryFinished,
            RuntimeError::StoryNotFound(s) => RuntimeErrorV::StoryNotFound(s@),
            RuntimeError::ParagraphNotFound(s) => RuntimeErrorV::ParagraphNotFound(s@),
            RuntimeError::MissingParagraphArgument { story, paragraph, argument } => {
                RuntimeErrorV::MissingParagraphArgument {
                    story: story@,
                    paragraph: paragraph@,
                    argument: argument@,
                }
            },
            RuntimeError::WrongArgumentSystemCallLine(s) => RuntimeErrorV::WrongArgumentSystemCallLine(s@),
            RuntimeError::WrongArgumentCommandLine(s) => RuntimeErrorV::WrongArgumentCommandLine(s@),
            RuntimeError::NotAString => RuntimeErrorV::NotAString,
            RuntimeError::NotAInteger => RuntimeErrorV::NotAInteger,
            RuntimeError::NotAFloat => RuntimeErrorV::NotAFloat,
            RuntimeError::NotANumber => RuntimeErrorV::NotANumber,
            RuntimeError::NotABoolean => RuntimeErrorV::NotABoolean,
            RuntimeError::NotAArray => RuntimeErrorV::NotAArray,
            RuntimeError::NotAObject => RuntimeErrorV::NotAObject,
        }
    }
}

} // verus!
