//! Treats a chat message as a command line: the message is split into tokens,
//! gated on the command's name, handed to a command parser, and a parser's
//! usage diagnostic is rewritten as markdown for a chat window.
use vstd::prelude::*;

pub mod markdown;
pub mod patterns;
pub mod text;
pub mod tokens;

use crate::markdown::{convert_diagnostic, convert_text};
use crate::tokens::{address, tokens};

verus! {

/// A command whose arguments can come in a chat message.
pub trait StructBotOpt: Sized {
    /// The name that a message for this command begins with.
    fn command_name() -> String;

    /// Parses the tokens of a message, the command's name first; on failure,
    /// the parser's usage diagnostic as plain text.
    fn from_tokens(tokens: Vec<String>) -> Result<Self, String>;

    /// `None` when the message is not addressed to this command; else the
    /// parsed command, or the parser's diagnostic rewritten as markdown.
    fn parse_bot_args(msg: &str) -> (r: Option<Result<Self, String>>)
        ensures
            r is Some ==> tokens(msg@).len() > 0,
            r matches Some(Err(e)) ==> exists|d: Seq<char>| e@ == convert_text(d),
    {
        let name = Self::command_name();
        match address(msg, name.as_str()) {
            None => None,
            Some(toks) => {
                let outcome = Self::from_tokens(toks);
                let ghost raw = outcome;
                let r = render_outcome(outcome);
                proof {
                    if raw is Err {
                        assert(r->Err_0@ == convert_text(raw->Err_0@));
                    }
                }
                Some(r)
            },
        }
    }
}

/// A parse outcome with its diagnostic, if any, rewritten as markdown.
pub fn render_outcome<T>(outcome: Result<T, String>) -> (r: Result<T, String>)
    ensures
        outcome is Ok <==> r is Ok,
        outcome is Ok ==> r->Ok_0 == outcome->Ok_0,
        outcome is Err ==> r->Err_0@ == convert_text(outcome->Err_0@),
{
    match outcome {
        Ok(opt) => Ok(opt),
        Err(d) => Err(convert_diagnostic(d.as_str())),
    }
}

} // verus!
