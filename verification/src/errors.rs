use crate::eval::EvalError;
use crate::parser::ParserError;
use crate::parser::ParserErrorView;
use crate::vm::VmError;
use crate::vm::VmErrorView;
use vstd::prelude::*;
use vstd::string::*;

verus! {

/// Any error of the pipeline, by the stage that reports it.
#[derive(Debug)]
pub enum MonkeyError {
    Parser(ParserError),
    Eval(EvalError),
    VmError(VmError),
}

/// The content of an error of the pipeline.
pub enum MonkeyErrorView {
    Parser(ParserErrorView),
    Eval(Seq<char>),
    VmError(VmErrorView),
}

impl View for MonkeyError {
    type V = MonkeyErrorView;

    open spec fn view(&self) -> MonkeyErrorView {
        match self {
            MonkeyError::Parser(error) => MonkeyErrorView::Parser(error@),
            MonkeyError::Eval(error) => MonkeyErrorView::Eval(error@),
            MonkeyError::VmError(error) => MonkeyErrorView::VmError(error@),
        }
    }
}

impl MonkeyErrorView {
    /// The message that the user sees: the stage, then what went wrong.
    pub open spec fn message(self) -> Seq<char> {
        match self {
            MonkeyErrorView::Parser(ParserErrorView::InvalidExpression { first_token }) =>
                "Parser error: "@ + "An expression cannot begin with token type "@
                    + first_token.kind.name(),
            MonkeyErrorView::Parser(ParserErrorView::UnexpectedToken { expected, actual }) =>
                "Parser error: "@ + "Unexpected token. Expected "@ + expected.name() + ", got "@
                    + actual.kind.name(),
            MonkeyErrorView::Eval(message) => "Eval error: "@ + message,
            MonkeyErrorView::VmError(VmErrorView::PopEmptyStack) => "VM Error: "@
                + "Cannot pop from an empty stack"@,
            MonkeyErrorView::VmError(VmErrorView::Misc(message)) => "VM Error: "@ + message,
        }
    }
}

impl MonkeyError {
    /// The message that the user sees.
    pub fn to_string(&self) -> (text: String)
        ensures
            text@ == self@.message(),
    {
        match self {
            MonkeyError::Parser(parser_err) => {
                let mut text = String::from_str("Parser error: ");
                match parser_err {
                    ParserError::InvalidExpression { first_token } => {
                        text.append("An expression cannot begin with token type ");
                        text.append(first_token.token_type().to_string().as_str());
                    },
                    ParserError::UnexpectedToken { expected, actual } => {
                        text.append("Unexpected token. Expected ");
                        text.append(expected.to_string().as_str());
                        text.append(", got ");
                        text.append(actual.token_type().to_string().as_str());
                    },
                }
                assert(text@ =~= self@.message());
                text
            },
            MonkeyError::Eval(eval_err) => {
                let mut text = String::from_str("Eval error: ");
                match eval_err {
                    EvalError::Misc(message) => {
                        text.append(message.as_str());
                    },
                }
                text
            },
            MonkeyError::VmError(err) => {
                let mut text = String::from_str("VM Error: ");
                match err {
                    VmError::PopEmptyStack => {
                        text.append("Cannot pop from an empty stack");
                    },
                    VmError::Misc(msg) => {
                        text.append(msg.as_str());
                    },
                }
                text
            },
        }
    }
}

} // verus!
