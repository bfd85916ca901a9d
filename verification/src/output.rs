//! The lines of text that the evaluator's results are shown as.

use vstd::prelude::*;
use vstd::string::StringExecFns;
use colored::Colorize;
use crate::interpreter::{Effect, EvalError, Fault, Outcome};
use crate::literal::{format_integer, integer_text};

verus! {

/// The line that shows `effect`; `None` where it shows nothing. A string
/// is shown as it is, a printed value as its digits alone.
pub open spec fn line_of(effect: Effect) -> Option<Seq<char>> {
    match effect {
        Effect::Silent => None,
        Effect::Assigned { name, value } => Some(name + " = "@ + integer_text(value as int)),
        Effect::Variable { name, bound: Some(value) } => Some(
            "Value of '"@ + name + "': "@ + integer_text(value as int),
        ),
        Effect::Variable { name, bound: None } => Some("Variable '"@ + name + "' not found"@),
        Effect::Number(value) => Some("Number: "@ + integer_text(value as int)),
        Effect::Text(text) => Some(text),
        Effect::Operation(value) => Some("Operation result: "@ + integer_text(value as int)),
        Effect::Printed(value) => Some(integer_text(value as int)),
        Effect::Called { name, argument } => Some(
            "Function '"@ + name + "', argument: "@ + integer_text(argument as int),
        ),
    }
}

/// The line that reports `fault`.
pub open spec fn message_of(fault: Fault) -> Seq<char> {
    match fault {
        Fault::DivisionByZero => "Error: Division by zero!"@,
        Fault::UnknownFunction(name) => "Unknown function: "@ + name,
    }
}

/// The view of an optional line.
pub open spec fn text_of(line: Option<String>) -> Option<Seq<char>> {
    match line {
        Some(text) => Some(text@),
        None => None,
    }
}

impl Outcome {
    /// The line to display, if any.
    pub fn line(&self) -> (r: Option<String>)
        ensures
            text_of(r) == line_of(self@),
    {
        let mut text = String::new();
        match self {
            Outcome::Silent => {
                return None;
            },
            Outcome::Assigned { name, value } => {
                text.append(name.as_str());
                text.append(" = ");
                text.append(format_integer(*value).as_str());
                assert(text@ =~= name@ + " = "@ + integer_text(*value as int));
            },
            Outcome::Variable { name, bound: Some(value) } => {
                text.append("Value of '");
                text.append(name.as_str());
                text.append("': ");
                text.append(format_integer(*value).as_str());
                assert(text@ =~= "Value of '"@ + name@ + "': "@ + integer_text(*value as int));
            },
            Outcome::Variable { name, bound: None } => {
                text.append("Variable '");
                text.append(name.as_str());
                text.append("' not found");
                assert(text@ =~= "Variable '"@ + name@ + "' not found"@);
            },
            Outcome::Number(value) => {
                text.append("Number: ");
                text.append(format_integer(*value).as_str());
                assert(text@ =~= "Number: "@ + integer_text(*value as int));
            },
            Outcome::Text(shown) => {
                text.append(shown.as_str());
                assert(text@ =~= shown@);
            },
            Outcome::Operation(value) => {
                text.append("Operation result: ");
                text.append(format_integer(*value).as_str());
                assert(text@ =~= "Operation result: "@ + integer_text(*value as int));
            },
            Outcome::Printed(value) => {
                text.append(format_integer(*value).as_str());
                assert(text@ =~= integer_text(*value as int));
            },
            Outcome::Called { name, argument } => {
                text.append("Function '");
                text.append(name.as_str());
                text.append("', argument: ");
                text.append(format_integer(*argument).as_str());
                assert(text@ =~= "Function '"@ + name@ + "', argument: "@ + integer_text(
                    *argument as int,
                ));
            },
        }
        Some(text)
    }
}

impl EvalError {
    /// The line that reports the error.
    pub fn message(&self) -> (r: String)
        ensures
            r@ == message_of(self@),
    {
        let mut text = String::new();
        match self {
            EvalError::DivisionByZero => {
                text.append("Error: Division by zero!");
                assert(text@ =~= "Error: Division by zero!"@);
            },
            EvalError::UnknownFunction(name) => {
                text.append("Unknown function: ");
                text.append(name.as_str());
                assert(text@ =~= "Unknown function: "@ + name@);
            },
        }
        text
    }
}

/// The escape sequence that turns bold red on.
pub open spec fn bold_red_on() -> Seq<char> {
    seq!['\x1b', '[', '1', ';', '3', '1', 'm']
}

/// The escape sequence that turns every style off.
pub open spec fn style_off() -> Seq<char> {
    seq!['\x1b', '[', '0', 'm']
}

/// The text that reports `fault` on a terminal. A division by zero
/// stands between two empty lines, and in bold red where `coloured`.
pub open spec fn report_of(fault: Fault, coloured: bool) -> Seq<char> {
    match fault {
        Fault::DivisionByZero => if coloured {
            "\n"@ + (bold_red_on() + message_of(fault) + style_off()) + "\n"@
        } else {
            "\n"@ + message_of(fault) + "\n"@
        },
        Fault::UnknownFunction(_) => message_of(fault),
    }
}

/// `colored`'s `red` and `bold` on `text`, written out as a string.
/// Whether `colored` colours is its own decision, taken from the
/// environment and the terminal: the result is `text` as it is, or `text`
/// between the escape sequences for bold red and for reset. A text with
/// an escape character of its own is left out, since `colored` rewrites
/// the reset sequences that it finds in its input.
#[verifier::external_body]
fn bold_red(text: &str) -> (r: String)
    requires
        forall|i: int| 0 <= i < text@.len() ==> text@[i] != '\x1b',
    ensures
        r@ == text@ || r@ == bold_red_on() + text@ + style_off(),
{
    text.red().bold().to_string()
}

impl EvalError {
    /// The text to write out for the error: its message, and for a
    /// division by zero the message set off by empty lines and, where the
    /// terminal takes colours, in bold red.
    pub fn report(&self) -> (r: String)
        ensures
            r@ == report_of(self@, true) || r@ == report_of(self@, false),
    {
        let message = self.message();
        match self {
            EvalError::DivisionByZero => {
                proof {
                    reveal_strlit("Error: Division by zero!");
                }
                let shown = bold_red(message.as_str());
                let mut text = String::new();
                text.append("\n");
                text.append(shown.as_str());
                text.append("\n");
                assert(text@ =~= "\n"@ + shown@ + "\n"@);
                text
            },
            EvalError::UnknownFunction(_) => message,
        }
    }
}

} // verus!
