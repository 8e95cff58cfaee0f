//! Structured errors.
//!
//! Every failure of the engine is reported as an [`Error`]: a primary
//! message, the source position of the offending token, and an optional hint
//! with additional details. `ErrM` is the mathematical model of an error.

use vstd::prelude::*;

verus! {

/// The mathematical model of an error.
pub struct ErrM {
    pub msg: Seq<char>,
    pub span: int,
    pub hint: Seq<char>,
}

/// An error of this engine: a primary message, the source position it
/// points at, and an optional hint with details and examples.
#[derive(Debug)]
pub struct Error {
    msg: String,
    span: usize,
    hint: String,
}

impl View for Error {
    type V = ErrM;

    closed spec fn view(&self) -> ErrM {
        ErrM { msg: self.msg@, span: self.span as int, hint: self.hint@ }
    }
}

/// An error with the given message and position and no hint yet.
pub open spec fn err_at(msg: Seq<char>, span: int) -> ErrM {
    ErrM { msg, span, hint: Seq::empty() }
}

/// Adds a hint to an error's model.
pub open spec fn with_hint(e: ErrM, hint: Seq<char>) -> ErrM {
    ErrM { msg: e.msg, span: e.span, hint }
}

/// Moves an error's model to another position.
pub open spec fn with_span(e: ErrM, span: int) -> ErrM {
    ErrM { msg: e.msg, span, hint: e.hint }
}

impl Error {
    /// Creates a basic error pointing at the synthetic position.
    pub fn new(msg: &str) -> (r: Self)
        ensures
            r@ == err_at(msg@, crate::tokens::SYNTHETIC_SPAN as int),
    {
        Self { msg: msg.to_owned(), span: crate::tokens::SYNTHETIC_SPAN, hint: String::new() }
    }

    /// Creates a basic error from an already built message.
    pub fn new_string(msg: String) -> (r: Self)
        ensures
            r@ == err_at(msg@, crate::tokens::SYNTHETIC_SPAN as int),
    {
        Self { msg, span: crate::tokens::SYNTHETIC_SPAN, hint: String::new() }
    }

    /// Adds a position to the error and returns it.
    pub fn span(self, span: usize) -> (r: Self)
        ensures
            r@ == with_span(self@, span as int),
    {
        Self { msg: self.msg, span, hint: self.hint }
    }

    /// Adds a hint to the error and returns it.
    pub fn hint(self, hint: &str) -> (r: Self)
        ensures
            r@ == with_hint(self@, hint@),
    {
        Self { msg: self.msg, span: self.span, hint: hint.to_owned() }
    }

    /// Adds an already built hint to the error and returns it.
    pub fn hint_string(self, hint: String) -> (r: Self)
        ensures
            r@ == with_hint(self@, hint@),
    {
        Self { msg: self.msg, span: self.span, hint }
    }

    /// Returns the source position of the error.
    pub fn get_span(&self) -> (r: usize)
        ensures
            r as int == self@.span,
    {
        self.span
    }

    /// Returns the primary message of the error.
    pub fn into_panic_message(self) -> (r: String)
        ensures
            r@ == self@.msg,
    {
        self.msg
    }

    /// Returns the position and primary message of the error.
    pub fn extract(self) -> (r: (usize, String))
        ensures
            r.0 as int == self@.span,
            r.1@ == self@.msg,
    {
        (self.span, self.msg)
    }

    /// Returns the hint of the error; empty when none was given.
    pub fn get_hint(&self) -> (r: &str)
        ensures
            r@ == self@.hint,
    {
        self.hint.as_str()
    }
}

/// The decimal digits of a number.
pub open spec fn dec_str(n: nat) -> Seq<char>
    decreases n,
{
    if n < 10 {
        seq![digit_char(n)]
    } else {
        dec_str(n / 10).push(digit_char(n % 10))
    }
}

/// The character for one decimal digit.
pub open spec fn digit_char(d: nat) -> char {
    if d == 0 {
        '0'
    } else if d == 1 {
        '1'
    } else if d == 2 {
        '2'
    } else if d == 3 {
        '3'
    } else if d == 4 {
        '4'
    } else if d == 5 {
        '5'
    } else if d == 6 {
        '6'
    } else if d == 7 {
        '7'
    } else if d == 8 {
        '8'
    } else {
        '9'
    }
}

/// One decimal digit as a string.
fn digit_string(d: usize) -> (r: &'static str)
    requires
        d < 10,
    ensures
        r@ == seq![digit_char(d as nat)],
{
    let r: &'static str = if d == 0 {
        "0"
    } else if d == 1 {
        "1"
    } else if d == 2 {
        "2"
    } else if d == 3 {
        "3"
    } else if d == 4 {
        "4"
    } else if d == 5 {
        "5"
    } else if d == 6 {
        "6"
    } else if d == 7 {
        "7"
    } else if d == 8 {
        "8"
    } else {
        "9"
    };
    proof {
        reveal_strlit("0");
        reveal_strlit("1");
        reveal_strlit("2");
        reveal_strlit("3");
        reveal_strlit("4");
        reveal_strlit("5");
        reveal_strlit("6");
        reveal_strlit("7");
        reveal_strlit("8");
        reveal_strlit("9");
        assert(r@ =~= seq![digit_char(d as nat)]);
    }
    r
}

/// Writes a number in decimal.
pub fn dec_string(n: usize) -> (r: String)
    ensures
        r@ == dec_str(n as nat),
    decreases n,
{
    if n < 10 {
        let r = digit_string(n).to_owned();
        proof {
            assert(r@ =~= dec_str(n as nat));
        }
        r
    } else {
        let mut s = dec_string(n / 10);
        s.append(digit_string(n % 10));
        proof {
            assert(s@ =~= dec_str(n as nat));
        }
        s
    }
}

} // verus!
