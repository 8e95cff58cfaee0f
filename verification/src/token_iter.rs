//! The token cursor.
//!
//! `TokenIter` walks a token sequence one token at a time, with peeking and
//! try-extraction that consumes nothing on failure. It remembers the position
//! of the last token it produced so that end-of-input errors can point near
//! the place where input ran out. The cursor expects its input already
//! normalized: transparent groups spliced inline and nested invocations
//! expanded (see the stream normalization in the crate root).

use vstd::prelude::*;

use crate::error::{err_at, with_hint, ErrM, Error};
use crate::tokens::{
    is_punct, lemma_toks_deep, spec_is_ident_named, spec_punct_is_char, span_of, tok_deep,
    toks_deep, Delim, TokTree, Token, SYNTHETIC_SPAN,
};

verus! {

broadcast use {vstd::std_specs::vec::group_vec_axioms, vstd::seq::group_seq_axioms};

/// The hint attached to an error about one expected token: what was expected.
pub open spec fn expected_hint(e: Seq<char>) -> Seq<char> {
    "Expected "@ + e + "."@
}

/// The error reported when the next token is not the expected simple token:
/// its message depends on what stood there instead, and the hint names what
/// was expected, when given.
pub open spec fn simple_err(rest: Seq<TokTree>, expected: Option<Seq<char>>) -> ErrM {
    let base = if rest.len() == 0 {
        err_at("Unexpected end of code."@, SYNTHETIC_SPAN as int)
    } else if rest[0] is Group {
        err_at("Unexpected delimiter."@, span_of(rest[0]))
    } else {
        err_at("Unexpected token."@, span_of(rest[0]))
    };
    match expected {
        Option::Some(e) => with_hint(base, expected_hint(e)),
        Option::None => base,
    }
}

/// The message of the error reported when a group with the given delimiter
/// was expected and not found.
pub open spec fn left_delim_msg(expected: Option<Delim>) -> Seq<char> {
    match expected {
        Option::Some(Delim::Bracket) => "Expected '['."@,
        Option::Some(Delim::Brace) => "Expected '{'."@,
        Option::Some(Delim::Paren) => "Expected '('."@,
        _ => "Expected '{', '[', or '('."@,
    }
}

/// The error reported when a group was expected and not found: it points at
/// the offending token, or at the last produced token when input ran out.
pub open spec fn group_err(rest: Seq<TokTree>, last_span: int, expected: Option<Delim>) -> ErrM {
    if rest.len() == 0 {
        err_at(left_delim_msg(expected), last_span)
    } else {
        err_at(left_delim_msg(expected), span_of(rest[0]))
    }
}

/// Whether the token opens a group that `next_group` accepts for the given
/// expectation: a visibly delimited group whose delimiter matches it.
pub open spec fn group_matches(t: TokTree, expected: Option<Delim>) -> bool {
    t matches TokTree::Group { delim, .. } && delim != Delim::Transparent && match expected {
        Option::Some(e) => delim == e,
        Option::None => true,
    }
}

/// Walks a token sequence, producing one token at a time.
pub struct TokenIter {
    tokens: Vec<Token>,
    pos: usize,
    last_span: usize,
}

impl TokenIter {
    /// The tokens that have yet to be produced.
    pub closed spec fn rest(&self) -> Seq<TokTree> {
        toks_deep(self.tokens@).subrange(self.pos as int, self.tokens@.len() as int)
    }

    /// The position of the last produced token; the synthetic position while
    /// none has been produced yet.
    pub closed spec fn last(&self) -> int {
        self.last_span as int
    }

    /// The cursor's position lies within its token sequence.
    pub closed spec fn wf(&self) -> bool {
        self.pos <= self.tokens@.len()
    }

    /// Creates a cursor over the given tokens.
    pub fn new(tokens: Vec<Token>) -> (r: Self)
        ensures
            r.wf(),
            r.rest() == toks_deep(tokens@),
            r.last() == SYNTHETIC_SPAN as int,
    {
        let r = TokenIter { tokens, pos: 0, last_span: SYNTHETIC_SPAN };
        proof {
            broadcast use lemma_toks_deep;

            assert(r.rest() =~= toks_deep(r.tokens@));
        }
        r
    }

    /// Whether there are more tokens to be produced.
    pub fn has_next(&self) -> (r: bool)
        requires
            self.wf(),
        ensures
            r == (self.rest().len() > 0),
    {
        proof {
            broadcast use lemma_toks_deep;

        }
        self.pos < self.tokens.len()
    }

    /// Peeks at the next token without consuming it.
    pub fn peek(&self) -> (r: Option<&Token>)
        requires
            self.wf(),
        ensures
            match r {
                Option::Some(t) => self.rest().len() > 0 && tok_deep(*t) == self.rest()[0],
                Option::None => self.rest().len() == 0,
            },
    {
        proof {
            broadcast use lemma_toks_deep;

        }
        if self.pos < self.tokens.len() {
            Option::Some(&self.tokens[self.pos])
        } else {
            Option::None
        }
    }

    /// Peeks at the token a given distance ahead without consuming anything.
    pub fn peek_at(&self, k: usize) -> (r: Option<&Token>)
        requires
            self.wf(),
        ensures
            match r {
                Option::Some(t) => k < self.rest().len() && tok_deep(*t) == self.rest()[k as int],
                Option::None => self.rest().len() <= k,
            },
    {
        proof {
            broadcast use lemma_toks_deep;

        }
        if k < self.tokens.len() - self.pos {
            Option::Some(&self.tokens[self.pos + k])
        } else {
            Option::None
        }
    }

    /// Produces the next token, if any is left.
    pub fn next(&mut self) -> (r: Option<Token>)
        requires
            old(self).wf(),
        ensures
            final(self).wf(),
            match r {
                Option::Some(t) => {
                    &&& old(self).rest().len() > 0
                    &&& tok_deep(t) == old(self).rest()[0]
                    &&& final(self).rest() == old(self).rest().drop_first()
                    &&& final(self).last() == span_of(old(self).rest()[0])
                },
                Option::None => {
                    &&& old(self).rest().len() == 0
                    &&& *final(self) == *old(self)
                },
            },
    {
        proof {
            broadcast use lemma_toks_deep;

        }
        if self.pos < self.tokens.len() {
            let t = self.tokens[self.pos].clone();
            self.last_span = t.span();
            self.pos = self.pos + 1;
            proof {
                assert(self.rest() =~= old(self).rest().drop_first());
            }
            Option::Some(t)
        } else {
            Option::None
        }
    }

    /// Whether there is a next token and it is a lone semicolon.
    pub fn has_next_semicolon(&self) -> (r: bool)
        requires
            self.wf(),
        ensures
            r == (self.rest().len() > 0 && spec_punct_is_char(self.rest()[0], ';')),
    {
        match self.peek() {
            Option::Some(t) => is_punct(t, ';'),
            Option::None => false,
        }
    }

    /// Ensures the next token is the given lone punctuation character and
    /// consumes it; otherwise reports an error and consumes nothing. The
    /// `expected` text is used in the error's hint.
    pub fn expect_punct(&mut self, c: char, expected: &str) -> (r: Result<(), Error>)
        requires
            old(self).wf(),
        ensures
            final(self).wf(),
            match r {
                Result::Ok(()) => {
                    &&& old(self).rest().len() > 0
                    &&& spec_punct_is_char(old(self).rest()[0], c)
                    &&& final(self).rest() == old(self).rest().drop_first()
                    &&& final(self).last() == span_of(old(self).rest()[0])
                },
                Result::Err(e) => {
                    &&& !(old(self).rest().len() > 0 && spec_punct_is_char(
                        old(self).rest()[0],
                        c,
                    ))
                    &&& e@ == simple_err(old(self).rest(), Option::Some(expected@))
                    &&& *final(self) == *old(self)
                },
            },
    {
        let matched = match self.peek() {
            Option::Some(t) => is_punct(t, c),
            Option::None => false,
        };
        if matched {
            let t = self.next();
            Result::Ok(())
        } else {
            let mut msg: &str = "Unexpected end of code.";
            let mut span: usize = SYNTHETIC_SPAN;
            match self.peek() {
                Option::Some(t) => {
                    match t {
                        Token::Group(_, _, _) => {
                            msg = "Unexpected delimiter.";
                        },
                        _ => {
                            msg = "Unexpected token.";
                        },
                    }
                    span = t.span();
                },
                Option::None => {},
            }
            let mut hint: String = "Expected ".to_owned();
            hint.append(expected);
            hint.append(".");
            Result::Err(Error::new(msg).hint_string(hint).span(span))
        }
    }

    /// Ensures the next token is a comma and consumes it; otherwise reports
    /// an error and consumes nothing.
    pub fn expect_comma(&mut self) -> (r: Result<(), Error>)
        requires
            old(self).wf(),
        ensures
            final(self).wf(),
            match r {
                Result::Ok(()) => {
                    &&& old(self).rest().len() > 0
                    &&& spec_punct_is_char(old(self).rest()[0], ',')
                    &&& final(self).rest() == old(self).rest().drop_first()
                    &&& final(self).last() == span_of(old(self).rest()[0])
                },
                Result::Err(e) => {
                    &&& !(old(self).rest().len() > 0 && spec_punct_is_char(
                        old(self).rest()[0],
                        ',',
                    ))
                    &&& e@ == simple_err(old(self).rest(), Option::Some(","@))
                    &&& *final(self) == *old(self)
                },
            },
    {
        self.expect_punct(',', ",")
    }

    /// Ensures the next token is a semicolon and consumes it; otherwise
    /// reports an error and consumes nothing.
    pub fn expect_semicolon(&mut self) -> (r: Result<(), Error>)
        requires
            old(self).wf(),
        ensures
            final(self).wf(),
            match r {
                Result::Ok(()) => {
                    &&& old(self).rest().len() > 0
                    &&& spec_punct_is_char(old(self).rest()[0], ';')
                    &&& final(self).rest() == old(self).rest().drop_first()
                    &&& final(self).last() == span_of(old(self).rest()[0])
                },
                Result::Err(e) => {
                    &&& !(old(self).rest().len() > 0 && spec_punct_is_char(
                        old(self).rest()[0],
                        ';',
                    ))
                    &&& e@ == simple_err(old(self).rest(), Option::Some("';'"@))
                    &&& *final(self) == *old(self)
                },
            },
    {
        self.expect_punct(';', "';'")
    }

    /// Extracts the next token as an identifier, returning its name and
    /// position; otherwise reports an error and consumes nothing. The
    /// `expected` text, when given, is used in the error's hint.
    pub fn extract_identifier(&mut self, expected: Option<&str>) -> (r: Result<
        (String, usize),
        Error,
    >)
        requires
            old(self).wf(),
        ensures
            final(self).wf(),
            match r {
                Result::Ok(p) => {
                    &&& old(self).rest().len() > 0
                    &&& old(self).rest()[0] == (TokTree::Ident { name: p.0@, span: p.1 as int })
                    &&& final(self).rest() == old(self).rest().drop_first()
                    &&& final(self).last() == span_of(old(self).rest()[0])
                },
                Result::Err(e) => {
                    &&& !(old(self).rest().len() > 0 && old(self).rest()[0] is Ident)
                    &&& e@ == simple_err(
                        old(self).rest(),
                        match expected {
                            Option::Some(x) => Option::Some(x@),
                            Option::None => Option::None,
                        },
                    )
                    &&& *final(self) == *old(self)
                },
            },
    {
        proof {
            broadcast use lemma_toks_deep;

        }
        let is_match = match self.peek() {
            Option::Some(t) => t.is_identifier(),
            Option::None => false,
        };
        if is_match {
            match self.next() {
                Option::Some(Token::Ident(name, sp)) => Result::Ok((name, sp)),
                _ => {
                    proof {
                        assert(false);
                    }
                    Result::Err(Error::new(""))
                },
            }
        } else {
            let mut msg: &str = "Unexpected end of code.";
            let mut span: usize = SYNTHETIC_SPAN;
            match self.peek() {
                Option::Some(t) => {
                    match t {
                        Token::Group(_, _, _) => {
                            msg = "Unexpected delimiter.";
                        },
                        _ => {
                            msg = "Unexpected token.";
                        },
                    }
                    span = t.span();
                },
                Option::None => {},
            }
            let e = Error::new(msg).span(span);
            match expected {
                Option::Some(x) => {
                    let mut hint: String = "Expected ".to_owned();
                    hint.append(x);
                    hint.append(".");
                    Result::Err(e.hint_string(hint))
                },
                Option::None => Result::Err(e),
            }
        }
    }

    /// If the next token is an identifier equal to the given keyword,
    /// consumes it and returns its position; otherwise consumes nothing.
    pub fn extract_keyword(&mut self, kw: &str) -> (r: Option<usize>)
        requires
            old(self).wf(),
        ensures
            final(self).wf(),
            match r {
                Option::Some(sp) => {
                    &&& old(self).rest().len() > 0
                    &&& spec_is_ident_named(old(self).rest()[0], kw@)
                    &&& sp as int == span_of(old(self).rest()[0])
                    &&& final(self).rest() == old(self).rest().drop_first()
                    &&& final(self).last() == span_of(old(self).rest()[0])
                },
                Option::None => {
                    &&& !(old(self).rest().len() > 0 && spec_is_ident_named(
                        old(self).rest()[0],
                        kw@,
                    ))
                    &&& *final(self) == *old(self)
                },
            },
    {
        let is_match = match self.peek() {
            Option::Some(t) => crate::tokens::is_ident(t, Option::Some(kw)),
            Option::None => false,
        };
        if is_match {
            let t = self.next();
            match t {
                Option::Some(tt) => Option::Some(tt.span()),
                Option::None => {
                    proof {
                        assert(false);
                    }
                    Option::None
                },
            }
        } else {
            Option::None
        }
    }

    /// Extracts the body and position of the next group, which must carry a
    /// visible delimiter and, when an expectation is given, exactly that
    /// delimiter; otherwise reports an error and consumes nothing.
    pub fn next_group(&mut self, expected: Option<Delim>) -> (r: Result<(TokenIter, usize), Error>)
        requires
            old(self).wf(),
            expected != Option::Some(Delim::Transparent),
        ensures
            final(self).wf(),
            match r {
                Result::Ok(p) => {
                    &&& old(self).rest().len() > 0
                    &&& group_matches(old(self).rest()[0], expected)
                    &&& old(self).rest()[0] matches TokTree::Group { delim, body, span } && {
                        &&& p.0.wf()
                        &&& p.0.rest() == body
                        &&& p.0.last() == SYNTHETIC_SPAN as int
                        &&& p.1 as int == span
                    }
                    &&& final(self).rest() == old(self).rest().drop_first()
                    &&& final(self).last() == span_of(old(self).rest()[0])
                },
                Result::Err(e) => {
                    &&& !(old(self).rest().len() > 0 && group_matches(old(self).rest()[0], expected))
                    &&& e@ == group_err(old(self).rest(), old(self).last(), expected)
                    &&& *final(self) == *old(self)
                },
            },
    {
        proof {
            broadcast use lemma_toks_deep;

        }
        let is_match = match self.peek() {
            Option::Some(t) => {
                match t {
                    Token::Group(d, _, _) => {
                        if matches!(d, Delim::Transparent) {
                            false
                        } else {
                            match expected {
                                Option::Some(e) => delim_eq(*d, e),
                                Option::None => true,
                            }
                        }
                    },
                    _ => false,
                }
            },
            Option::None => false,
        };
        if is_match {
            match self.next() {
                Option::Some(Token::Group(_, body, sp)) => {
                    Result::Ok((TokenIter::new(body), sp))
                },
                _ => {
                    proof {
                        assert(false);
                    }
                    Result::Err(Error::new(""))
                },
            }
        } else {
            let msg: &str = match expected {
                Option::Some(Delim::Bracket) => "Expected '['.",
                Option::Some(Delim::Brace) => "Expected '{'.",
                Option::Some(Delim::Paren) => "Expected '('.",
                _ => "Expected '{', '[', or '('.",
            };
            let span: usize = match self.peek() {
                Option::Some(t) => t.span(),
                Option::None => self.last_span,
            };
            Result::Err(Error::new(msg).span(span))
        }
    }

    /// Hands back the tokens that have yet to be produced.
    pub fn to_token_stream(&self) -> (r: Vec<Token>)
        requires
            self.wf(),
        ensures
            toks_deep(r@) == self.rest(),
    {
        proof {
            broadcast use lemma_toks_deep;

        }
        let mut out: Vec<Token> = Vec::new();
        let mut i: usize = self.pos;
        while i < self.tokens.len()
            invariant
                self.wf(),
                self.pos <= i <= self.tokens@.len(),
                out@.len() == i - self.pos,
                forall|j: int|
                    0 <= j < out@.len() ==> tok_deep(out@[j]) == tok_deep(
                        self.tokens@[self.pos + j],
                    ),
            decreases self.tokens@.len() - i,
        {
            out.push(self.tokens[i].clone());
            i = i + 1;
        }
        proof {
            broadcast use lemma_toks_deep;

            assert(toks_deep(out@) =~= self.rest());
        }
        out
    }
}

impl Token {
    /// Whether the token is an identifier.
    fn is_identifier(&self) -> (r: bool)
        ensures
            r == (tok_deep(*self) is Ident),
    {
        match self {
            Token::Ident(_, _) => true,
            _ => false,
        }
    }
}

/// Whether two delimiters are equal.
fn delim_eq(a: Delim, b: Delim) -> (r: bool)
    ensures
        r == (a == b),
{
    a == b
}

} // verus!
