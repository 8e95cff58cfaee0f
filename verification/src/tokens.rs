//! The token-tree data model.
//!
//! A token is either a simple leaf (identifier, literal or punctuation mark,
//! each carrying a source position) or a group: a delimiter, a nested token
//! sequence, and the position spanning the whole group. `TokTree` is the
//! mathematical model of a token; contracts throughout the crate speak of it
//! through `tok_deep` on tokens and `toks_deep` on token sequences.

use vstd::prelude::*;

verus! {

broadcast use {vstd::std_specs::vec::group_vec_axioms, vstd::seq::group_seq_axioms};

/// The source position used for tokens the engine synthesizes itself.
pub const SYNTHETIC_SPAN: usize = 0;

/// The delimiter of a group token.
///
/// `Transparent` marks a group with no visible delimiter; such groups are
/// spliced inline by the token cursor and never survive past it.
#[derive(Clone, Copy, PartialEq, Eq, Structural, Debug)]
pub enum Delim {
    Paren,
    Bracket,
    Brace,
    Transparent,
}

/// One token of a token tree.
#[derive(Debug)]
pub enum Token {
    /// An identifier: its text and source position.
    Ident(String, usize),
    /// A punctuation mark: the character, whether it stands alone (not joined
    /// to the following punctuation), and its source position.
    Punct(char, bool, usize),
    /// Any other leaf token (a literal): its text and source position.
    Lit(String, usize),
    /// A delimited group: delimiter, body, and the position of the whole group.
    Group(Delim, Vec<Token>, usize),
}

/// The mathematical model of a token.
pub enum TokTree {
    Ident { name: Seq<char>, span: int },
    Punct { ch: char, alone: bool, span: int },
    Lit { text: Seq<char>, span: int },
    Group { delim: Delim, body: Seq<TokTree>, span: int },
}

/// The model of a token.
pub open spec fn tok_deep(t: Token) -> TokTree
    decreases t,
{
    match t {
        Token::Ident(s, sp) => TokTree::Ident { name: s@, span: sp as int },
        Token::Punct(c, a, sp) => TokTree::Punct { ch: c, alone: a, span: sp as int },
        Token::Lit(s, sp) => TokTree::Lit { text: s@, span: sp as int },
        Token::Group(d, body, sp) => TokTree::Group {
            delim: d,
            body: toks_deep(body@),
            span: sp as int,
        },
    }
}

/// The model of a token sequence: each token's model, in order.
pub open spec fn toks_deep(s: Seq<Token>) -> Seq<TokTree>
    decreases s,
{
    if s.len() == 0 {
        Seq::empty()
    } else {
        toks_deep(s.drop_last()).push(tok_deep(s.last()))
    }
}

/// The model of a token sequence has the same length, and each of its
/// elements is the model of the token at that place.
pub broadcast proof fn lemma_toks_deep(s: Seq<Token>)
    ensures
        (#[trigger] toks_deep(s)).len() == s.len(),
        forall|i: int| 0 <= i < s.len() ==> toks_deep(s)[i] == tok_deep(s[i]),
    decreases s,
{
    if s.len() > 0 {
        lemma_toks_deep(s.drop_last());
        assert forall|i: int| 0 <= i < s.len() implies toks_deep(s)[i] == tok_deep(s[i]) by {
            if i < s.len() - 1 {
                assert(s.drop_last()[i] == s[i]);
            }
        }
    }
}

/// The model of a concatenation is the concatenation of the models.
pub broadcast proof fn lemma_toks_deep_add(a: Seq<Token>, b: Seq<Token>)
    ensures
        #[trigger] toks_deep(a + b) == toks_deep(a) + toks_deep(b),
{
    broadcast use lemma_toks_deep;

    assert forall|i: int| 0 <= i < a.len() + b.len() implies toks_deep(a + b)[i] == (toks_deep(a)
        + toks_deep(b))[i] by {
        if i < a.len() {
            assert((a + b)[i] == a[i]);
        } else {
            assert((a + b)[i] == b[i - a.len()]);
        }
    }
    assert(toks_deep(a + b) =~= toks_deep(a) + toks_deep(b));
}

/// The source position of a token's model.
pub open spec fn span_of(t: TokTree) -> int {
    match t {
        TokTree::Ident { span, .. } => span,
        TokTree::Punct { span, .. } => span,
        TokTree::Lit { span, .. } => span,
        TokTree::Group { span, .. } => span,
    }
}

/// The number of nodes in a token's model, counting each leaf and each group.
pub open spec fn tok_size(t: TokTree) -> nat
    decreases t,
{
    match t {
        TokTree::Group { body, .. } => 1 + seq_size(body),
        _ => 1,
    }
}

/// The total number of nodes in a token sequence's model.
pub open spec fn seq_size(s: Seq<TokTree>) -> nat
    decreases s,
{
    if s.len() == 0 {
        0
    } else {
        tok_size(s[0]) + seq_size(s.drop_first())
    }
}

/// Appending one token to a sequence adds its size.
pub proof fn lemma_seq_size_push(s: Seq<TokTree>, t: TokTree)
    ensures
        seq_size(s.push(t)) == seq_size(s) + tok_size(t),
    decreases s,
{
    if s.len() == 0 {
        assert(s.push(t).len() == 1);
        assert(seq_size(s.push(t)) == tok_size(s.push(t)[0]) + seq_size(s.push(t).drop_first()));
        assert(s.push(t)[0] == t);
        assert(s.push(t).drop_first() =~= Seq::<TokTree>::empty());
        assert(seq_size(s.push(t).drop_first()) == 0);
        assert(seq_size(s) == 0);
    } else {
        assert(s.push(t)[0] == s[0]);
        assert(s.push(t).drop_first() =~= s.drop_first().push(t));
        lemma_seq_size_push(s.drop_first(), t);
    }
}

/// The size of a concatenation is the sum of the sizes.
pub proof fn lemma_seq_size_add(a: Seq<TokTree>, b: Seq<TokTree>)
    ensures
        seq_size(a + b) == seq_size(a) + seq_size(b),
    decreases a,
{
    if a.len() == 0 {
        assert(a + b =~= b);
    } else {
        assert((a + b)[0] == a[0]);
        assert((a + b).drop_first() =~= a.drop_first() + b);
        lemma_seq_size_add(a.drop_first(), b);
    }
}

/// A token is at least as small as any sequence that holds it.
pub proof fn lemma_seq_size_element(s: Seq<TokTree>, i: int)
    requires
        0 <= i < s.len(),
    ensures
        tok_size(s[i]) <= seq_size(s),
        tok_size(s[i]) >= 1,
    decreases s,
{
    lemma_tok_size_pos(s[i]);
    if i > 0 {
        assert(s.drop_first()[i - 1] == s[i]);
        lemma_seq_size_element(s.drop_first(), i - 1);
    }
}

/// Every token has at least one node.
pub proof fn lemma_tok_size_pos(t: TokTree)
    ensures
        tok_size(t) >= 1,
{
}

impl Token {
    /// Returns the source position of the token.
    pub fn span(&self) -> (r: usize)
        ensures
            r as int == span_of(tok_deep(*self)),
    {
        match self {
            Token::Ident(_, sp) => *sp,
            Token::Punct(_, _, sp) => *sp,
            Token::Lit(_, sp) => *sp,
            Token::Group(_, _, sp) => *sp,
        }
    }
}

impl Clone for Token {
    /// Cloning a token keeps its model.
    fn clone(&self) -> (r: Self)
        ensures
            tok_deep(r) == tok_deep(*self),
        decreases tok_size(tok_deep(*self)),
    {
        match self {
            Token::Ident(s, sp) => Token::Ident(s.clone(), *sp),
            Token::Punct(c, a, sp) => Token::Punct(*c, *a, *sp),
            Token::Lit(s, sp) => Token::Lit(s.clone(), *sp),
            Token::Group(d, body, sp) => {
                let ghost whole = toks_deep(body@);
                let mut out: Vec<Token> = Vec::new();
                let mut i: usize = 0;
                while i < body.len()
                    invariant
                        i <= body.len(),
                        whole == toks_deep(body@),
                        tok_deep(*self) == (TokTree::Group {
                            delim: *d,
                            body: whole,
                            span: *sp as int,
                        }),
                        out@.len() == i,
                        forall|j: int| 0 <= j < i ==> tok_deep(out@[j]) == tok_deep(body@[j]),
                    decreases body.len() - i,
                {
                    proof {
                        broadcast use lemma_toks_deep;

                        lemma_seq_size_element(whole, i as int);
                    }
                    out.push(body[i].clone());
                    i = i + 1;
                }
                proof {
                    broadcast use lemma_toks_deep;

                    assert(toks_deep(out@) =~= toks_deep(body@));
                }
                Token::Group(*d, out, *sp)
            },
        }
    }
}

/// Clones a token sequence, keeping its model.
pub fn clone_tokens(toks: &Vec<Token>) -> (r: Vec<Token>)
    ensures
        toks_deep(r@) == toks_deep(toks@),
{
    let mut out: Vec<Token> = Vec::new();
    let mut i: usize = 0;
    while i < toks.len()
        invariant
            i <= toks.len(),
            out@.len() == i,
            forall|j: int| 0 <= j < i ==> tok_deep(out@[j]) == tok_deep(toks@[j]),
        decreases toks.len() - i,
    {
        out.push(toks[i].clone());
        i = i + 1;
    }
    proof {
        broadcast use lemma_toks_deep;

        assert(toks_deep(out@) =~= toks_deep(toks@));
    }
    out
}

/// Whether the token is a punctuation mark equal to the given character and
/// standing alone.
pub open spec fn spec_punct_is_char(t: TokTree, c: char) -> bool {
    t matches TokTree::Punct { ch, alone, .. } && ch == c && alone
}

/// Whether the token is the given lone punctuation character.
pub fn is_punct(t: &Token, c: char) -> (r: bool)
    ensures
        r == spec_punct_is_char(tok_deep(*t), c),
{
    match t {
        Token::Punct(ch, alone, _) => *ch == c && *alone,
        _ => false,
    }
}

/// Whether the token is a lone semicolon.
pub fn is_semicolon(t: &Token) -> (r: bool)
    ensures
        r == spec_punct_is_char(tok_deep(*t), ';'),
{
    is_punct(t, ';')
}

/// Whether the token is an identifier with the given name.
pub open spec fn spec_is_ident_named(t: TokTree, name: Seq<char>) -> bool {
    t matches TokTree::Ident { name: n, .. } && n == name
}

/// Whether the token is an identifier, and if a comparison string is given,
/// whether it is equal to it.
pub fn is_ident(t: &Token, comp: Option<&str>) -> (r: bool)
    ensures
        match comp {
            Option::Some(c) => r == spec_is_ident_named(tok_deep(*t), c@),
            Option::None => r == (tok_deep(*t) is Ident),
        },
{
    match t {
        Token::Ident(name, _) => {
            match comp {
                Option::Some(c) => {
                    let cs: String = c.to_owned();
                    *name == cs
                },
                Option::None => true,
            }
        },
        _ => false,
    }
}

/// If the given token is an identifier, returns its name and position.
pub fn get_ident(t: &Token) -> (r: Option<(String, usize)>)
    ensures
        match r {
            Option::Some(p) => tok_deep(*t) == (TokTree::Ident { name: p.0@, span: p.1 as int }),
            Option::None => !(tok_deep(*t) is Ident),
        },
{
    match t {
        Token::Ident(name, sp) => Option::Some((name.clone(), *sp)),
        _ => Option::None,
    }
}

/// Counts the nodes of a token sequence, saturating at the machine limit.
pub fn count_tokens(toks: &Vec<Token>) -> (r: u64)
    ensures
        r as nat == vstd::math::min(seq_size(toks_deep(toks@)) as int, u64::MAX as int) as nat,
{
    let ghost whole = toks_deep(toks@);
    proof {
        broadcast use lemma_toks_deep;

    }
    let mut total: u64 = 0;
    let mut i: usize = 0;
    while i < toks.len()
        invariant
            i <= toks.len(),
            toks@.len() == whole.len(),
            whole == toks_deep(toks@),
            forall|j: int| 0 <= j < whole.len() ==> whole[j] == tok_deep(toks@[j]),
            total as nat == vstd::math::min(seq_size(whole.take(i as int)) as int, u64::MAX as int) as nat,
        decreases toks.len() - i,
    {
        proof {
            lemma_seq_size_push(whole.take(i as int), whole[i as int]);
            assert(whole.take(i as int).push(whole[i as int]) =~= whole.take(i + 1 as int));
            lemma_tok_size_pos(whole[i as int]);
        }
        let c = count_token(&toks[i]);
        if total >= u64::MAX - c {
            total = u64::MAX;
        } else {
            total = total + c;
        }
        i = i + 1;
    }
    proof {
        assert(whole.take(toks@.len() as int) =~= whole);
    }
    total
}

/// Counts the nodes of one token, saturating at the machine limit.
fn count_token(t: &Token) -> (r: u64)
    ensures
        r as nat == vstd::math::min(tok_size(tok_deep(*t)) as int, u64::MAX as int) as nat,
    decreases tok_size(tok_deep(*t)),
{
    match t {
        Token::Group(d, body, sp) => {
            let ghost whole = toks_deep(body@);
            proof {
                broadcast use lemma_toks_deep;

            }
            let mut total: u64 = 1;
            let mut i: usize = 0;
            while i < body.len()
                invariant
                    i <= body.len(),
                    body@.len() == whole.len(),
                    whole == toks_deep(body@),
                    tok_deep(*t) == (TokTree::Group {
                        delim: *d,
                        body: whole,
                        span: *sp as int,
                    }),
                    forall|j: int| 0 <= j < whole.len() ==> whole[j] == tok_deep(body@[j]),
                    total as nat == vstd::math::min(
                        1 + seq_size(whole.take(i as int)) as int,
                        u64::MAX as int,
                    ) as nat,
                decreases body.len() - i,
            {
                proof {
                    lemma_seq_size_push(whole.take(i as int), whole[i as int]);
                    assert(whole.take(i as int).push(whole[i as int]) =~= whole.take(i + 1 as int));
                    lemma_seq_size_element(whole, i as int);
                }
                let c = count_token(&body[i]);
                if total >= u64::MAX - c {
                    total = u64::MAX;
                } else {
                    total = total + c;
                }
                i = i + 1;
            }
            proof {
                assert(whole.take(body@.len() as int) =~= whole);
            }
            total
        },
        _ => 1,
    }
}

} // verus!
