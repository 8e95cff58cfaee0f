//! The substitution model and the duplication engine.
//!
//! A [`Substitution`] records what one substitution identifier expands to: an
//! argument count and an ordered list of parts, each part a fixed token, a
//! reference to one argument, or a nested delimited group whose interior is
//! itself a substitution. A [`SubstitutionGroup`] maps identifier names to
//! substitutions, remembering insertion order. The engine walks the target
//! fragment once per per-duplicate group, replacing identifiers.

use vstd::prelude::*;

use crate::error::{dec_str, dec_string, err_at, with_hint, ErrM, Error};
use crate::token_iter::{left_delim_msg, TokenIter};
use crate::tokens::span_of;
use crate::tokens::{
    lemma_seq_size_element, lemma_tok_size_pos, lemma_toks_deep, lemma_toks_deep_add, seq_size,
    spec_is_ident_named, spec_punct_is_char, tok_deep, tok_size, toks_deep, Delim, TokTree, Token,
    SYNTHETIC_SPAN,
};

verus! {

broadcast use {vstd::std_specs::vec::group_vec_axioms, vstd::seq::group_seq_axioms,
    crate::tokens::lemma_toks_deep};

// ---------------------------------------------------------------------------
// Models
// ---------------------------------------------------------------------------
/// The mathematical model of one substitution part.
pub enum PartTree {
    /// A fixed token, emitted verbatim.
    Fixed(TokTree),
    /// A reference to the argument with the given index.
    Arg(int),
    /// A nested delimited group whose interior is itself substituted.
    Grp { delim: Delim, parts: Seq<PartTree> },
}

/// The mathematical model of a substitution: its argument count and parts.
pub struct SubM {
    pub count: nat,
    pub parts: Seq<PartTree>,
}

/// The mathematical model of a substitution group: names and substitutions,
/// in insertion order.
pub type GroupM = Seq<(Seq<char>, SubM)>;

/// The first substitution assigned to the given name, if any.
pub open spec fn lookup(g: GroupM, name: Seq<char>) -> Option<SubM>
    decreases g,
{
    if g.len() == 0 {
        Option::None
    } else if g[0].0 == name {
        Option::Some(g[0].1)
    } else {
        lookup(g.drop_first(), name)
    }
}

/// The index of the first parameter with the given name, or -1 when none
/// carries it.
pub open spec fn param_index(params: Seq<Seq<char>>, name: Seq<char>) -> int
    decreases params,
{
    if params.len() == 0 {
        -1
    } else if params[0] == name {
        0
    } else {
        let r = param_index(params.drop_first(), name);
        if r < 0 {
            -1
        } else {
            r + 1
        }
    }
}

/// The models of a list of parameter names.
pub open spec fn strings_deep(s: Seq<String>) -> Seq<Seq<char>> {
    Seq::new(s.len(), |i: int| s[i]@)
}

/// The models of a list of argument token sequences.
pub open spec fn args_deep(s: Seq<Vec<Token>>) -> Seq<Seq<TokTree>> {
    Seq::new(s.len(), |i: int| toks_deep(s[i]@))
}

/// The parts a token scan builds from one token: an identifier naming a
/// parameter becomes an argument reference, a group becomes a nested group
/// part over its recursively scanned body, anything else a fixed token.
pub open spec fn build_part(t: TokTree, params: Seq<Seq<char>>) -> PartTree
    decreases t,
{
    match t {
        TokTree::Ident { name, .. } => {
            if param_index(params, name) >= 0 {
                PartTree::Arg(param_index(params, name))
            } else {
                PartTree::Fixed(t)
            }
        },
        TokTree::Group { delim, body, .. } => PartTree::Grp {
            delim,
            parts: build_parts(body, params),
        },
        _ => PartTree::Fixed(t),
    }
}

/// The parts a token scan builds from a token sequence, in order.
pub open spec fn build_parts(toks: Seq<TokTree>, params: Seq<Seq<char>>) -> Seq<PartTree>
    decreases toks,
{
    if toks.len() == 0 {
        Seq::empty()
    } else {
        seq![build_part(toks[0], params)] + build_parts(toks.drop_first(), params)
    }
}

/// The parts of a substitution built without parameters: every token is kept
/// as a fixed part, groups included.
pub open spec fn fixed_parts(toks: Seq<TokTree>) -> Seq<PartTree> {
    Seq::new(toks.len(), |i: int| PartTree::Fixed(toks[i]))
}

/// The tokens one part produces when applied to the given arguments.
pub open spec fn apply_part(p: PartTree, args: Seq<Seq<TokTree>>) -> Seq<TokTree>
    decreases p,
{
    match p {
        PartTree::Fixed(t) => seq![t],
        PartTree::Arg(i) => args[i],
        PartTree::Grp { delim, parts } => seq![
            TokTree::Group {
                delim,
                body: apply_parts(parts, args),
                span: SYNTHETIC_SPAN as int,
            },
        ],
    }
}

/// The concatenation of what each part produces, in order.
pub open spec fn apply_parts(ps: Seq<PartTree>, args: Seq<Seq<TokTree>>) -> Seq<TokTree>
    decreases ps,
{
    if ps.len() == 0 {
        Seq::empty()
    } else {
        apply_part(ps[0], args) + apply_parts(ps.drop_first(), args)
    }
}

/// The name of the single bare identifier a substitution produces, if its
/// parts are exactly one fixed identifier and nothing else.
pub open spec fn simple_value(ps: Seq<PartTree>) -> Option<Seq<char>> {
    if ps.len() == 1 && ps[0] matches PartTree::Fixed(TokTree::Ident { .. }) {
        match ps[0] {
            PartTree::Fixed(TokTree::Ident { name, .. }) => Option::Some(name),
            _ => Option::None,
        }
    } else {
        Option::None
    }
}

/// The message of the error reported when a substitution is applied to the
/// wrong number of arguments: it reports the expected and the actual count.
pub open spec fn arity_msg(expected: nat, got: nat) -> Seq<char> {
    "Expected "@ + dec_str(expected) + " substitution arguments but got "@ + dec_str(got)
}

// ---------------------------------------------------------------------------
// Substitution
// ---------------------------------------------------------------------------
/// The kinds of parts composing a substitution.
pub enum SubType {
    /// A fixed token, emitted verbatim.
    Token(Token),
    /// Emit the argument with the given index.
    Argument(usize),
    /// A group with the given delimiter whose contents are produced by the
    /// nested substitution.
    Group(Delim, Substitution),
}

/// A substitution for an identifier.
///
/// A substitution takes a specific number of argument token sequences and
/// produces the token sequence to put in place of the identifier.
pub struct Substitution {
    /// The number of arguments the substitution takes.
    arg_count: usize,
    /// The ordered parts; an application concatenates their productions.
    sub: Vec<SubType>,
}

/// The model of one part.
pub closed spec fn subtype_deep(s: SubType) -> PartTree
    decreases s,
{
    match s {
        SubType::Token(t) => PartTree::Fixed(tok_deep(t)),
        SubType::Argument(i) => PartTree::Arg(i as int),
        SubType::Group(d, sub) => PartTree::Grp { delim: d, parts: subtypes_deep(sub.sub@) },
    }
}

/// The model of a part list.
pub closed spec fn subtypes_deep(s: Seq<SubType>) -> Seq<PartTree>
    decreases s,
{
    if s.len() == 0 {
        Seq::empty()
    } else {
        seq![subtype_deep(s[0])] + subtypes_deep(s.drop_first())
    }
}

/// Every part list model has one part per part.
pub broadcast proof fn lemma_subtypes_deep(s: Seq<SubType>)
    ensures
        (#[trigger] subtypes_deep(s)).len() == s.len(),
        forall|i: int| 0 <= i < s.len() ==> subtypes_deep(s)[i] == subtype_deep(s[i]),
    decreases s,
{
    if s.len() > 0 {
        lemma_subtypes_deep(s.drop_first());
        assert forall|i: int| 0 <= i < s.len() implies subtypes_deep(s)[i] == subtype_deep(
            s[i],
        ) by {
            if i > 0 {
                assert(s.drop_first()[i - 1] == s[i]);
            }
        }
    }
}

/// Well-formedness of one part against an argument count: argument
/// references lie below the count, and a nested substitution takes exactly
/// the same count.
pub closed spec fn subtype_wf(s: SubType, n: nat) -> bool
    decreases s,
{
    match s {
        SubType::Token(_) => true,
        SubType::Argument(i) => (i as int) < n,
        SubType::Group(_, sub) => sub.arg_count as nat == n && subtypes_wf(sub.sub@, n),
    }
}

/// Well-formedness of a part list against an argument count.
pub closed spec fn subtypes_wf(s: Seq<SubType>, n: nat) -> bool
    decreases s,
{
    if s.len() == 0 {
        true
    } else {
        subtype_wf(s[0], n) && subtypes_wf(s.drop_first(), n)
    }
}

/// A well-formed part list is well-formed at every place.
pub proof fn lemma_subtypes_wf_index(s: Seq<SubType>, n: nat, i: int)
    requires
        subtypes_wf(s, n),
        0 <= i < s.len(),
    ensures
        subtype_wf(s[i], n),
    decreases s,
{
    if i > 0 {
        assert(s.drop_first()[i - 1] == s[i]);
        lemma_subtypes_wf_index(s.drop_first(), n, i - 1);
    }
}

/// The number of parts in a part list, nested ones included.
pub closed spec fn subtype_size(s: SubType) -> nat
    decreases s,
{
    match s {
        SubType::Group(_, sub) => 1 + subtypes_size(sub.sub@),
        _ => 1,
    }
}

/// The total number of parts in a part list, nested ones included.
pub closed spec fn subtypes_size(s: Seq<SubType>) -> nat
    decreases s,
{
    if s.len() == 0 {
        0
    } else {
        subtype_size(s[0]) + subtypes_size(s.drop_first())
    }
}

/// A part is at least as small as any part list that holds it.
pub proof fn lemma_subtypes_size_element(s: Seq<SubType>, i: int)
    requires
        0 <= i < s.len(),
    ensures
        subtype_size(s[i]) <= subtypes_size(s),
        subtype_size(s[i]) >= 1,
    decreases s,
{
    if i > 0 {
        assert(s.drop_first()[i - 1] == s[i]);
        lemma_subtypes_size_element(s.drop_first(), i - 1);
    }
}

impl Substitution {
    /// The model of this substitution's parts.
    pub closed spec fn parts(&self) -> Seq<PartTree> {
        subtypes_deep(self.sub@)
    }

    /// The number of arguments the substitution takes.
    pub closed spec fn count(&self) -> nat {
        self.arg_count as nat
    }

    /// The model of this substitution.
    pub open spec fn model(&self) -> SubM {
        SubM { count: self.count(), parts: self.parts() }
    }

    /// Argument references lie below the argument count.
    pub closed spec fn wf(&self) -> bool {
        subtypes_wf(self.sub@, self.count())
    }

    /// The total number of parts, nested ones included: a measure for
    /// recursion over the substitution.
    pub closed spec fn size(&self) -> nat {
        subtypes_size(self.sub@)
    }

    /// Creates a substitution that takes no arguments and produces the given
    /// tokens verbatim.
    pub fn new_simple(substitution: Vec<Token>) -> (r: Self)
        ensures
            r.wf(),
            r.count() == 0,
            r.parts() == fixed_parts(toks_deep(substitution@)),
    {
        let mut sub: Vec<SubType> = Vec::new();
        let n = substitution.len();
        let mut rest = substitution;
        let ghost all = toks_deep(rest@);
        proof {
            broadcast use {lemma_toks_deep, lemma_subtypes_deep};

        }
        let mut i: usize = 0;
        while i < n
            invariant
                n == rest@.len(),
                all.len() == n,
                i <= n,
                all == toks_deep(rest@),
                sub@.len() == i,
                forall|j: int| 0 <= j < i ==> subtype_deep(sub@[j]) == PartTree::Fixed(all[j]),
                subtypes_wf(sub@, 0),
            decreases n - i,
        {
            let t = rest[i].clone();
            proof {
                broadcast use {lemma_toks_deep, lemma_subtypes_deep};

                lemma_subtypes_wf_snoc(sub@, SubType::Token(t), 0);
            }
            sub.push(SubType::Token(t));
            i = i + 1;
        }
        let r = Substitution { arg_count: 0, sub };
        proof {
            broadcast use {lemma_toks_deep, lemma_subtypes_deep};

            assert(r.parts() =~= fixed_parts(all));
        }
        r
    }

    /// Returns the number of arguments the substitution takes.
    pub fn argument_count(&self) -> (r: usize)
        ensures
            r as nat == self.count(),
    {
        self.arg_count
    }

    /// If this substitution produces a single bare identifier and nothing
    /// else, returns that identifier's name.
    pub fn substitutes_identifier(&self) -> (r: Option<String>)
        ensures
            match r {
                Option::Some(name) => simple_value(self.parts()) == Option::Some(name@),
                Option::None => simple_value(self.parts()) is None,
            },
    {
        proof {
            broadcast use lemma_subtypes_deep;

        }
        if self.sub.len() == 1 {
            match &self.sub[0] {
                SubType::Token(Token::Ident(name, _)) => Option::Some(name.clone()),
                _ => Option::None,
            }
        } else {
            Option::None
        }
    }
}

/// Appending a well-formed part keeps a part list well-formed.
pub proof fn lemma_subtypes_wf_snoc(s: Seq<SubType>, t: SubType, n: nat)
    requires
        subtypes_wf(s, n),
        subtype_wf(t, n),
    ensures
        subtypes_wf(s.push(t), n),
    decreases s,
{
    if s.len() == 0 {
        assert(s.push(t).len() == 1);
        assert(subtypes_wf(s.push(t), n) == (subtype_wf(s.push(t)[0], n) && subtypes_wf(
            s.push(t).drop_first(),
            n,
        )));
        assert(s.push(t)[0] == t);
        assert(s.push(t).drop_first() =~= Seq::<SubType>::empty());
        assert(subtypes_wf(s.push(t).drop_first(), n));
    } else {
        assert(s.push(t).len() == s.len() + 1);
        assert(subtypes_wf(s.push(t), n) == (subtype_wf(s.push(t)[0], n) && subtypes_wf(
            s.push(t).drop_first(),
            n,
        )));
        assert(s.push(t)[0] == s[0]);
        assert(s.push(t).drop_first() =~= s.drop_first().push(t));
        lemma_subtypes_wf_snoc(s.drop_first(), t, n);
    }
}

/// A part list model built by pushes equals the built parts, element-wise.
pub proof fn lemma_subtypes_deep_extensional(s: Seq<SubType>, ps: Seq<PartTree>)
    requires
        s.len() == ps.len(),
        forall|i: int| 0 <= i < s.len() ==> subtype_deep(s[i]) == ps[i],
    ensures
        subtypes_deep(s) == ps,
{
    broadcast use lemma_subtypes_deep;

    assert(subtypes_deep(s) =~= ps);
}

/// The built parts of a token sequence have one part per token.
pub broadcast proof fn lemma_build_parts(toks: Seq<TokTree>, params: Seq<Seq<char>>)
    ensures
        (#[trigger] build_parts(toks, params)).len() == toks.len(),
        forall|i: int|
            0 <= i < toks.len() ==> build_parts(toks, params)[i] == build_part(toks[i], params),
    decreases toks,
{
    if toks.len() > 0 {
        lemma_build_parts(toks.drop_first(), params);
        assert forall|i: int| 0 <= i < toks.len() implies build_parts(toks, params)[i]
            == build_part(toks[i], params) by {
            if i > 0 {
                assert(toks.drop_first()[i - 1] == toks[i]);
            }
        }
    }
}

/// The parameter index is the first place carrying the name.
pub proof fn lemma_param_index_first(params: Seq<Seq<char>>, name: Seq<char>, i: int)
    requires
        0 <= i < params.len(),
        params[i] == name,
        forall|j: int| 0 <= j < i ==> params[j] != name,
    ensures
        param_index(params, name) == i,
    decreases params,
{
    if i > 0 {
        assert(params.drop_first()[i - 1] == params[i]);
        assert forall|j: int| 0 <= j < i - 1 implies params.drop_first()[j] != name by {
            assert(params.drop_first()[j] == params[j + 1]);
        }
        lemma_param_index_first(params.drop_first(), name, i - 1);
    }
}

/// When no parameter carries the name, the index is -1.
pub proof fn lemma_param_index_none(params: Seq<Seq<char>>, name: Seq<char>)
    requires
        forall|j: int| 0 <= j < params.len() ==> params[j] != name,
    ensures
        param_index(params, name) == -1,
    decreases params,
{
    if params.len() > 0 {
        assert forall|j: int| 0 <= j < params.len() - 1 implies params.drop_first()[j] != name by {
            assert(params.drop_first()[j] == params[j + 1]);
        }
        lemma_param_index_none(params.drop_first(), name);
    }
}

/// Finds the first parameter with the given name.
fn find_param(arguments: &Vec<String>, name: &String) -> (r: Option<usize>)
    ensures
        match r {
            Option::Some(i) => i < arguments@.len() && param_index(
                strings_deep(arguments@),
                name@,
            ) == i as int,
            Option::None => param_index(strings_deep(arguments@), name@) == -1,
        },
{
    let ghost params = strings_deep(arguments@);
    let mut i: usize = 0;
    while i < arguments.len()
        invariant
            i <= arguments@.len(),
            params == strings_deep(arguments@),
            forall|j: int| 0 <= j < i ==> params[j] != name@,
        decreases arguments@.len() - i,
    {
        if arguments[i] == *name {
            proof {
                lemma_param_index_first(params, name@, i as int);
            }
            return Option::Some(i);
        }
        i = i + 1;
    }
    proof {
        lemma_param_index_none(params, name@);
    }
    Option::None
}

/// Applying one more part appends its production.
pub proof fn lemma_apply_parts_snoc(ps: Seq<PartTree>, p: PartTree, args: Seq<Seq<TokTree>>)
    ensures
        apply_parts(ps.push(p), args) == apply_parts(ps, args) + apply_part(p, args),
    decreases ps,
{
    if ps.len() == 0 {
        assert(ps.push(p)[0] == p);
        assert(ps.push(p).drop_first() =~= Seq::<PartTree>::empty());
        assert(apply_parts(ps.push(p), args) == apply_part(p, args) + apply_parts(
            Seq::empty(),
            args,
        ));
        assert(apply_parts(ps.push(p), args) =~= apply_parts(ps, args) + apply_part(p, args));
    } else {
        assert(ps.push(p)[0] == ps[0]);
        assert(ps.push(p).drop_first() =~= ps.drop_first().push(p));
        lemma_apply_parts_snoc(ps.drop_first(), p, args);
        assert(apply_parts(ps.push(p), args) =~= apply_parts(ps, args) + apply_part(p, args));
    }
}

impl Substitution {
    /// Creates a substitution over the given parameter list.
    ///
    /// The tokens are scanned left to right: an identifier naming one of the
    /// parameters becomes a reference to that argument, a delimited group
    /// becomes a nested part whose interior is scanned the same way, and any
    /// other token is kept verbatim. The parameter list is assumed ordered;
    /// its length is the substitution's argument count. Construction itself
    /// cannot fail: the token tree guarantees every group is terminated.
    pub fn new(arguments: &Vec<String>, body: &Vec<Token>) -> (r: Self)
        ensures
            r.wf(),
            r.count() == arguments@.len(),
            r.parts() == build_parts(toks_deep(body@), strings_deep(arguments@)),
        decreases seq_size(toks_deep(body@)),
    {
        let ghost all = toks_deep(body@);
        let ghost params = strings_deep(arguments@);
        proof {
            broadcast use {lemma_toks_deep, lemma_subtypes_deep, lemma_build_parts};

        }
        let mut sub: Vec<SubType> = Vec::new();
        let mut i: usize = 0;
        while i < body.len()
            invariant
                i <= body@.len(),
                all == toks_deep(body@),
                all.len() == body@.len(),
                params == strings_deep(arguments@),
                sub@.len() == i,
                forall|j: int| 0 <= j < i ==> subtype_deep(sub@[j]) == build_part(all[j], params),
                subtypes_wf(sub@, arguments@.len() as nat),
            decreases body@.len() - i,
        {
            proof {
                broadcast use {lemma_toks_deep, lemma_subtypes_deep};

            }
            let part: SubType = match &body[i] {
                Token::Ident(name, sp) => {
                    match find_param(arguments, name) {
                        Option::Some(idx) => SubType::Argument(idx),
                        Option::None => SubType::Token(body[i].clone()),
                    }
                },
                Token::Group(d, b, sp) => {
                    proof {
                        lemma_seq_size_element(all, i as int);
                    }
                    let inner = Substitution::new(arguments, b);
                    SubType::Group(*d, inner)
                },
                _ => SubType::Token(body[i].clone()),
            };
            proof {
                lemma_subtypes_wf_snoc(sub@, part, arguments@.len() as nat);
            }
            sub.push(part);
            i = i + 1;
        }
        let r = Substitution { arg_count: arguments.len(), sub };
        proof {
            broadcast use lemma_build_parts;

            lemma_subtypes_deep_extensional(r.sub@, build_parts(all, params));
        }
        r
    }

    /// Applies the substitution to the given arguments.
    ///
    /// The number of arguments must match the number the substitution takes
    /// exactly; otherwise an error reporting the expected and the actual
    /// count is returned, pointing at the given position.
    pub fn apply(&self, args: &Vec<Vec<Token>>, err_span: usize) -> (r: Result<Vec<Token>, Error>)
        requires
            self.wf(),
        ensures
            match r {
                Result::Ok(out) => {
                    &&& args@.len() == self.count()
                    &&& toks_deep(out@) == apply_parts(self.parts(), args_deep(args@))
                },
                Result::Err(e) => {
                    &&& args@.len() != self.count()
                    &&& e@ == err_at(arity_msg(self.count(), args@.len()), err_span as int)
                },
            },
        decreases self.size(),
    {
        proof {
            broadcast use {lemma_toks_deep, lemma_subtypes_deep};

        }
        if args.len() != self.arg_count {
            let mut msg: String = "Expected ".to_owned();
            msg.append(dec_string(self.arg_count).as_str());
            msg.append(" substitution arguments but got ");
            msg.append(dec_string(args.len()).as_str());
            proof {
                assert(msg@ =~= arity_msg(self.count(), args@.len()));
            }
            return Result::Err(Error::new_string(msg).span(err_span));
        }
        let ghost argsm = args_deep(args@);
        let mut out: Vec<Token> = Vec::new();
        let mut i: usize = 0;
        while i < self.sub.len()
            invariant
                self.wf(),
                args@.len() == self.count(),
                argsm == args_deep(args@),
                i <= self.sub@.len(),
                toks_deep(out@) == apply_parts(subtypes_deep(self.sub@.take(i as int)), argsm),
            decreases self.sub@.len() - i,
        {
            proof {
                broadcast use {lemma_toks_deep, lemma_subtypes_deep};

                lemma_subtypes_wf_index(self.sub@, self.count(), i as int);
                lemma_subtypes_deep_take_snoc(self.sub@, i as int);
                lemma_apply_parts_snoc(
                    subtypes_deep(self.sub@.take(i as int)),
                    subtype_deep(self.sub@[i as int]),
                    argsm,
                );
            }
            let ghost out_before = toks_deep(out@);
            match &self.sub[i] {
                SubType::Token(t) => {
                    out.push(t.clone());
                    proof {
                        broadcast use lemma_toks_deep;

                        assert(toks_deep(out@) =~= out_before + apply_part(
                            subtype_deep(self.sub@[i as int]),
                            argsm,
                        ));
                    }
                },
                SubType::Argument(idx) => {
                    let mut a = crate::tokens::clone_tokens(&args[*idx]);
                    let ghost am = toks_deep(a@);
                    out.append(&mut a);
                    proof {
                        broadcast use lemma_toks_deep;

                        crate::tokens::lemma_toks_deep_add(out@.subrange(0, out_before.len() as int), a@);
                        assert(argsm[*idx as int] == toks_deep(args@[*idx as int]@));
                        assert(toks_deep(out@) =~= out_before + am);
                    }
                },
                SubType::Group(d, inner) => {
                    proof {
                        lemma_subtypes_size_element(self.sub@, i as int);
                    }
                    match inner.apply(args, err_span) {
                        Result::Ok(inner_out) => {
                            let g = Token::Group(*d, inner_out, SYNTHETIC_SPAN);
                            out.push(g);
                            proof {
                                broadcast use lemma_toks_deep;

                                assert(toks_deep(out@) =~= out_before + apply_part(
                                    subtype_deep(self.sub@[i as int]),
                                    argsm,
                                ));
                            }
                        },
                        Result::Err(e) => {
                            proof {
                                assert(false);
                            }
                            return Result::Err(e);
                        },
                    }
                },
            }
            i = i + 1;
        }
        proof {
            assert(self.sub@.take(self.sub@.len() as int) =~= self.sub@);
        }
        Result::Ok(out)
    }
}

/// The model of one more part extends the model of the prefix.
pub proof fn lemma_subtypes_deep_take_snoc(s: Seq<SubType>, i: int)
    requires
        0 <= i < s.len(),
    ensures
        subtypes_deep(s.take(i + 1)) == subtypes_deep(s.take(i)).push(subtype_deep(s[i])),
{
    broadcast use lemma_subtypes_deep;

    assert(subtypes_deep(s.take(i + 1)) =~= subtypes_deep(s.take(i)).push(subtype_deep(s[i])));
}

// ---------------------------------------------------------------------------
// Substitution groups
// ---------------------------------------------------------------------------
/// No name appears twice in a group's model.
pub open spec fn distinct_names(g: GroupM) -> bool {
    forall|i: int, j: int| 0 <= i < j < g.len() ==> g[i].0 != g[j].0
}

/// One complete assignment of substitutions to identifier names, in
/// insertion order. Assigning a name twice is an error.
pub struct SubstitutionGroup {
    entries: Vec<(String, Substitution)>,
}

impl SubstitutionGroup {
    /// The model of this group: names and substitution models, in insertion
    /// order.
    pub closed spec fn model(&self) -> GroupM {
        Seq::new(
            self.entries@.len(),
            |i: int| (self.entries@[i].0@, self.entries@[i].1.model()),
        )
    }

    /// Every substitution held is well-formed.
    pub closed spec fn subs_wf(&self) -> bool {
        forall|i: int| 0 <= i < self.entries@.len() ==> (#[trigger] self.entries@[i].1).wf()
    }

    /// Names are distinct and every substitution is well-formed.
    pub open spec fn wf(&self) -> bool {
        &&& distinct_names(self.model())
        &&& self.subs_wf()
    }

    /// Creates an empty group.
    pub fn new() -> (r: Self)
        ensures
            r.wf(),
            r.model() == Seq::<(Seq<char>, SubM)>::empty(),
    {
        let r = SubstitutionGroup { entries: Vec::new() };
        proof {
            assert(r.model() =~= Seq::<(Seq<char>, SubM)>::empty());
        }
        r
    }

    /// Assigns a substitution to an identifier.
    ///
    /// Every identifier maps to exactly one substitution: assigning a name a
    /// second time is an error pointing at the identifier's position.
    pub fn add_substitution(&mut self, ident: String, ident_span: usize, sub: Substitution) -> (r:
        Result<(), Error>)
        requires
            old(self).wf(),
            sub.wf(),
        ensures
            final(self).wf(),
            match r {
                Result::Ok(()) => {
                    &&& lookup(old(self).model(), ident@) is None
                    &&& final(self).model() == old(self).model().push((ident@, sub.model()))
                },
                Result::Err(e) => {
                    &&& lookup(old(self).model(), ident@) is Some
                    &&& e@ == err_at(
                        "Substitution identifier assigned mutiple substitutions"@,
                        ident_span as int,
                    )
                    &&& final(self).model() == old(self).model()
                },
            },
    {
        if self.contains_name(&ident) {
            Result::Err(
                Error::new("Substitution identifier assigned mutiple substitutions").span(
                    ident_span,
                ),
            )
        } else {
            let ghost oldm = self.model();
            self.entries.push((ident, sub));
            proof {
                assert(self.model() =~= oldm.push((self.entries@.last().0@, sub.model())));
                assert forall|i: int, j: int|
                    0 <= i < j < self.model().len() implies self.model()[i].0
                    != self.model()[j].0 by {
                    if j < self.model().len() - 1 {
                        assert(oldm[i].0 != oldm[j].0);
                    } else {
                        lemma_lookup_absent(oldm, self.model()[j].0, i);
                    }
                }
            }
            Result::Ok(())
        }
    }

    /// Whether the group already assigns the given name, as the model lookup
    /// sees it.
    fn contains_name(&self, name: &String) -> (r: bool)
        ensures
            r == (lookup(self.model(), name@) is Some),
    {
        let ghost g = self.model();
        let mut i: usize = 0;
        while i < self.entries.len()
            invariant
                i <= self.entries@.len(),
                g == self.model(),
                g.len() == self.entries@.len(),
                forall|j: int| 0 <= j < i ==> g[j].0 != name@,
            decreases self.entries@.len() - i,
        {
            if self.entries[i].0 == *name {
                proof {
                    lemma_lookup_found(g, name@, i as int);
                }
                return true;
            }
            i = i + 1;
        }
        proof {
            lemma_lookup_not_found(g, name@);
        }
        false
    }

    /// Returns the substitution assigned to the given identifier, if any.
    pub fn substitution_of(&self, ident: &String) -> (r: Option<&Substitution>)
        requires
            self.wf(),
        ensures
            match r {
                Option::Some(s) => {
                    &&& lookup(self.model(), ident@) == Option::Some(s.model())
                    &&& s.wf()
                },
                Option::None => lookup(self.model(), ident@) is None,
            },
    {
        let ghost g = self.model();
        let mut i: usize = 0;
        while i < self.entries.len()
            invariant
                self.wf(),
                i <= self.entries@.len(),
                g == self.model(),
                g.len() == self.entries@.len(),
                forall|j: int| 0 <= j < i ==> g[j].0 != ident@,
            decreases self.entries@.len() - i,
        {
            if self.entries[i].0 == *ident {
                proof {
                    lemma_lookup_found(g, ident@, i as int);
                }
                return Option::Some(&self.entries[i].1);
            }
            i = i + 1;
        }
        proof {
            lemma_lookup_not_found(g, ident@);
        }
        Option::None
    }

    /// Returns the identifiers of this group in declaration order, each with
    /// the argument count of its substitution.
    pub fn identifiers_with_args(&self) -> (r: Vec<(String, usize)>)
        ensures
            r@.len() == self.model().len(),
            forall|i: int|
                0 <= i < r@.len() ==> #[trigger] r@[i].0@ == self.model()[i].0 && r@[i].1 as nat
                    == self.model()[i].1.count,
    {
        let mut out: Vec<(String, usize)> = Vec::new();
        let mut i: usize = 0;
        while i < self.entries.len()
            invariant
                i <= self.entries@.len(),
                out@.len() == i,
                self.model().len() == self.entries@.len(),
                forall|j: int|
                    0 <= j < i ==> #[trigger] out@[j].0@ == self.model()[j].0 && out@[j].1 as nat
                        == self.model()[j].1.count,
            decreases self.entries@.len() - i,
        {
            let name = self.entries[i].0.clone();
            let count = self.entries[i].1.argument_count();
            out.push((name, count));
            i = i + 1;
        }
        out
    }

    /// Whether the group assigns no identifier at all.
    pub fn is_empty(&self) -> (r: bool)
        ensures
            r == (self.model().len() == 0),
    {
        proof {
            assert(self.model().len() == self.entries@.len());
        }
        self.entries.len() == 0
    }

    /// Returns the identifiers of this group in declaration order.
    pub fn identifiers_ordered(&self) -> (r: Vec<String>)
        ensures
            r@.len() == self.model().len(),
            forall|i: int| 0 <= i < r@.len() ==> #[trigger] r@[i]@ == self.model()[i].0,
    {
        let mut out: Vec<String> = Vec::new();
        let mut i: usize = 0;
        while i < self.entries.len()
            invariant
                i <= self.entries@.len(),
                out@.len() == i,
                self.model().len() == self.entries@.len(),
                forall|j: int| 0 <= j < i ==> #[trigger] out@[j]@ == self.model()[j].0,
            decreases self.entries@.len() - i,
        {
            let name = self.entries[i].0.clone();
            out.push(name);
            i = i + 1;
        }
        out
    }
}

/// Pointwise well-formedness equivalence extends to part lists, for one
/// count.
proof fn lemma_subtypes_wf_ext_n(a: Seq<SubType>, b: Seq<SubType>, n: nat)
    requires
        a.len() == b.len(),
        forall|j: int, m: nat|
            0 <= j < a.len() ==> #[trigger] subtype_wf(a[j], m) == subtype_wf(b[j], m),
    ensures
        subtypes_wf(a, n) == subtypes_wf(b, n),
    decreases a,
{
    if a.len() > 0 {
        assert(subtype_wf(a[0], n) == subtype_wf(b[0], n));
        assert forall|j: int, m: nat|
            0 <= j < a.drop_first().len() implies #[trigger] subtype_wf(a.drop_first()[j], m)
            == subtype_wf(b.drop_first()[j], m) by {
            assert(a.drop_first()[j] == a[j + 1]);
            assert(b.drop_first()[j] == b[j + 1]);
        }
        lemma_subtypes_wf_ext_n(a.drop_first(), b.drop_first(), n);
    }
}

/// Clones a part list, keeping its model and its well-formedness.
fn clone_subtypes(v: &Vec<SubType>) -> (r: Vec<SubType>)
    ensures
        subtypes_deep(r@) == subtypes_deep(v@),
        forall|n: nat| #[trigger] subtypes_wf(r@, n) == subtypes_wf(v@, n),
    decreases subtypes_size(v@), 1int,
{
    let mut out: Vec<SubType> = Vec::new();
    let mut i: usize = 0;
    while i < v.len()
        invariant
            i <= v@.len(),
            out@.len() == i,
            forall|j: int| 0 <= j < i ==> subtype_deep(out@[j]) == subtype_deep(v@[j]),
            forall|j: int, m: nat|
                0 <= j < i ==> #[trigger] subtype_wf(out@[j], m) == subtype_wf(v@[j], m),
        decreases v@.len() - i,
    {
        proof {
            lemma_subtypes_size_element(v@, i as int);
        }
        out.push(v[i].clone());
        i = i + 1;
    }
    proof {
        broadcast use lemma_subtypes_deep;

        assert(subtypes_deep(out@) =~= subtypes_deep(v@));
        assert forall|n: nat| #[trigger] subtypes_wf(out@, n) == subtypes_wf(v@, n) by {
            lemma_subtypes_wf_ext_n(out@, v@, n);
        }
    }
    out
}

impl Clone for SubType {
    /// Cloning a part keeps its model and its well-formedness.
    fn clone(&self) -> (r: Self)
        ensures
            subtype_deep(r) == subtype_deep(*self),
            forall|n: nat| #[trigger] subtype_wf(r, n) == subtype_wf(*self, n),
        decreases subtype_size(*self), 0int,
    {
        match self {
            SubType::Token(t) => {
                let r = SubType::Token(t.clone());
                proof {
                    assert(*self == SubType::Token(*t));
                    assert forall|n: nat| #[trigger] subtype_wf(r, n) == subtype_wf(*self, n) by {
                        assert(subtype_wf(r, n));
                        assert(subtype_wf(*self, n));
                    }
                }
                r
            },
            SubType::Argument(i) => SubType::Argument(*i),
            SubType::Group(d, s) => {
                let inner = clone_subtypes(&s.sub);
                let r = SubType::Group(*d, Substitution { arg_count: s.arg_count, sub: inner });
                proof {
                    assert(*self == SubType::Group(*d, *s));
                    assert forall|n: nat| #[trigger] subtype_wf(r, n) == subtype_wf(*self, n) by {
                        assert(subtype_wf(r, n) == (s.arg_count as nat == n && subtypes_wf(
                            inner@,
                            n,
                        )));
                        assert(subtype_wf(*self, n) == (s.arg_count as nat == n && subtypes_wf(
                            s.sub@,
                            n,
                        )));
                    }
                }
                r
            },
        }
    }
}

impl Clone for Substitution {
    /// Cloning a substitution keeps its model and its well-formedness.
    fn clone(&self) -> (r: Self)
        ensures
            r.count() == self.count(),
            r.parts() == self.parts(),
            r.wf() == self.wf(),
    {
        Substitution { arg_count: self.arg_count, sub: clone_subtypes(&self.sub) }
    }
}

impl Clone for SubstitutionGroup {
    /// Cloning a group keeps its model and its well-formedness.
    fn clone(&self) -> (r: Self)
        ensures
            r.model() == self.model(),
            r.wf() == self.wf(),
    {
        let mut entries: Vec<(String, Substitution)> = Vec::new();
        let mut i: usize = 0;
        while i < self.entries.len()
            invariant
                i <= self.entries@.len(),
                entries@.len() == i,
                forall|j: int|
                    0 <= j < i ==> #[trigger] entries@[j].0@ == self.entries@[j].0@
                        && entries@[j].1.count() == self.entries@[j].1.count()
                        && entries@[j].1.parts() == self.entries@[j].1.parts()
                        && entries@[j].1.wf() == self.entries@[j].1.wf(),
            decreases self.entries@.len() - i,
        {
            let name = self.entries[i].0.clone();
            let sub = self.entries[i].1.clone();
            entries.push((name, sub));
            i = i + 1;
        }
        let r = SubstitutionGroup { entries };
        proof {
            assert(r.model() =~= self.model());
            assert forall|j: int| 0 <= j < r.entries@.len() implies (#[trigger] r.entries@[j].1).wf()
                == self.entries@[j].1.wf() by {
                assert(r.entries@[j].0@ == self.entries@[j].0@);
            }
            assert forall|j: int|
                0 <= j < self.entries@.len() implies (#[trigger] self.entries@[j].1).wf() == r.entries@[j].1.wf() by {
                assert(r.entries@[j].0@ == self.entries@[j].0@);
            }
        }
        r
    }
}

/// A name found first at one place is what the lookup returns.
pub proof fn lemma_lookup_found(g: GroupM, name: Seq<char>, i: int)
    requires
        0 <= i < g.len(),
        g[i].0 == name,
        forall|j: int| 0 <= j < i ==> g[j].0 != name,
    ensures
        lookup(g, name) == Option::Some(g[i].1),
    decreases g,
{
    if i > 0 {
        assert(g.drop_first()[i - 1] == g[i]);
        assert forall|j: int| 0 <= j < i - 1 implies g.drop_first()[j].0 != name by {
            assert(g.drop_first()[j] == g[j + 1]);
        }
        lemma_lookup_found(g.drop_first(), name, i - 1);
    }
}

/// A name no entry carries is not found.
pub proof fn lemma_lookup_not_found(g: GroupM, name: Seq<char>)
    requires
        forall|j: int| 0 <= j < g.len() ==> g[j].0 != name,
    ensures
        lookup(g, name) is None,
    decreases g,
{
    if g.len() > 0 {
        assert forall|j: int| 0 <= j < g.len() - 1 implies g.drop_first()[j].0 != name by {
            assert(g.drop_first()[j] == g[j + 1]);
        }
        lemma_lookup_not_found(g.drop_first(), name);
    }
}

/// A name the lookup does not find is carried by no entry.
pub proof fn lemma_lookup_absent(g: GroupM, name: Seq<char>, i: int)
    requires
        lookup(g, name) is None,
        0 <= i < g.len(),
    ensures
        g[i].0 != name,
    decreases g,
{
    if i > 0 {
        assert(g.drop_first()[i - 1] == g[i]);
        lemma_lookup_absent(g.drop_first(), name, i - 1);
    }
}

/// A found name is carried by some entry.
pub proof fn lemma_lookup_some_member(g: GroupM, name: Seq<char>)
    requires
        lookup(g, name) is Some,
    ensures
        exists|i: int|
            0 <= i < g.len() && g[i].0 == name && lookup(g, name) == Option::Some(g[i].1),
    decreases g,
{
    if g.len() > 0 && g[0].0 != name {
        lemma_lookup_some_member(g.drop_first(), name);
        let i = choose|i: int|
            0 <= i < g.drop_first().len() && g.drop_first()[i].0 == name && lookup(
                g.drop_first(),
                name,
            ) == Option::Some(g.drop_first()[i].1);
        assert(g[i + 1] == g.drop_first()[i]);
    }
}

/// Defines how duplication should happen: one global substitution group that
/// applies to every duplicate, and one group per duplicate.
pub struct DuplicationDefinition {
    /// Substitutions applied identically in every duplicate.
    pub global_substitutions: SubstitutionGroup,
    /// One substitution group per duplicate, in order.
    pub duplications: Vec<SubstitutionGroup>,
}

/// The models of a list of substitution groups, in order.
pub open spec fn groups_deep(s: Seq<SubstitutionGroup>) -> Seq<GroupM> {
    Seq::new(s.len(), |i: int| s[i].model())
}

/// Every group in a list is well-formed.
pub open spec fn groups_wf(s: Seq<SubstitutionGroup>) -> bool {
    forall|i: int| 0 <= i < s.len() ==> (#[trigger] s[i]).wf()
}


// ---------------------------------------------------------------------------
// The engine's model
// ---------------------------------------------------------------------------
/// The error reported when an identifier is assigned a substitution both
/// globally and in the current per-duplicate group.
pub open spec fn ambig_err(span: int) -> ErrM {
    err_at("Multiple substitutions for identifier"@, span)
}

/// The error reported when no substitution identifier qualifies for module
/// name disambiguation.
pub open spec fn disambig_err(span: int) -> ErrM {
    with_hint(
        err_at(crate::pretty_errors::module_disambiguation_msg(), span),
        crate::pretty_errors::module_disambiguation_hint(),
    )
}

/// Puts a produced prefix before the rest of a pass's outcome.
pub open spec fn prepend_res(prefix: Seq<TokTree>, r: Result<Seq<TokTree>, ErrM>) -> Result<
    Seq<TokTree>,
    ErrM,
> {
    match r {
        Result::Ok(rest) => Result::Ok(prefix + rest),
        Result::Err(e) => Result::Err(e),
    }
}

/// Puts one duplicated argument before the rest of an argument list outcome.
pub open spec fn prepend_arg(arg: Seq<TokTree>, r: Result<Seq<Seq<TokTree>>, ErrM>) -> Result<
    Seq<Seq<TokTree>>,
    ErrM,
> {
    match r {
        Result::Ok(rest) => Result::Ok(seq![arg] + rest),
        Result::Err(e) => Result::Err(e),
    }
}

/// The target fragment's outward shape when it is a module declaration: the
/// module's name and the name's position.
pub open spec fn mod_shape(item: Seq<TokTree>) -> Option<(Seq<char>, int)> {
    if item.len() >= 3 && spec_is_ident_named(item[0], "mod"@) && item[1] is Ident && (item[2]
        matches TokTree::Group { delim: Delim::Brace, .. }) {
        match item[1] {
            TokTree::Ident { name, span } => Option::Some((name, span)),
            _ => Option::None,
        }
    } else {
        Option::None
    }
}

/// Whether the named identifier resolves in the group to a substitution
/// producing exactly one bare identifier.
pub open spec fn group_simple(g: GroupM, name: Seq<char>) -> bool {
    lookup(g, name) matches Option::Some(s) && simple_value(s.parts) is Some
}

/// Whether the named identifier resolves, in every group, to a substitution
/// producing exactly one bare identifier.
pub open spec fn all_simple(groups: Seq<GroupM>, name: Seq<char>) -> bool {
    forall|k: int| 0 <= k < groups.len() ==> group_simple(#[trigger] groups[k], name)
}

/// The first identifier of the first group, in declaration order, that is
/// simple in every group, starting the search at the given place.
pub open spec fn find_simple_from(groups: Seq<GroupM>, k: int) -> Option<Seq<char>>
    recommends
        groups.len() > 0,
        0 <= k,
    decreases groups[0].len() - k when groups.len() > 0 && 0 <= k
{
    if k >= groups[0].len() {
        Option::None
    } else if all_simple(groups, groups[0][k].0) {
        Option::Some(groups[0][k].0)
    } else {
        find_simple_from(groups, k + 1)
    }
}

/// The substitution identifier chosen to disambiguate a module name, if one
/// qualifies.
pub open spec fn find_simple_spec(groups: Seq<GroupM>) -> Option<Seq<char>> {
    if groups.len() == 0 {
        Option::None
    } else {
        find_simple_from(groups, 0)
    }
}

/// A found identifier is simple in every group.
pub proof fn lemma_find_simple_all_simple(groups: Seq<GroupM>, k: int, name: Seq<char>)
    requires
        groups.len() > 0,
        0 <= k,
        find_simple_from(groups, k) == Option::Some(name),
    ensures
        all_simple(groups, name),
    decreases groups[0].len() - k,
{
    if k < groups[0].len() && !all_simple(groups, groups[0][k].0) {
        lemma_find_simple_all_simple(groups, k + 1, name);
    }
}

/// Whether the module disambiguator runs, and with what: the module's name,
/// the name's position, and the substitution identifier chosen to postfix
/// it; or the error when none qualifies.
pub open spec fn disambig_spec(item: Seq<TokTree>, groups: Seq<GroupM>) -> Result<
    Option<(Seq<char>, int, Seq<char>)>,
    ErrM,
> {
    match mod_shape(item) {
        Option::Some((mname, mspan)) => {
            if groups.len() > 0 && lookup(groups[0], mname) is None {
                match find_simple_spec(groups) {
                    Option::Some(id) => Result::Ok(Option::Some((mname, mspan, id))),
                    Option::None => Result::Err(disambig_err(mspan)),
                }
            } else {
                Result::Ok(Option::None)
            }
        },
        Option::None => Result::Ok(Option::None),
    }
}

/// The single bare identifier the named substitution of a group produces;
/// the empty name when it produces none.
pub open spec fn simple_of(g: GroupM, name: Seq<char>) -> Seq<char> {
    match lookup(g, name) {
        Option::Some(s) => match simple_value(s.parts) {
            Option::Some(v) => v,
            Option::None => Seq::empty(),
        },
        Option::None => Seq::empty(),
    }
}

/// One rewrite pass over a token sequence: identifiers assigned a
/// substitution in the per-duplicate group or the global group are replaced,
/// parameterized ones consume their parenthesized argument list, groups are
/// rewritten inside and re-wrapped, and everything else is copied verbatim.
pub open spec fn subst_pass(toks: Seq<TokTree>, globals: GroupM, locals: GroupM) -> Result<
    Seq<TokTree>,
    ErrM,
>
    decreases seq_size(toks), 0int, 0int via subst_pass_decreases
{
    if toks.len() == 0 {
        Result::Ok(Seq::empty())
    } else {
        match toks[0] {
            TokTree::Ident { name, span } => {
                let l = lookup(locals, name);
                let g = lookup(globals, name);
                if l is Some && g is Some {
                    Result::Err(ambig_err(span))
                } else if l is Some || g is Some {
                    let sub = if l is Some {
                        l.unwrap()
                    } else {
                        g.unwrap()
                    };
                    if sub.count == 0 {
                        prepend_res(
                            apply_parts(sub.parts, Seq::empty()),
                            subst_pass(toks.drop_first(), globals, locals),
                        )
                    } else {
                        if toks.len() < 2 {
                            Result::Err(err_at(left_delim_msg(Option::Some(Delim::Paren)), span))
                        } else {
                            match toks[1] {
                                TokTree::Group { delim: Delim::Paren, body: pbody, span: pspan } => {
                                    match process_args(pbody, globals, locals) {
                                        Result::Ok(args) => {
                                            if args.len() != sub.count {
                                                Result::Err(
                                                    err_at(arity_msg(sub.count, args.len()), pspan),
                                                )
                                            } else {
                                                prepend_res(
                                                    apply_parts(sub.parts, args),
                                                    subst_pass(toks.skip(2), globals, locals),
                                                )
                                            }
                                        },
                                        Result::Err(e) => Result::Err(e),
                                    }
                                },
                                _ => Result::Err(
                                    err_at(
                                        left_delim_msg(Option::Some(Delim::Paren)),
                                        span_of(toks[1]),
                                    ),
                                ),
                            }
                        }
                    }
                } else {
                    prepend_res(seq![toks[0]], subst_pass(toks.drop_first(), globals, locals))
                }
            },
            TokTree::Group { delim, body, span } => {
                match subst_pass(body, globals, locals) {
                    Result::Ok(nb) => prepend_res(
                        seq![TokTree::Group { delim, body: nb, span }],
                        subst_pass(toks.drop_first(), globals, locals),
                    ),
                    Result::Err(e) => Result::Err(e),
                }
            },
            _ => prepend_res(seq![toks[0]], subst_pass(toks.drop_first(), globals, locals)),
        }
    }
}

#[via_fn]
proof fn subst_pass_decreases(toks: Seq<TokTree>, globals: GroupM, locals: GroupM) {
    if toks.len() > 0 {
        lemma_seq_size_element(toks, 0);
        assert(seq_size(toks) == tok_size(toks[0]) + seq_size(toks.drop_first()));
        if toks.len() >= 2 {
            lemma_seq_size_element(toks.drop_first(), 0);
            assert(toks.drop_first()[0] == toks[1]);
            assert(toks.skip(2) =~= toks.drop_first().drop_first());
            assert(seq_size(toks.drop_first()) == tok_size(toks[1]) + seq_size(
                toks.drop_first().drop_first(),
            ));
        }
    }
}

/// The comma-separated, bracket-enclosed argument snippets of one
/// parameterized substitution call, each snippet re-duplicated with the
/// current per-duplicate group before the substitution is applied.
pub open spec fn process_args(body: Seq<TokTree>, globals: GroupM, locals: GroupM) -> Result<
    Seq<Seq<TokTree>>,
    ErrM,
>
    decreases seq_size(body), 1int, 0int via process_args_decreases
{
    if body.len() == 0 {
        Result::Ok(Seq::empty())
    } else {
        match body[0] {
            TokTree::Group { delim: Delim::Bracket, body: arg, .. } => {
                match dup_sub(arg, globals, seq![locals]) {
                    Result::Ok(duped) => {
                        if body.len() == 1 {
                            Result::Ok(seq![duped])
                        } else if spec_punct_is_char(body[1], ',') {
                            prepend_arg(duped, process_args(body.skip(2), globals, locals))
                        } else {
                            Result::Err(
                                crate::token_iter::simple_err(
                                    body.drop_first(),
                                    Option::Some(","@),
                                ),
                            )
                        }
                    },
                    Result::Err(e) => Result::Err(e),
                }
            },
            _ => Result::Err(
                with_hint(
                    crate::token_iter::group_err(body, 0, Option::Some(Delim::Bracket)),
                    crate::pretty_errors::bracket_sub_param(),
                ),
            ),
        }
    }
}

#[via_fn]
proof fn process_args_decreases(body: Seq<TokTree>, globals: GroupM, locals: GroupM) {
    if body.len() > 0 {
        lemma_seq_size_element(body, 0);
        assert(seq_size(body) == tok_size(body[0]) + seq_size(body.drop_first()));
        if body.len() >= 2 {
            lemma_seq_size_element(body.drop_first(), 0);
            assert(body.skip(2) =~= body.drop_first().drop_first());
            assert(seq_size(body.drop_first()) == tok_size(body[1]) + seq_size(
                body.drop_first().drop_first(),
            ));
        }
    }
}

/// The first two tokens of one duplicate of a disambiguated module: the
/// module keyword kept verbatim, then the module's name postfixed with an
/// underscore and the snake-cased value the chosen identifier takes in the
/// current group, at the original name's position.
pub open spec fn mod_rename_prefix(
    item: Seq<TokTree>,
    locals: GroupM,
    dis: (Seq<char>, int, Seq<char>),
) -> Seq<TokTree> {
    seq![
        item[0],
        TokTree::Ident {
            name: dis.0 + "_"@ + crate::module_disambiguation::snake_case_of(
                simple_of(locals, dis.2),
            ),
            span: span_of(item[1]),
        },
    ]
}

/// One duplicate's rewrite: when the module disambiguator runs, the module
/// keyword is kept, the module's name is replaced by the name postfixed with
/// the snake-cased simple value of the chosen identifier in this group, and
/// the rest of the fragment is rewritten; otherwise the whole fragment is
/// rewritten.
pub open spec fn one_pass(
    item: Seq<TokTree>,
    globals: GroupM,
    locals: GroupM,
    dis: Option<(Seq<char>, int, Seq<char>)>,
) -> Result<Seq<TokTree>, ErrM>
    decreases seq_size(item), 2int, 0int via one_pass_decreases
{
    match dis {
        Option::Some(d) => {
            if mod_shape(item) is Some {
                prepend_res(
                    mod_rename_prefix(item, locals, d),
                    subst_pass(item.skip(2), globals, locals),
                )
            } else {
                subst_pass(item, globals, locals)
            }
        },
        Option::None => subst_pass(item, globals, locals),
    }
}

#[via_fn]
proof fn one_pass_decreases(
    item: Seq<TokTree>,
    globals: GroupM,
    locals: GroupM,
    dis: Option<(Seq<char>, int, Seq<char>)>,
) {
    if mod_shape(item) is Some {
        lemma_seq_size_element(item, 0);
        assert(seq_size(item) == tok_size(item[0]) + seq_size(item.drop_first()));
        lemma_seq_size_element(item.drop_first(), 0);
        assert(item.skip(2) =~= item.drop_first().drop_first());
        assert(seq_size(item.drop_first()) == tok_size(item[1]) + seq_size(
            item.drop_first().drop_first(),
        ));
    }
}

/// The concatenation of the rewrites of all remaining per-duplicate groups,
/// in group order; the first failing pass aborts the whole operation.
pub open spec fn run_passes(
    item: Seq<TokTree>,
    globals: GroupM,
    groups: Seq<GroupM>,
    dis: Option<(Seq<char>, int, Seq<char>)>,
    k: int,
) -> Result<Seq<TokTree>, ErrM>
    recommends
        0 <= k,
    decreases seq_size(item), 3int, groups.len() - k when 0 <= k
{
    if k >= groups.len() {
        Result::Ok(Seq::empty())
    } else {
        match one_pass(item, globals, groups[k], dis) {
            Result::Ok(out) => match run_passes(item, globals, groups, dis, k + 1) {
                Result::Ok(rest) => Result::Ok(out + rest),
                Result::Err(e) => Result::Err(e),
            },
            Result::Err(e) => Result::Err(e),
        }
    }
}

/// The whole duplication: the module disambiguator decides first; then one
/// rewrite per per-duplicate group is produced and concatenated in order, or
/// exactly one rewrite with only the global group when no per-duplicate
/// group exists.
pub open spec fn dup_sub(item: Seq<TokTree>, globals: GroupM, groups: Seq<GroupM>) -> Result<
    Seq<TokTree>,
    ErrM,
>
    decreases seq_size(item), 4int, 0int,
{
    match disambig_spec(item, groups) {
        Result::Ok(dis) => {
            if groups.len() == 0 {
                one_pass(item, globals, Seq::empty(), dis)
            } else {
                run_passes(item, globals, groups, dis, 0)
            }
        },
        Result::Err(e) => Result::Err(e),
    }
}

// ---------------------------------------------------------------------------
// The engine
// ---------------------------------------------------------------------------
impl Substitution {
    /// Applies the substitution, assuming it takes no arguments.
    pub fn apply_simple(&self, err_span: usize) -> (r: Result<Vec<Token>, Error>)
        requires
            self.wf(),
        ensures
            match r {
                Result::Ok(out) => {
                    &&& self.count() == 0
                    &&& toks_deep(out@) == apply_parts(self.parts(), Seq::empty())
                },
                Result::Err(e) => {
                    &&& self.count() != 0
                    &&& e@ == err_at(arity_msg(self.count(), 0), err_span as int)
                },
            },
    {
        let args: Vec<Vec<Token>> = Vec::new();
        proof {
            assert(args_deep(args@) =~= Seq::<Seq<TokTree>>::empty());
        }
        self.apply(&args, err_span)
    }
}

/// What one engine step consumes and produces, by the kind of the leading
/// token: a verbatim token is handed back alone with exactly that token
/// consumed; an identifier assigned a zero-argument substitution is replaced
/// by the substitution applied to no arguments; a parameterized identifier
/// consumes exactly itself and its parenthesized argument list and is
/// replaced by the substitution applied to the re-duplicated arguments; a
/// group is handed back as a single group keeping its delimiter and its
/// position, wrapped around its rewritten body.
pub open spec fn pass_step(
    toks: Seq<TokTree>,
    globals: GroupM,
    locals: GroupM,
    out: Seq<TokTree>,
    rest: Seq<TokTree>,
) -> bool
    recommends
        toks.len() > 0,
{
    match toks[0] {
        TokTree::Ident { name, span } => {
            let l = lookup(locals, name);
            let g = lookup(globals, name);
            if l is Some && g is Some {
                false
            } else if l is Some || g is Some {
                let sub = if l is Some {
                    l.unwrap()
                } else {
                    g.unwrap()
                };
                if sub.count == 0 {
                    rest == toks.drop_first() && out == apply_parts(sub.parts, Seq::empty())
                } else {
                    &&& toks.len() >= 2
                    &&& toks[1] matches TokTree::Group { delim: Delim::Paren, body: pbody, .. }
                        && process_args(pbody, globals, locals) matches Result::Ok(args) && out
                        == apply_parts(sub.parts, args)
                    &&& rest == toks.skip(2)
                }
            } else {
                rest == toks.drop_first() && out == seq![toks[0]]
            }
        },
        TokTree::Group { delim, body, span } => {
            &&& subst_pass(body, globals, locals) matches Result::Ok(nb) && out == seq![
                TokTree::Group { delim, body: nb, span },
            ]
            &&& rest == toks.drop_first()
        },
        _ => rest == toks.drop_first() && out == seq![toks[0]],
    }
}

/// Recursively checks the next token for any use of the given substitution
/// identifiers and substitutes them, returning the produced tokens.
///
/// Produces nothing when no token is left. Otherwise the tokens produced
/// for the consumed token (and, for a parameterized identifier, its
/// argument list) continue the rewrite of what the cursor held.
pub fn substitute_next_token(
    tree: &mut TokenIter,
    global_subs: &SubstitutionGroup,
    substitutions: &SubstitutionGroup,
) -> (r: Result<Option<Vec<Token>>, Error>)
    requires
        old(tree).wf(),
        global_subs.wf(),
        substitutions.wf(),
    ensures
        final(tree).wf(),
        match r {
            Result::Ok(opt) => match opt {
                Option::Some(out) => {
                    &&& old(tree).rest().len() > 0
                    &&& seq_size(final(tree).rest()) < seq_size(old(tree).rest())
                    &&& pass_step(
                        old(tree).rest(),
                        global_subs.model(),
                        substitutions.model(),
                        toks_deep(out@),
                        final(tree).rest(),
                    )
                    &&& subst_pass(old(tree).rest(), global_subs.model(), substitutions.model())
                        == prepend_res(
                        toks_deep(out@),
                        subst_pass(final(tree).rest(), global_subs.model(), substitutions.model()),
                    )
                },
                Option::None => {
                    &&& old(tree).rest().len() == 0
                    &&& *final(tree) == *old(tree)
                },
            },
            Result::Err(e) => subst_pass(
                old(tree).rest(),
                global_subs.model(),
                substitutions.model(),
            ) == Result::<Seq<TokTree>, ErrM>::Err(e@),
        },
    decreases seq_size(old(tree).rest()), 1int,
{
    let ghost orig = old(tree).rest();
    let ghost gm = global_subs.model();
    let ghost lm = substitutions.model();
    proof {
        if orig.len() > 0 {
            lemma_seq_size_element(orig, 0);
            assert(seq_size(orig) == tok_size(orig[0]) + seq_size(orig.drop_first()));
        }
    }
    match tree.next() {
        Option::None => Result::Ok(Option::None),
        Option::Some(Token::Ident(name, sp)) => {
            let l = substitutions.substitution_of(&name);
            let g = global_subs.substitution_of(&name);
            proof {
                assert(orig[0] == (TokTree::Ident { name: name@, span: sp as int }));
            }
            match (l, g) {
                (Option::Some(_), Option::Some(_)) => Result::Err(
                    Error::new("Multiple substitutions for identifier").span(sp),
                ),
                (Option::None, Option::None) => {
                    let out = vec![Token::Ident(name, sp)];
                    proof {
                        assert(toks_deep(out@) =~= seq![orig[0]]);
                    }
                    Result::Ok(Option::Some(out))
                },
                _ => {
                    let subst: &Substitution = match (l, g) {
                        (Option::Some(s), _) => s,
                        (_, Option::Some(s)) => s,
                        _ => {
                            proof {
                                assert(false);
                            }
                            return Result::Err(Error::new(""));
                        },
                    };
                    let ghost subm = if lookup(lm, name@) is Some {
                        lookup(lm, name@).unwrap()
                    } else {
                        lookup(gm, name@).unwrap()
                    };
                    proof {
                        assert(subm == subst.model());
                    }
                    if subst.argument_count() > 0 {
                        let (arg_iter, pspan) = match tree.next_group(Option::Some(Delim::Paren)) {
                            Result::Ok(p) => p,
                            Result::Err(e) => {
                                proof {
                                    if orig.len() >= 2 {
                                        assert(orig.drop_first()[0] == orig[1]);
                                    }
                                }
                                return Result::Err(e);
                            },
                        };
                        proof {
                            assert(orig.drop_first()[0] == orig[1]);
                            assert(orig[1] matches TokTree::Group { delim: Delim::Paren, .. });
                            lemma_seq_size_element(orig.drop_first(), 0);
                            assert(seq_size(orig.drop_first()) == tok_size(orig[1]) + seq_size(
                                orig.drop_first().drop_first(),
                            ));
                            assert(orig.skip(2) =~= orig.drop_first().drop_first());
                        }
                        let args = match extract_call_args(arg_iter, global_subs, substitutions) {
                            Result::Ok(a) => a,
                            Result::Err(e) => {
                                return Result::Err(e);
                            },
                        };
                        match subst.apply(&args, pspan) {
                            Result::Ok(out) => {
                                proof {
                                    assert(seq_size(final(tree).rest()) < seq_size(orig));
                                }
                                Result::Ok(Option::Some(out))
                            },
                            Result::Err(e) => Result::Err(e),
                        }
                    } else {
                        match subst.apply_simple(sp) {
                            Result::Ok(out) => Result::Ok(Option::Some(out)),
                            Result::Err(e) => {
                                proof {
                                    assert(false);
                                }
                                Result::Err(e)
                            },
                        }
                    }
                },
            }
        },
        Option::Some(Token::Group(d, body, sp)) => {
            proof {
                assert(orig[0] == (TokTree::Group {
                    delim: d,
                    body: toks_deep(body@),
                    span: sp as int,
                }));
                assert(seq_size(toks_deep(body@)) < seq_size(orig));
            }
            let inner = TokenIter::new(body);
            match run_pass(inner, global_subs, substitutions) {
                Result::Ok(nb) => {
                    let g = Token::Group(d, nb, sp);
                    let out = vec![g];
                    proof {
                        assert(toks_deep(out@) =~= seq![tok_deep(out@[0])]);
                    }
                    Result::Ok(Option::Some(out))
                },
                Result::Err(e) => Result::Err(e),
            }
        },
        Option::Some(t) => {
            proof {
                assert(!(orig[0] is Ident) && !(orig[0] is Group));
            }
            let out = vec![t];
            proof {
                assert(toks_deep(out@) =~= seq![orig[0]]);
            }
            Result::Ok(Option::Some(out))
        },
    }
}

/// Rewrites everything the cursor holds, once, with the given groups.
#[verifier::loop_isolation(false)]
fn run_pass(
    iter: TokenIter,
    global_subs: &SubstitutionGroup,
    substitutions: &SubstitutionGroup,
) -> (r: Result<Vec<Token>, Error>)
    requires
        iter.wf(),
        global_subs.wf(),
        substitutions.wf(),
    ensures
        match r {
            Result::Ok(out) => subst_pass(iter.rest(), global_subs.model(), substitutions.model())
                == Result::<Seq<TokTree>, ErrM>::Ok(toks_deep(out@)),
            Result::Err(e) => subst_pass(iter.rest(), global_subs.model(), substitutions.model())
                == Result::<Seq<TokTree>, ErrM>::Err(e@),
        },
    decreases seq_size(iter.rest()), 2int,
{
    let ghost orig = iter.rest();
    let ghost gm = global_subs.model();
    let ghost lm = substitutions.model();
    let mut cur = iter;
    let mut result: Vec<Token> = Vec::new();
    loop
        invariant
            cur.wf(),
            global_subs.wf(),
            substitutions.wf(),
            gm == global_subs.model(),
            lm == substitutions.model(),
            seq_size(cur.rest()) <= seq_size(orig),
            subst_pass(orig, gm, lm) == prepend_res(toks_deep(result@), subst_pass(cur.rest(), gm, lm)),
        decreases seq_size(cur.rest()),
    {
        let ghost before = cur.rest();
        let ghost result_before = toks_deep(result@);
        match substitute_next_token(&mut cur, global_subs, substitutions) {
            Result::Ok(Option::Some(mut out)) => {
                let ghost outm = toks_deep(out@);
                let ghost outsnap = out@;
                let ghost resultsnap = result@;
                result.append(&mut out);
                proof {
                    assert(result@ == resultsnap + outsnap);
                    lemma_toks_deep_add(resultsnap, outsnap);
                    assert(toks_deep(result@) == result_before + outm);
                    lemma_prepend_res_assoc(result_before, outm, subst_pass(cur.rest(), gm, lm));
                }
            },
            Result::Ok(Option::None) => {
                proof {
                    assert(subst_pass(cur.rest(), gm, lm) == Result::<Seq<TokTree>, ErrM>::Ok(
                        Seq::empty(),
                    ));
                    assert(toks_deep(result@) + Seq::<TokTree>::empty() =~= toks_deep(result@));
                }
                return Result::Ok(result);
            },
            Result::Err(e) => {
                return Result::Err(e);
            },
        }
    }
}

/// Prefixing twice is prefixing with the concatenation.
proof fn lemma_prepend_res_assoc(a: Seq<TokTree>, b: Seq<TokTree>, r: Result<Seq<TokTree>, ErrM>)
    ensures
        prepend_res(a, prepend_res(b, r)) == prepend_res(a + b, r),
{
    match r {
        Result::Ok(rest) => {
            assert(a + (b + rest) =~= (a + b) + rest);
        },
        Result::Err(_) => {},
    }
}

/// Prefixing an argument list twice is prefixing with the concatenation.
proof fn lemma_prepend_arg_assoc(
    a: Seq<Seq<TokTree>>,
    b: Seq<TokTree>,
    r: Result<Seq<Seq<TokTree>>, ErrM>,
)
    ensures
        prepend_args(a, prepend_arg(b, r)) == prepend_args(a.push(b), r),
{
    match r {
        Result::Ok(rest) => {
            assert(a + (seq![b] + rest) =~= a.push(b) + rest);
        },
        Result::Err(_) => {},
    }
}

/// Puts already-duplicated arguments before the rest of an argument list
/// outcome.
pub open spec fn prepend_args(
    pre: Seq<Seq<TokTree>>,
    r: Result<Seq<Seq<TokTree>>, ErrM>,
) -> Result<Seq<Seq<TokTree>>, ErrM> {
    match r {
        Result::Ok(rest) => Result::Ok(pre + rest),
        Result::Err(e) => Result::Err(e),
    }
}

/// Extracts the argument list of one parameterized substitution call from
/// the body of its parenthesized group: bracket-enclosed snippets separated
/// by commas, each snippet re-duplicated with the current per-duplicate
/// group.
#[verifier::loop_isolation(false)]
fn extract_call_args(
    iter: TokenIter,
    global_subs: &SubstitutionGroup,
    substitutions: &SubstitutionGroup,
) -> (r: Result<Vec<Vec<Token>>, Error>)
    requires
        iter.wf(),
        global_subs.wf(),
        substitutions.wf(),
    ensures
        match r {
            Result::Ok(args) => process_args(
                iter.rest(),
                global_subs.model(),
                substitutions.model(),
            ) == Result::<Seq<Seq<TokTree>>, ErrM>::Ok(args_deep(args@)),
            Result::Err(e) => process_args(
                iter.rest(),
                global_subs.model(),
                substitutions.model(),
            ) == Result::<Seq<Seq<TokTree>>, ErrM>::Err(e@),
        },
    decreases seq_size(iter.rest()), 2int,
{
    let ghost orig = iter.rest();
    let ghost gm = global_subs.model();
    let ghost lm = substitutions.model();
    let mut cur = iter;
    let mut args: Vec<Vec<Token>> = Vec::new();
    loop
        invariant
            cur.wf(),
            global_subs.wf(),
            substitutions.wf(),
            gm == global_subs.model(),
            lm == substitutions.model(),
            seq_size(cur.rest()) <= seq_size(orig),
            process_args(orig, gm, lm) == prepend_args(
                args_deep(args@),
                process_args(cur.rest(), gm, lm),
            ),
        decreases seq_size(cur.rest()),
    {
        let ghost before = cur.rest();
        proof {
            if before.len() > 0 {
                lemma_seq_size_element(before, 0);
                assert(seq_size(before) == tok_size(before[0]) + seq_size(before.drop_first()));
            }
        }
        if !cur.has_next() {
            proof {
                assert(process_args(cur.rest(), gm, lm) == Result::<Seq<Seq<TokTree>>, ErrM>::Ok(
                    Seq::empty(),
                ));
                assert(args_deep(args@) + Seq::<Seq<TokTree>>::empty() =~= args_deep(args@));
            }
            return Result::Ok(args);
        }
        let (arg_iter, _arg_span) = match cur.next_group(Option::Some(Delim::Bracket)) {
            Result::Ok(p) => p,
            Result::Err(e) => {
                return Result::Err(e.hint(crate::pretty_errors::bracket_sub_param_text()));
            },
        };
        let arg_toks = arg_iter.to_token_stream();
        proof {
            assert(before[0] matches TokTree::Group { delim: Delim::Bracket, .. });
            assert(seq_size(toks_deep(arg_toks@)) < seq_size(before));
        }
        let one_group = vec![substitutions.clone()];
        proof {
            assert(groups_deep(one_group@) =~= seq![lm]);
            assert(groups_wf(one_group@));
        }
        let duped = match duplicate_and_substitute(&arg_toks, global_subs, &one_group) {
            Result::Ok(d) => d,
            Result::Err(e) => {
                return Result::Err(e);
            },
        };
        let ghost dupedm = toks_deep(duped@);
        let ghost args_before = args_deep(args@);
        if cur.has_next() {
            match cur.expect_comma() {
                Result::Ok(()) => {
                    proof {
                        assert(before.drop_first()[0] == before[1]);
                        assert(cur.rest() =~= before.skip(2));
                        lemma_seq_size_element(before.drop_first(), 0);
                        assert(seq_size(before.drop_first()) == tok_size(before[1]) + seq_size(
                            before.drop_first().drop_first(),
                        ));
                    }
                },
                Result::Err(e) => {
                    proof {
                        assert(before.drop_first()[0] == before[1]);
                    }
                    return Result::Err(e);
                },
            }
        } else {
            proof {
                assert(process_args(before, gm, lm) == Result::<Seq<Seq<TokTree>>, ErrM>::Ok(
                    seq![dupedm],
                ));
            }
        }
        args.push(duped);
        proof {
            assert(args_deep(args@) =~= args_before.push(dupedm));
            lemma_prepend_arg_assoc(args_before, dupedm, process_args(cur.rest(), gm, lm));
            if cur.rest().len() == 0 && before.len() == 1 {
                assert(prepend_arg(dupedm, process_args(cur.rest(), gm, lm)) == Result::<
                    Seq<Seq<TokTree>>,
                    ErrM,
                >::Ok(seq![dupedm]));
            }
        }
    }
}

/// One duplicate's rewrite of the whole fragment: the disambiguated module
/// prefix, when the disambiguator runs, followed by the rewrite of the rest.
fn one_pass_exec(
    item: &Vec<Token>,
    global_subs: &SubstitutionGroup,
    substitutions: &SubstitutionGroup,
    dis: &Option<crate::module_disambiguation::ModDis>,
) -> (r: Result<Vec<Token>, Error>)
    requires
        global_subs.wf(),
        substitutions.wf(),
        dis matches Option::Some(d) ==> {
            &&& mod_shape(toks_deep(item@)) is Some
            &&& lookup(substitutions.model(), d.sub_ident@) matches Option::Some(s)
                && simple_value(s.parts) is Some
        },
    ensures
        match r {
            Result::Ok(out) => one_pass(
                toks_deep(item@),
                global_subs.model(),
                substitutions.model(),
                crate::module_disambiguation::dis_model(*dis),
            ) == Result::<Seq<TokTree>, ErrM>::Ok(toks_deep(out@)),
            Result::Err(e) => one_pass(
                toks_deep(item@),
                global_subs.model(),
                substitutions.model(),
                crate::module_disambiguation::dis_model(*dis),
            ) == Result::<Seq<TokTree>, ErrM>::Err(e@),
        },
    decreases seq_size(toks_deep(item@)), 3int,
{
    let ghost itemm = toks_deep(item@);
    let ghost gm = global_subs.model();
    let ghost lm = substitutions.model();
    let mut iter = TokenIter::new(crate::tokens::clone_tokens(item));
    let mut prefix = crate::module_disambiguation::try_substitute_mod(dis, substitutions, &mut iter);
    proof {
        if dis is Some {
            lemma_seq_size_element(itemm, 0);
            assert(seq_size(itemm) == tok_size(itemm[0]) + seq_size(itemm.drop_first()));
            lemma_seq_size_element(itemm.drop_first(), 0);
            assert(itemm.skip(2) =~= itemm.drop_first().drop_first());
            assert(seq_size(itemm.drop_first()) == tok_size(itemm[1]) + seq_size(
                itemm.drop_first().drop_first(),
            ));
        }
    }
    match run_pass(iter, global_subs, substitutions) {
        Result::Ok(mut rest) => {
            let ghost prefixm = toks_deep(prefix@);
            let ghost restm = toks_deep(rest@);
            let ghost prefixsnap = prefix@;
            let ghost restsnap = rest@;
            prefix.append(&mut rest);
            proof {
                assert(prefix@ == prefixsnap + restsnap);
                lemma_toks_deep_add(prefixsnap, restsnap);
                assert(toks_deep(prefix@) == prefixm + restm);
            }
            Result::Ok(prefix)
        },
        Result::Err(e) => Result::Err(e),
    }
}

/// Duplicates the given fragment: one rewrite per per-duplicate group, in
/// group order, or exactly one rewrite with only the global group when no
/// per-duplicate group exists, all concatenated. The module disambiguator
/// decides first whether the fragment is a module whose name must be made
/// unique per duplicate.
#[verifier::loop_isolation(false)]
pub fn duplicate_and_substitute(
    item: &Vec<Token>,
    global_subs: &SubstitutionGroup,
    sub_groups: &Vec<SubstitutionGroup>,
) -> (r: Result<Vec<Token>, Error>)
    requires
        global_subs.wf(),
        groups_wf(sub_groups@),
    ensures
        match r {
            Result::Ok(out) => dup_sub(
                toks_deep(item@),
                global_subs.model(),
                groups_deep(sub_groups@),
            ) == Result::<Seq<TokTree>, ErrM>::Ok(toks_deep(out@)),
            Result::Err(e) => dup_sub(
                toks_deep(item@),
                global_subs.model(),
                groups_deep(sub_groups@),
            ) == Result::<Seq<TokTree>, ErrM>::Err(e@),
        },
    decreases seq_size(toks_deep(item@)), 4int,
{
    let ghost itemm = toks_deep(item@);
    let ghost gm = global_subs.model();
    let ghost groupsm = groups_deep(sub_groups@);
    let dis = match crate::disambiguate_module(item, sub_groups) {
        Result::Ok(d) => d,
        Result::Err(e) => {
            return Result::Err(e);
        },
    };
    if sub_groups.len() == 0 {
        let empty_group = SubstitutionGroup::new();
        proof {
            assert(dis is None);
        }
        match one_pass_exec(item, global_subs, &empty_group, &dis) {
            Result::Ok(out) => Result::Ok(out),
            Result::Err(e) => Result::Err(e),
        }
    } else {
        let mut result: Vec<Token> = Vec::new();
        let mut k: usize = 0;
        let ghost dism = crate::module_disambiguation::dis_model(dis);
        while k < sub_groups.len()
            invariant
                global_subs.wf(),
                groups_wf(sub_groups@),
                gm == global_subs.model(),
                groupsm == groups_deep(sub_groups@),
                groupsm.len() == sub_groups@.len(),
                itemm == toks_deep(item@),
                dism == crate::module_disambiguation::dis_model(dis),
                k <= sub_groups@.len(),
                sub_groups@.len() > 0,
                dis matches Option::Some(d) ==> mod_shape(itemm) is Some && all_simple(
                    groupsm,
                    d.sub_ident@,
                ),
                run_passes(itemm, gm, groupsm, dism, 0) == (match run_passes(
                    itemm,
                    gm,
                    groupsm,
                    dism,
                    k as int,
                ) {
                    Result::Ok(rest) => Result::<Seq<TokTree>, ErrM>::Ok(toks_deep(result@) + rest),
                    Result::Err(e) => Result::<Seq<TokTree>, ErrM>::Err(e),
                }),
            decreases sub_groups@.len() - k,
        {
            proof {
                assert(groupsm[k as int] == sub_groups@[k as int].model());
            }
            let out = match one_pass_exec(item, global_subs, &sub_groups[k], &dis) {
                Result::Ok(o) => o,
                Result::Err(e) => {
                    return Result::Err(e);
                },
            };
            let ghost outm = toks_deep(out@);
            let ghost result_before = toks_deep(result@);
            let ghost resultsnap = result@;
            let ghost outsnap = out@;
            let mut out_mut = out;
            result.append(&mut out_mut);
            proof {
                assert(result@ == resultsnap + outsnap);
                lemma_toks_deep_add(resultsnap, outsnap);
                assert(toks_deep(result@) == result_before + outm);
                assert forall|rest: Seq<TokTree>| #[trigger] (outm + rest).len() >= 0 implies (
                result_before + outm) + rest =~= result_before + (outm + rest) by {}
            }
            k = k + 1;
        }
        proof {
            assert(run_passes(itemm, gm, groupsm, dism, k as int) == Result::<
                Seq<TokTree>,
                ErrM,
            >::Ok(Seq::empty()));
            assert(toks_deep(result@) + Seq::<TokTree>::empty() =~= toks_deep(result@));
        }
        Result::Ok(result)
    }
}

// ---------------------------------------------------------------------------
// Laws
// ---------------------------------------------------------------------------
/// The outputs of the remaining duplicates, each rewritten independently,
/// concatenated in group order.
pub open spec fn concat_passes(
    item: Seq<TokTree>,
    globals: GroupM,
    groups: Seq<GroupM>,
    dis: Option<(Seq<char>, int, Seq<char>)>,
    k: int,
) -> Seq<TokTree>
    recommends
        0 <= k,
    decreases groups.len() - k when 0 <= k
{
    if k >= groups.len() {
        Seq::empty()
    } else {
        (match one_pass(item, globals, groups[k], dis) {
            Result::Ok(o) => o,
            Result::Err(_) => Seq::empty(),
        }) + concat_passes(item, globals, groups, dis, k + 1)
    }
}

/// A successful sequence of passes is the concatenation of one successful
/// independent pass per group.
pub proof fn lemma_run_passes_concat(
    item: Seq<TokTree>,
    globals: GroupM,
    groups: Seq<GroupM>,
    dis: Option<(Seq<char>, int, Seq<char>)>,
    k: int,
    out: Seq<TokTree>,
)
    requires
        0 <= k,
        run_passes(item, globals, groups, dis, k) == Result::<Seq<TokTree>, ErrM>::Ok(out),
    ensures
        forall|j: int|
            k <= j < groups.len() ==> one_pass(item, globals, #[trigger] groups[j], dis) is Ok,
        out == concat_passes(item, globals, groups, dis, k),
    decreases groups.len() - k,
{
    if k < groups.len() {
        match one_pass(item, globals, groups[k], dis) {
            Result::Ok(o) => {
                match run_passes(item, globals, groups, dis, k + 1) {
                    Result::Ok(rest) => {
                        lemma_run_passes_concat(item, globals, groups, dis, k + 1, rest);
                    },
                    Result::Err(_) => {},
                }
            },
            Result::Err(_) => {},
        }
    }
}

/// LAW: for every well-formed duplication with at least one per-duplicate
/// group, the output is the literal concatenation of one independently
/// substituted copy of the fragment per group, in group order.
pub proof fn lemma_duplication_is_concatenation(
    item: Seq<TokTree>,
    globals: GroupM,
    groups: Seq<GroupM>,
    out: Seq<TokTree>,
)
    requires
        groups.len() >= 1,
        dup_sub(item, globals, groups) == Result::<Seq<TokTree>, ErrM>::Ok(out),
    ensures
        disambig_spec(item, groups) matches Result::Ok(dis) && {
            &&& forall|j: int|
                0 <= j < groups.len() ==> one_pass(item, globals, #[trigger] groups[j], dis) is Ok
            &&& out == concat_passes(item, globals, groups, dis, 0)
        },
{
    match disambig_spec(item, groups) {
        Result::Ok(dis) => {
            lemma_run_passes_concat(item, globals, groups, dis, 0, out);
        },
        Result::Err(_) => {},
    }
}

/// LAW: with an empty per-duplicate list, exactly one substituted copy of
/// the fragment is produced, rewritten with the global group alone.
pub proof fn lemma_global_only_single_copy(item: Seq<TokTree>, globals: GroupM)
    ensures
        dup_sub(item, globals, Seq::empty()) == subst_pass(item, globals, Seq::empty()),
{
}

/// Whether no identifier anywhere in the tokens is assigned a substitution
/// in either group.
pub open spec fn no_key_idents(toks: Seq<TokTree>, globals: GroupM, locals: GroupM) -> bool
    decreases toks via no_key_idents_decreases
{
    if toks.len() == 0 {
        true
    } else {
        (match toks[0] {
            TokTree::Ident { name, .. } => lookup(globals, name) is None && lookup(locals, name)
                is None,
            TokTree::Group { body, .. } => no_key_idents(body, globals, locals),
            _ => true,
        }) && no_key_idents(toks.drop_first(), globals, locals)
    }
}

#[via_fn]
proof fn no_key_idents_decreases(toks: Seq<TokTree>, globals: GroupM, locals: GroupM) {
    broadcast use {vstd::seq::axiom_seq_index_decreases, vstd::seq::axiom_seq_subrange_decreases};

    if toks.len() > 0 {
        assert(toks.drop_first() =~= toks.subrange(1, toks.len() as int));
    }
}

/// LAW: when no identifier in the fragment matches any substitution key,
/// one rewrite pass hands the fragment back unchanged, token for token.
pub proof fn lemma_identity_pass(toks: Seq<TokTree>, globals: GroupM, locals: GroupM)
    requires
        no_key_idents(toks, globals, locals),
    ensures
        subst_pass(toks, globals, locals) == Result::<Seq<TokTree>, ErrM>::Ok(toks),
    decreases seq_size(toks),
{
    if toks.len() > 0 {
        lemma_seq_size_element(toks, 0);
        assert(seq_size(toks) == tok_size(toks[0]) + seq_size(toks.drop_first()));
        lemma_identity_pass(toks.drop_first(), globals, locals);
        match toks[0] {
            TokTree::Group { delim, body, span } => {
                lemma_identity_pass(body, globals, locals);
                assert(seq![toks[0]] + toks.drop_first() =~= toks);
            },
            _ => {
                assert(seq![toks[0]] + toks.drop_first() =~= toks);
            },
        }
    } else {
        assert(subst_pass(toks, globals, locals) == Result::<Seq<TokTree>, ErrM>::Ok(
            Seq::<TokTree>::empty(),
        ));
        assert(toks =~= Seq::<TokTree>::empty());
    }
}

/// LAW: substitution is not idempotent in general, but a pass's own output
/// is a fixed point of a second identical pass as long as no substitution
/// identifier remains free in it: unless a substitution re-introduced one of
/// the keys, rewriting the output again changes nothing.
pub proof fn lemma_output_is_fixed_point(
    toks: Seq<TokTree>,
    out: Seq<TokTree>,
    globals: GroupM,
    locals: GroupM,
)
    requires
        subst_pass(toks, globals, locals) == Result::<Seq<TokTree>, ErrM>::Ok(out),
        no_key_idents(out, globals, locals),
    ensures
        subst_pass(out, globals, locals) == Result::<Seq<TokTree>, ErrM>::Ok(out),
{
    lemma_identity_pass(out, globals, locals);
}

} // verus!


