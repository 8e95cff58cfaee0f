//! A compile-time source duplication and substitution engine.
//!
//! Given a small invocation (in a short, row-oriented syntax or a verbose,
//! group-oriented one) and a target fragment of source code, the engine
//! produces one copy of the fragment per substitution group, each with the
//! substitution identifiers replaced by that group's code snippets. The
//! engine works on token trees: it understands delimiters and identifiers
//! and nothing more of the language it duplicates code for.

use vstd::prelude::*;

mod error;
mod module_disambiguation;
mod parse;
mod pretty_errors;
mod substitute;
mod token_iter;
mod tokens;

pub use error::{ErrM, Error};
pub use module_disambiguation::{find_simple, try_substitute_mod, ModDis};
pub use parse::{
    extract_argument_list, parse_global_substitutions_only, parse_invocation,
    validate_global_substitutions, validate_short_attr, validate_short_get_all_substitution_goups,
    validate_short_get_identifiers, validate_verbose_invocation, extract_verbose_substitutions,
};
pub use substitute::{
    duplicate_and_substitute, substitute_next_token, DuplicationDefinition, SubM, SubType,
    Substitution, SubstitutionGroup,
};
pub use token_iter::TokenIter;
pub use tokens::{get_ident, is_ident, is_punct, is_semicolon, Delim, TokTree, Token};

use crate::module_disambiguation::dis_model;
use crate::substitute::{all_simple, disambig_spec, groups_deep, groups_wf, mod_shape};
use crate::tokens::{tok_deep, toks_deep};

verus! {

broadcast use {vstd::std_specs::vec::group_vec_axioms, vstd::seq::group_seq_axioms,
    crate::tokens::lemma_toks_deep};

/// Extracts the name of the module, assuming the given fragment is a module
/// declaration: the module keyword, a name, and a braced body.
///
/// If it is not, returns nothing.
pub fn get_module_name(item: &Vec<Token>) -> (r: Option<(String, usize)>)
    ensures
        match r {
            Option::Some(p) => mod_shape(toks_deep(item@)) == Option::Some((p.0@, p.1 as int)),
            Option::None => mod_shape(toks_deep(item@)) is None,
        },
{
    if item.len() < 3 {
        return Option::None;
    }
    if !crate::tokens::is_ident(&item[0], Option::Some("mod")) {
        return Option::None;
    }
    let name = match crate::tokens::get_ident(&item[1]) {
        Option::Some(p) => p,
        Option::None => {
            return Option::None;
        },
    };
    match &item[2] {
        Token::Group(d, _, _) => {
            if matches!(d, Delim::Brace) {
                Option::Some(name)
            } else {
                Option::None
            }
        },
        _ => Option::None,
    }
}

/// Checks whether the fragment is a module declaration that needs
/// disambiguation: one whose name the first per-duplicate group does not
/// already substitute.
///
/// When it does, returns the module's name and the substitution identifier
/// that will disambiguate it in each duplicate; when no identifier
/// qualifies, reports an error at the module's name.
pub fn disambiguate_module(item: &Vec<Token>, sub_groups: &Vec<SubstitutionGroup>) -> (r: Result<
    Option<ModDis>,
    Error,
>)
    requires
        groups_wf(sub_groups@),
    ensures
        match r {
            Result::Ok(dis) => {
                &&& disambig_spec(toks_deep(item@), groups_deep(sub_groups@)) == Result::<
                    Option<(Seq<char>, int, Seq<char>)>,
                    ErrM,
                >::Ok(dis_model(dis))
                &&& dis matches Option::Some(d) ==> {
                    &&& mod_shape(toks_deep(item@)) is Some
                    &&& all_simple(groups_deep(sub_groups@), d.sub_ident@)
                }
            },
            Result::Err(e) => disambig_spec(toks_deep(item@), groups_deep(sub_groups@))
                == Result::<Option<(Seq<char>, int, Seq<char>)>, ErrM>::Err(e@),
        },
{
    let (mod_name, mod_span) = match get_module_name(item) {
        Option::Some(p) => p,
        Option::None => {
            return Result::Ok(Option::None);
        },
    };
    if sub_groups.len() == 0 {
        return Result::Ok(Option::None);
    }
    proof {
        assert(groups_deep(sub_groups@)[0] == sub_groups@[0].model());
    }
    match sub_groups[0].substitution_of(&mod_name) {
        Option::Some(_) => Result::Ok(Option::None),
        Option::None => {
            match find_simple(sub_groups, mod_span) {
                Result::Ok(id) => Result::Ok(
                    Option::Some(ModDis { name: mod_name, span: mod_span, sub_ident: id }),
                ),
                Result::Err(e) => Result::Err(e),
            }
        },
    }
}

/// Whether the identifier starts a nested invocation of this engine.
pub open spec fn is_invocation_keyword(name: Seq<char>) -> bool {
    name == "duplicate"@ || name == "substitute"@
}

/// The error reported for a malformed transparent group: one with more than
/// one token that does not end in a lone semicolon.
pub open spec fn transparent_err(span: int) -> ErrM {
    crate::error::err_at(
        "Encountered none-delimited group with multiple tokens. This is an internal error. Please file a bug report."@,
        span,
    )
}

/// The error reported when nested invocations are nested too deeply for the
/// engine's recursion budget.
pub open spec fn depth_err(span: int) -> ErrM {
    crate::error::err_at("Nested invocations are nested too deeply."@, span)
}

/// Whether a transparent group may be spliced inline: at most one token, or
/// ending in a lone semicolon.
pub open spec fn transparent_ok(body: Seq<TokTree>) -> bool {
    body.len() <= 1 || crate::tokens::spec_punct_is_char(body.last(), ';')
}

/// Normalizes a token sequence: transparent groups are spliced inline (or
/// rejected when malformed), nested invocations of the engine are evaluated
/// and their expansions spliced in and re-scanned, and other groups are
/// normalized inside. The budget bounds how many nested invocations may be
/// expanded.
pub open spec fn expand_model(toks: Seq<TokTree>, fuel: nat) -> Result<Seq<TokTree>, ErrM>
    decreases fuel, 1int, crate::tokens::seq_size(toks) via expand_model_decreases
{
    if toks.len() == 0 {
        Result::Ok(Seq::empty())
    } else {
        match toks[0] {
            TokTree::Group { delim, body, span } => {
                if delim == Delim::Transparent {
                    if !transparent_ok(body) {
                        Result::Err(transparent_err(span))
                    } else {
                        expand_model(body + toks.drop_first(), fuel)
                    }
                } else {
                    match expand_model(body, fuel) {
                        Result::Ok(nb) => crate::substitute::prepend_res(
                            seq![TokTree::Group { delim, body: nb, span }],
                            expand_model(toks.drop_first(), fuel),
                        ),
                        Result::Err(e) => Result::Err(e),
                    }
                }
            },
            TokTree::Ident { name, span } => {
                if is_invocation_keyword(name) && toks.len() >= 2
                    && crate::tokens::spec_punct_is_char(toks[1], '!') {
                    if toks.len() >= 3 && crate::token_iter::group_matches(
                        toks[2],
                        Option::None,
                    ) {
                        if fuel == 0 {
                            Result::Err(depth_err(span))
                        } else {
                            match toks[2] {
                                TokTree::Group { body: b, .. } => {
                                    match eval_nested_model(
                                        name == "duplicate"@,
                                        b,
                                        (fuel - 1) as nat,
                                    ) {
                                        Result::Ok(out) => expand_model(
                                            out + toks.skip(3),
                                            (fuel - 1) as nat,
                                        ),
                                        Result::Err(e) => Result::Err(e),
                                    }
                                },
                                _ => Result::Err(transparent_err(span)),
                            }
                        }
                    } else {
                        Result::Err(
                            crate::token_iter::group_err(
                                toks.skip(2),
                                crate::tokens::span_of(toks[1]),
                                Option::None,
                            ),
                        )
                    }
                } else {
                    crate::substitute::prepend_res(
                        seq![toks[0]],
                        expand_model(toks.drop_first(), fuel),
                    )
                }
            },
            _ => crate::substitute::prepend_res(
                seq![toks[0]],
                expand_model(toks.drop_first(), fuel),
            ),
        }
    }
}

#[via_fn]
proof fn expand_model_decreases(toks: Seq<TokTree>, fuel: nat) {
    if toks.len() > 0 {
        crate::tokens::lemma_seq_size_element(toks, 0);
        assert(crate::tokens::seq_size(toks) == crate::tokens::tok_size(toks[0])
            + crate::tokens::seq_size(toks.drop_first()));
        match toks[0] {
            TokTree::Group { delim, body, span } => {
                crate::tokens::lemma_seq_size_add(body, toks.drop_first());
            },
            _ => {},
        }
    }
}

/// Evaluates the body of a nested invocation: its first bracketed group is
/// the nested invocation's own payload, everything after it the nested
/// target fragment; the full pipeline runs on them and its result is
/// spliced in place of the whole nested invocation.
pub open spec fn eval_nested_model(is_dup: bool, b: Seq<TokTree>, fuel: nat) -> Result<
    Seq<TokTree>,
    ErrM,
>
    decreases fuel, 3int, 0int,
{
    if b.len() > 0 && (b[0] matches TokTree::Group { delim: Delim::Bracket, .. }) {
        match b[0] {
            TokTree::Group { body: payload, .. } => eval_model(
                is_dup,
                payload,
                b.drop_first(),
                fuel,
            ),
            _ => Result::Err(transparent_err(0)),
        }
    } else {
        Result::Err(
            crate::token_iter::group_err(
                b,
                crate::tokens::SYNTHETIC_SPAN as int,
                Option::Some(Delim::Bracket),
            ),
        )
    }
}

/// The whole pipeline on a payload and a target fragment: the payload is
/// normalized and parsed into a duplication definition (for the
/// substitute-only form, into global substitutions alone), the fragment is
/// normalized, and the engine produces the duplicates.
pub open spec fn eval_model(
    is_dup: bool,
    payload: Seq<TokTree>,
    frag: Seq<TokTree>,
    fuel: nat,
) -> Result<Seq<TokTree>, ErrM>
    decreases fuel, 2int, 0int,
{
    match expand_model(payload, fuel) {
        Result::Err(e) => Result::Err(e),
        Result::Ok(p) => {
            let defres: Result<crate::parse::DefM, ErrM> = if is_dup {
                crate::parse::parse_invocation_model(p)
            } else {
                match crate::parse::parse_globals_only(p) {
                    Result::Ok(g) => Result::Ok((g, Seq::empty())),
                    Result::Err(e) => Result::Err(e),
                }
            };
            match defres {
                Result::Err(e) => Result::Err(e),
                Result::Ok(def) => {
                    match expand_model(frag, fuel) {
                        Result::Err(e) => Result::Err(e),
                        Result::Ok(f) => crate::substitute::dup_sub(f, def.0, def.1),
                    }
                },
            }
        },
    }
}

/// The nested-invocation budget for one engine run: the total node count of
/// the payload and the fragment, within the machine limit.
pub open spec fn top_fuel(payload: Seq<TokTree>, frag: Seq<TokTree>) -> nat {
    vstd::math::min(
        crate::tokens::seq_size(payload) + crate::tokens::seq_size(frag) as int,
        u64::MAX as int,
    ) as nat
}

/// Normalizes a token sequence, splicing transparent groups inline and
/// expanding nested invocations of the engine in place.
#[verifier::loop_isolation(false)]
pub fn expand_tokens(toks: &Vec<Token>, fuel: u64) -> (r: Result<Vec<Token>, Error>)
    ensures
        match r {
            Result::Ok(out) => expand_model(toks_deep(toks@), fuel as nat) == Result::<
                Seq<TokTree>,
                ErrM,
            >::Ok(toks_deep(out@)),
            Result::Err(e) => expand_model(toks_deep(toks@), fuel as nat) == Result::<
                Seq<TokTree>,
                ErrM,
            >::Err(e@),
        },
    decreases fuel, 1int, crate::tokens::seq_size(toks_deep(toks@)),
{
    let ghost orig = toks_deep(toks@);
    let mut acc: Vec<Token> = Vec::new();
    proof {
        assert(orig.skip(0) =~= orig);
        assert(toks_deep(acc@) =~= Seq::<TokTree>::empty());
        assert(expand_model(orig, fuel as nat) == crate::substitute::prepend_res(
            Seq::<TokTree>::empty(),
            expand_model(orig, fuel as nat),
        )) by {
            match expand_model(orig, fuel as nat) {
                Result::Ok(o) => {
                    assert(Seq::<TokTree>::empty() + o =~= o);
                },
                Result::Err(_) => {},
            }
        }
    }
    let mut i: usize = 0;
    while i < toks.len()
        invariant
            i <= toks@.len(),
            orig.len() == toks@.len(),
            expand_model(orig, fuel as nat) == crate::substitute::prepend_res(
                toks_deep(acc@),
                expand_model(orig.skip(i as int), fuel as nat),
            ),
        decreases toks@.len() - i,
    {
        let ghost before = orig.skip(i as int);
        proof {
            assert(before[0] == orig[i as int]);
            assert(before.drop_first() =~= orig.skip(i + 1 as int));
            crate::tokens::lemma_seq_size_element(orig, i as int);
            vstd::seq_lib::lemma_seq_skip_of_skip(orig, 1, i as int);
            assert(crate::tokens::seq_size(before) == crate::tokens::tok_size(before[0])
                + crate::tokens::seq_size(before.drop_first()));
            lemma_seq_size_skip(orig, i as int);
        }
        let ghost acc_before = toks_deep(acc@);
        match &toks[i] {
            Token::Group(Delim::Transparent, body, span) => {
                let ok = if body.len() <= 1 {
                    true
                } else {
                    crate::tokens::is_semicolon(&body[body.len() - 1])
                };
                proof {
                    assert(toks_deep(body@).len() == body@.len());
                    if body@.len() > 1 {
                        assert(toks_deep(body@).last() == tok_deep(body@[body@.len() - 1]));
                    }
                }
                if !ok {
                    return Result::Err(
                        Error::new(
                            "Encountered none-delimited group with multiple tokens. This is an internal error. Please file a bug report.",
                        ).span(*span),
                    );
                }
                let mut spliced = crate::tokens::clone_tokens(body);
                let mut rest = suffix_tokens(toks, i + 1);
                let ghost splicedm = toks_deep(spliced@);
                let ghost restm = toks_deep(rest@);
                proof {
                    assert(restm =~= orig.skip(i + 1 as int));
                }
                let ghost ssnap = spliced@;
                let ghost rsnap2 = rest@;
                spliced.append(&mut rest);
                proof {
                    assert(spliced@ == ssnap + rsnap2);
                    crate::tokens::lemma_toks_deep_add(ssnap, rsnap2);
                    assert(toks_deep(spliced@) == splicedm + restm);
                    crate::tokens::lemma_seq_size_add(splicedm, restm);
                }
                match expand_tokens(&spliced, fuel) {
                    Result::Ok(out) => {
                        let ghost outm = toks_deep(out@);
                        let mut result = acc;
                        let mut out_mut = out;
                        let ghost rsnap = result@;
                        let ghost osnap = out_mut@;
                        result.append(&mut out_mut);
                        proof {
                            assert(result@ == rsnap + osnap);
                            crate::tokens::lemma_toks_deep_add(rsnap, osnap);
                            lemma_prepend_res_flatten(acc_before, outm);
                        }
                        return Result::Ok(result);
                    },
                    Result::Err(e) => {
                        return Result::Err(e);
                    },
                }
            },
            Token::Group(d, body, span) => {
                let bodyc = crate::tokens::clone_tokens(body);
                proof {
                    assert(crate::tokens::seq_size(toks_deep(bodyc@)) < crate::tokens::seq_size(
                        before,
                    ));
                }
                match expand_tokens(&bodyc, fuel) {
                    Result::Ok(nb) => {
                        let g = Token::Group(*d, nb, *span);
                        acc.push(g);
                        proof {
                            assert(toks_deep(acc@) =~= acc_before.push(tok_deep(acc@.last())));
                            lemma_prepend_snoc(
                                acc_before,
                                tok_deep(acc@.last()),
                                expand_model(orig.skip(i + 1 as int), fuel as nat),
                            );
                        }
                        i = i + 1;
                    },
                    Result::Err(e) => {
                        return Result::Err(e);
                    },
                }
            },
            Token::Ident(name, span) => {
                let is_dup_kw = crate::tokens::is_ident(&toks[i], Option::Some("duplicate"));
                let is_sub_kw = crate::tokens::is_ident(&toks[i], Option::Some("substitute"));
                let mut bang = false;
                if is_dup_kw || is_sub_kw {
                    if i + 1 < toks.len() {
                        bang = crate::tokens::is_punct(&toks[i + 1], '!');
                    }
                }
                if bang {
                    proof {
                        assert(before[1] == orig[i + 1]);
                        if i + 2 < toks@.len() {
                            assert(before[2] == orig[i + 2]);
                        }
                    }
                    let good_group = if i + 2 < toks.len() {
                        match &toks[i + 2] {
                            Token::Group(d2, _, _) => !matches!(d2, Delim::Transparent),
                            _ => false,
                        }
                    } else {
                        false
                    };
                    if !good_group {
                        let span2: usize = if i + 2 < toks.len() {
                            toks[i + 2].span()
                        } else {
                            toks[i + 1].span()
                        };
                        proof {
                            assert(before.skip(2) =~= orig.skip(i + 2 as int));
                            if i + 2 < toks@.len() {
                                assert(before.skip(2)[0] == orig[i + 2]);
                            }
                        }
                        return Result::Err(
                            Error::new("Expected '{', '[', or '('.").span(span2),
                        );
                    }
                    if fuel == 0 {
                        return Result::Err(
                            Error::new("Nested invocations are nested too deeply.").span(*span),
                        );
                    }
                    let b = match &toks[i + 2] {
                        Token::Group(_, gb, _) => crate::tokens::clone_tokens(gb),
                        _ => {
                            proof {
                                assert(false);
                            }
                            Vec::new()
                        },
                    };
                    let out = match invoke_nested(&b, is_dup_kw, fuel - 1) {
                        Result::Ok(o) => o,
                        Result::Err(e) => {
                            return Result::Err(e);
                        },
                    };
                    let mut spliced = out;
                    let mut rest = suffix_tokens(toks, i + 3);
                    let ghost splicedm = toks_deep(spliced@);
                    let ghost restm = toks_deep(rest@);
                    proof {
                        assert(restm =~= orig.skip(i + 3 as int));
                        assert(before.skip(3) =~= orig.skip(i + 3 as int));
                    }
                    let ghost ssnap = spliced@;
                    let ghost rsnap2 = rest@;
                    spliced.append(&mut rest);
                    proof {
                        assert(spliced@ == ssnap + rsnap2);
                        crate::tokens::lemma_toks_deep_add(ssnap, rsnap2);
                        assert(toks_deep(spliced@) == splicedm + restm);
                    }
                    match expand_tokens(&spliced, fuel - 1) {
                        Result::Ok(out2) => {
                            let ghost outm = toks_deep(out2@);
                            let mut result = acc;
                            let mut out_mut = out2;
                            let ghost rsnap = result@;
                            let ghost osnap = out_mut@;
                            result.append(&mut out_mut);
                            proof {
                                assert(result@ == rsnap + osnap);
                                crate::tokens::lemma_toks_deep_add(rsnap, osnap);
                                lemma_prepend_res_flatten(acc_before, outm);
                            }
                            return Result::Ok(result);
                        },
                        Result::Err(e) => {
                            return Result::Err(e);
                        },
                    }
                } else {
                    let t = toks[i].clone();
                    acc.push(t);
                    proof {
                        assert(toks_deep(acc@) =~= acc_before.push(tok_deep(acc@.last())));
                        lemma_prepend_snoc(
                            acc_before,
                            tok_deep(acc@.last()),
                            expand_model(orig.skip(i + 1 as int), fuel as nat),
                        );
                    }
                    i = i + 1;
                }
            },
            _ => {
                let t = toks[i].clone();
                acc.push(t);
                proof {
                    assert(toks_deep(acc@) =~= acc_before.push(tok_deep(acc@.last())));
                    lemma_prepend_snoc(
                        acc_before,
                        tok_deep(acc@.last()),
                        expand_model(orig.skip(i + 1 as int), fuel as nat),
                    );
                }
                i = i + 1;
            },
        }
    }
    proof {
        assert(orig.skip(toks@.len() as int) =~= Seq::<TokTree>::empty());
        assert(toks_deep(acc@) + Seq::<TokTree>::empty() =~= toks_deep(acc@));
    }
    Result::Ok(acc)
}

/// The tokens of a sequence from the given place on.
fn suffix_tokens(toks: &Vec<Token>, from: usize) -> (r: Vec<Token>)
    requires
        from <= toks@.len(),
    ensures
        toks_deep(r@) == toks_deep(toks@).skip(from as int),
{
    let mut out: Vec<Token> = Vec::new();
    let mut i: usize = from;
    while i < toks.len()
        invariant
            from <= i <= toks@.len(),
            out@.len() == i - from,
            forall|j: int| 0 <= j < out@.len() ==> tok_deep(out@[j]) == tok_deep(toks@[from + j]),
        decreases toks@.len() - i,
    {
        out.push(toks[i].clone());
        i = i + 1;
    }
    proof {
        assert(toks_deep(out@) =~= toks_deep(toks@).skip(from as int));
    }
    out
}

/// Prefixing one produced token onto a continuation keeps the prefix form.
proof fn lemma_prepend_snoc(acc: Seq<TokTree>, t: TokTree, r: Result<Seq<TokTree>, ErrM>)
    ensures
        crate::substitute::prepend_res(acc, crate::substitute::prepend_res(seq![t], r))
            == crate::substitute::prepend_res(acc.push(t), r),
{
    match r {
        Result::Ok(rest) => {
            assert(acc + (seq![t] + rest) =~= acc.push(t) + rest);
        },
        Result::Err(_) => {},
    }
}

/// A finished continuation folds into the accumulated prefix.
proof fn lemma_prepend_res_flatten(acc: Seq<TokTree>, out: Seq<TokTree>)
    ensures
        crate::substitute::prepend_res(acc, Result::<Seq<TokTree>, ErrM>::Ok(out)) == Result::<
            Seq<TokTree>,
            ErrM,
        >::Ok(acc + out),
{
}

/// The size of a suffix is at most the size of the whole.
proof fn lemma_seq_size_skip(s: Seq<TokTree>, i: int)
    requires
        0 <= i <= s.len(),
    ensures
        crate::tokens::seq_size(s.skip(i)) <= crate::tokens::seq_size(s),
    decreases i,
{
    if i == 0 {
        assert(s.skip(0) =~= s);
    } else {
        crate::tokens::lemma_seq_size_element(s, 0);
        assert(crate::tokens::seq_size(s) == crate::tokens::tok_size(s[0])
            + crate::tokens::seq_size(s.drop_first()));
        assert(s.skip(i) =~= s.drop_first().skip(i - 1));
        lemma_seq_size_skip(s.drop_first(), i - 1);
    }
}

/// Evaluates one nested invocation: the body of the group that follows the
/// invocation keyword and its marker. Its first bracketed group is the
/// nested payload; everything after it is the nested fragment.
fn invoke_nested(b: &Vec<Token>, is_duplicate: bool, fuel: u64) -> (r: Result<Vec<Token>, Error>)
    ensures
        match r {
            Result::Ok(out) => eval_nested_model(is_duplicate, toks_deep(b@), fuel as nat)
                == Result::<Seq<TokTree>, ErrM>::Ok(toks_deep(out@)),
            Result::Err(e) => eval_nested_model(is_duplicate, toks_deep(b@), fuel as nat)
                == Result::<Seq<TokTree>, ErrM>::Err(e@),
        },
    decreases fuel, 3int, 0int,
{
    let mut iter = TokenIter::new(crate::tokens::clone_tokens(b));
    let (payload_iter, _pspan) = match iter.next_group(Option::Some(Delim::Bracket)) {
        Result::Ok(p) => p,
        Result::Err(e) => {
            return Result::Err(e);
        },
    };
    let payload = payload_iter.to_token_stream();
    let frag = iter.to_token_stream();
    eval_pipeline(is_duplicate, &payload, &frag, fuel)
}

/// Runs the whole pipeline: normalizes and parses the payload, normalizes
/// the fragment, and produces the duplicates.
fn eval_pipeline(is_dup: bool, payload: &Vec<Token>, frag: &Vec<Token>, fuel: u64) -> (r: Result<
    Vec<Token>,
    Error,
>)
    ensures
        match r {
            Result::Ok(out) => eval_model(is_dup, toks_deep(payload@), toks_deep(frag@), fuel as nat)
                == Result::<Seq<TokTree>, ErrM>::Ok(toks_deep(out@)),
            Result::Err(e) => eval_model(is_dup, toks_deep(payload@), toks_deep(frag@), fuel as nat)
                == Result::<Seq<TokTree>, ErrM>::Err(e@),
        },
    decreases fuel, 2int, 0int,
{
    let p = match expand_tokens(payload, fuel) {
        Result::Ok(p) => p,
        Result::Err(e) => {
            return Result::Err(e);
        },
    };
    let def: DuplicationDefinition = if is_dup {
        match crate::parse::parse_invocation(&p) {
            Result::Ok(d) => d,
            Result::Err(e) => {
                return Result::Err(e);
            },
        }
    } else {
        match crate::parse::parse_global_substitutions_only(&p) {
            Result::Ok(g) => {
                let duplications: Vec<SubstitutionGroup> = Vec::new();
                proof {
                    assert(groups_deep(duplications@) =~= Seq::<crate::substitute::GroupM>::empty());
                }
                DuplicationDefinition { global_substitutions: g, duplications }
            },
            Result::Err(e) => {
                return Result::Err(e);
            },
        }
    };
    let f = match expand_tokens(frag, fuel) {
        Result::Ok(f) => f,
        Result::Err(e) => {
            return Result::Err(e);
        },
    };
    crate::substitute::duplicate_and_substitute(&f, &def.global_substitutions, &def.duplications)
}

/// Computes the nested-invocation budget for one engine run.
fn compute_fuel(payload: &Vec<Token>, frag: &Vec<Token>) -> (r: u64)
    ensures
        r as nat == top_fuel(toks_deep(payload@), toks_deep(frag@)),
{
    let a = crate::tokens::count_tokens(payload);
    let b = crate::tokens::count_tokens(frag);
    if a >= u64::MAX - b {
        u64::MAX
    } else {
        a + b
    }
}

/// Duplicates the fragment according to the invocation payload: the single
/// entry point of the engine. On success the result is the concatenation of
/// all duplicates, in group order; on failure nothing is produced.
pub fn duplicate_impl(attr: &Vec<Token>, item: &Vec<Token>) -> (r: Result<Vec<Token>, Error>)
    ensures
        match r {
            Result::Ok(out) => eval_model(
                true,
                toks_deep(attr@),
                toks_deep(item@),
                top_fuel(toks_deep(attr@), toks_deep(item@)),
            ) == Result::<Seq<TokTree>, ErrM>::Ok(toks_deep(out@)),
            Result::Err(e) => eval_model(
                true,
                toks_deep(attr@),
                toks_deep(item@),
                top_fuel(toks_deep(attr@), toks_deep(item@)),
            ) == Result::<Seq<TokTree>, ErrM>::Err(e@),
        },
{
    let fuel = compute_fuel(attr, item);
    eval_pipeline(true, attr, item, fuel)
}

/// Substitutes the global substitutions of the payload into the fragment,
/// without duplication: exactly one copy is produced.
pub fn substitute_impl(attr: &Vec<Token>, item: &Vec<Token>) -> (r: Result<Vec<Token>, Error>)
    ensures
        match r {
            Result::Ok(out) => eval_model(
                false,
                toks_deep(attr@),
                toks_deep(item@),
                top_fuel(toks_deep(attr@), toks_deep(item@)),
            ) == Result::<Seq<TokTree>, ErrM>::Ok(toks_deep(out@)),
            Result::Err(e) => eval_model(
                false,
                toks_deep(attr@),
                toks_deep(item@),
                top_fuel(toks_deep(attr@), toks_deep(item@)),
            ) == Result::<Seq<TokTree>, ErrM>::Err(e@),
        },
{
    let fuel = compute_fuel(attr, item);
    eval_pipeline(false, attr, item, fuel)
}

/// The model of an invocation given as one stream: the payload is the first
/// bracketed group, the fragment everything after it.
pub open spec fn inline_model(stream: Seq<TokTree>, substitute_only: bool) -> Result<
    Seq<TokTree>,
    ErrM,
> {
    if stream.len() > 0 && (stream[0] matches TokTree::Group { delim: Delim::Bracket, .. }) {
        match stream[0] {
            TokTree::Group { body: payload, .. } => eval_model(
                !substitute_only,
                payload,
                stream.drop_first(),
                top_fuel(payload, stream.drop_first()),
            ),
            _ => Result::Err(transparent_err(0)),
        }
    } else {
        Result::Err(
            crate::error::with_hint(
                crate::token_iter::group_err(
                    stream,
                    crate::tokens::SYNTHETIC_SPAN as int,
                    Option::Some(Delim::Bracket),
                ),
                crate::pretty_errors::inline_invocation_hint(),
            ),
        )
    }
}

/// Splits an invocation given as one stream (the invocation payload within
/// initial brackets, then the fragment) and runs the engine on the parts.
pub fn inline_macro_impl(stream: &Vec<Token>, substitute_only: bool) -> (r: Result<
    Vec<Token>,
    Error,
>)
    ensures
        match r {
            Result::Ok(out) => inline_model(toks_deep(stream@), substitute_only) == Result::<
                Seq<TokTree>,
                ErrM,
            >::Ok(toks_deep(out@)),
            Result::Err(e) => inline_model(toks_deep(stream@), substitute_only) == Result::<
                Seq<TokTree>,
                ErrM,
            >::Err(e@),
        },
{
    let mut iter = TokenIter::new(crate::tokens::clone_tokens(stream));
    let (payload_iter, _pspan) = match iter.next_group(Option::Some(Delim::Bracket)) {
        Result::Ok(p) => p,
        Result::Err(e) => {
            return Result::Err(e.hint(crate::pretty_errors::inline_invocation_hint_text()));
        },
    };
    let payload = payload_iter.to_token_stream();
    let frag = iter.to_token_stream();
    let fuel = compute_fuel(&payload, &frag);
    eval_pipeline(!substitute_only, &payload, &frag, fuel)
}

} // verus!
