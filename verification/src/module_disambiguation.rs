//! Module name disambiguation.
//!
//! When a module declaration is duplicated without the user substituting its
//! name, every duplicate would carry the same module name. This component
//! picks the first substitution identifier whose substitutions all consist
//! of a single bare identifier, and renames each duplicate's module to the
//! original name postfixed with that identifier's snake-cased value.

use vstd::prelude::*;

use crate::error::Error;
use crate::substitute::{
    all_simple, disambig_err, find_simple_from, find_simple_spec, group_simple, groups_deep,
    groups_wf, lookup, mod_shape, simple_of, simple_value, SubstitutionGroup,
};
use crate::token_iter::TokenIter;
use crate::tokens::{span_of, toks_deep, TokTree, Token};

verus! {

broadcast use {vstd::std_specs::vec::group_vec_axioms, vstd::seq::group_seq_axioms,
    crate::tokens::lemma_toks_deep};

/// What `to_snake_case` returns for the given characters.
pub uninterp spec fn snake_case_of(s: Seq<char>) -> Seq<char>;

/// Converts an identifier to snake case.
///
/// Relies on heck's `ToSnakeCase::to_snake_case`, whose result depends on
/// the input characters alone.
#[verifier::external_body]
pub fn to_snake_case(s: &str) -> (r: String)
    ensures
        r@ == snake_case_of(s@),
{
    heck::ToSnakeCase::to_snake_case(s)
}

/// The decision of the module disambiguator: the module's name, the
/// position of the name in the target fragment, and the substitution
/// identifier whose values will postfix the name.
pub struct ModDis {
    /// The module's name.
    pub name: String,
    /// The position of the module's name.
    pub span: usize,
    /// The substitution identifier chosen to postfix the name.
    pub sub_ident: String,
}

/// The model of a disambiguation decision.
pub open spec fn dis_model(d: Option<ModDis>) -> Option<(Seq<char>, int, Seq<char>)> {
    match d {
        Option::Some(m) => Option::Some((m.name@, m.span as int, m.sub_ident@)),
        Option::None => Option::None,
    }
}

/// Finds the first substitution identifier of the first group, in
/// declaration order, whose substitutions contain exactly one identifier
/// and nothing else in every group.
///
/// When none qualifies, the error points at the module's position.
pub fn find_simple(sub_groups: &Vec<SubstitutionGroup>, mod_span: usize) -> (r: Result<
    String,
    Error,
>)
    requires
        groups_wf(sub_groups@),
        sub_groups@.len() > 0,
    ensures
        match r {
            Result::Ok(name) => {
                &&& find_simple_spec(groups_deep(sub_groups@)) == Option::Some(name@)
                &&& all_simple(groups_deep(sub_groups@), name@)
            },
            Result::Err(e) => {
                &&& find_simple_spec(groups_deep(sub_groups@)) is None
                &&& e@ == disambig_err(mod_span as int)
            },
        },
{
    let ghost groupsm = groups_deep(sub_groups@);
    proof {
        assert(groupsm[0] == sub_groups@[0].model());
    }
    let idents = sub_groups[0].identifiers_ordered();
    let mut k: usize = 0;
    while k < idents.len()
        invariant
            groups_wf(sub_groups@),
            sub_groups@.len() > 0,
            groupsm == groups_deep(sub_groups@),
            groupsm.len() == sub_groups@.len(),
            groupsm[0] == sub_groups@[0].model(),
            idents@.len() == groupsm[0].len(),
            forall|i: int| 0 <= i < idents@.len() ==> #[trigger] idents@[i]@ == groupsm[0][i].0,
            k <= idents@.len(),
            find_simple_from(groupsm, 0) == find_simple_from(groupsm, k as int),
        decreases idents@.len() - k,
    {
        let candidate = &idents[k];
        let mut all_ok: bool = true;
        let ghost name = candidate@;
        let mut j: usize = 0;
        while j < sub_groups.len() && all_ok
            invariant
                groups_wf(sub_groups@),
                groupsm == groups_deep(sub_groups@),
                groupsm.len() == sub_groups@.len(),
                name == candidate@,
                j <= sub_groups@.len(),
                all_ok ==> forall|j2: int|
                    0 <= j2 < j ==> group_simple(#[trigger] groupsm[j2], name),
                !all_ok ==> !all_simple(groupsm, name),
            decreases sub_groups@.len() - j,
        {
            proof {
                assert(groupsm[j as int] == sub_groups@[j as int].model());
            }
            match sub_groups[j].substitution_of(candidate) {
                Option::Some(s) => {
                    match s.substitutes_identifier() {
                        Option::Some(_) => {
                            proof {
                                assert(group_simple(groupsm[j as int], name));
                            }
                        },
                        Option::None => {
                            all_ok = false;
                            proof {
                                assert(!group_simple(groupsm[j as int], name));
                            }
                        },
                    }
                },
                Option::None => {
                    all_ok = false;
                    proof {
                        assert(!group_simple(groupsm[j as int], name));
                    }
                },
            }
            j = j + 1;
        }
        if all_ok {
            proof {
                assert(all_simple(groupsm, name));
                assert(find_simple_from(groupsm, k as int) == Option::Some(groupsm[0][k as int].0));
            }
            return Result::Ok(candidate.clone());
        }
        proof {
            assert(find_simple_from(groupsm, k as int) == find_simple_from(groupsm, k + 1 as int));
        }
        k = k + 1;
    }
    proof {
        assert(find_simple_from(groupsm, k as int) is None);
    }
    Result::Err(
        Error::new("Was unable to find a suitable substitution identifier to postfix on the module's name.").span(
            mod_span,
        ).hint(crate::pretty_errors::module_disambiguation_hint_text()),
    )
}

/// When the module disambiguator runs, consumes the module keyword and the
/// module's name from the fragment and hands back the keyword followed by
/// the renamed module name: the original name postfixed with an underscore
/// and the snake-cased value the chosen identifier takes in the current
/// group. Otherwise consumes and produces nothing.
pub fn try_substitute_mod(
    mod_and_postfix_sub: &Option<ModDis>,
    substitutions: &SubstitutionGroup,
    item_iter: &mut TokenIter,
) -> (r: Vec<Token>)
    requires
        old(item_iter).wf(),
        substitutions.wf(),
        mod_and_postfix_sub matches Option::Some(d) ==> {
            &&& mod_shape(old(item_iter).rest()) is Some
            &&& lookup(substitutions.model(), d.sub_ident@) matches Option::Some(s)
                && simple_value(s.parts) is Some
        },
    ensures
        final(item_iter).wf(),
        match mod_and_postfix_sub {
            Option::Some(d) => {
                &&& final(item_iter).rest() == old(item_iter).rest().skip(2)
                &&& toks_deep(r@) == crate::substitute::mod_rename_prefix(
                    old(item_iter).rest(),
                    substitutions.model(),
                    (d.name@, d.span as int, d.sub_ident@),
                )
            },
            Option::None => {
                &&& *final(item_iter) == *old(item_iter)
                &&& r@.len() == 0
            },
        },
{
    match mod_and_postfix_sub {
        Option::None => Vec::new(),
        Option::Some(d) => {
            proof {
                assert(*mod_and_postfix_sub == Option::Some(*d));
            }
            let kw = match item_iter.next() {
                Option::Some(t) => t,
                Option::None => {
                    proof {
                        assert(false);
                    }
                    Token::Ident(String::new(), 0)
                },
            };
            let name_tok = match item_iter.next() {
                Option::Some(t) => t,
                Option::None => {
                    proof {
                        assert(false);
                    }
                    Token::Ident(String::new(), 0)
                },
            };
            let val = match substitutions.substitution_of(&d.sub_ident) {
                Option::Some(s) => {
                    match s.substitutes_identifier() {
                        Option::Some(v) => v,
                        Option::None => {
                            proof {
                                assert(false);
                            }
                            String::new()
                        },
                    }
                },
                Option::None => {
                    proof {
                        assert(false);
                    }
                    String::new()
                },
            };
            let postfix = to_snake_case(val.as_str());
            let mut replacement: String = d.name.clone();
            replacement.append("_");
            replacement.append(postfix.as_str());
            proof {
                assert(old(item_iter).rest().drop_first()[0] == old(item_iter).rest()[1]);
            }
            let name_span = name_tok.span();
            let mut out: Vec<Token> = Vec::new();
            out.push(kw);
            out.push(Token::Ident(replacement, name_span));
            proof {
                assert(old(item_iter).rest().drop_first().drop_first() =~= old(
                    item_iter,
                ).rest().skip(2));
                assert(toks_deep(out@) =~= crate::substitute::mod_rename_prefix(
                    old(item_iter).rest(),
                    substitutions.model(),
                    (d.name@, d.span as int, d.sub_ident@),
                ));
            }
            out
        },
    }
}

} // verus!
