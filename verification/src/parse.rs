//! The invocation parser.
//!
//! An invocation consists of optional global substitutions followed by
//! per-duplicate substitution groups in one of two concrete syntaxes: the
//! short, row-oriented syntax (a row of identifier declarations, then
//! semicolon-terminated batches of bracketed substitutions) or the verbose,
//! group-oriented syntax (bracket-delimited groups of identifier /
//! substitution pairs). The syntax is detected from the first meaningful
//! token after the global substitutions.

use vstd::prelude::*;

use crate::error::{err_at, with_hint, ErrM, Error};
use crate::substitute::{
    build_parts, fixed_parts, groups_deep, groups_wf, lookup, DuplicationDefinition, GroupM, SubM,
    Substitution, SubstitutionGroup,
};
use crate::token_iter::{group_err, simple_err, TokenIter};
use crate::tokens::{span_of, spec_punct_is_char, toks_deep, Delim, TokTree, Token, SYNTHETIC_SPAN};

verus! {

broadcast use {vstd::std_specs::vec::group_vec_axioms, vstd::seq::group_seq_axioms,
    crate::tokens::lemma_toks_deep};

/// The model of a whole duplication definition: the global group and the
/// per-duplicate groups in order.
pub type DefM = (GroupM, Seq<GroupM>);

/// The identifiers of a group with their argument counts, in declaration
/// order.
pub open spec fn idents_with_args(g: GroupM) -> Seq<(Seq<char>, nat)> {
    Seq::new(g.len(), |i: int| (g[i].0, g[i].1.count))
}

/// Whether the pair list holds the given name and argument count.
pub open spec fn pairs_contains(s: Seq<(Seq<char>, nat)>, p: (Seq<char>, nat)) -> bool {
    exists|i: int| 0 <= i < s.len() && s[i] == p
}

/// Whether the pair list holds the given name, with any argument count.
pub open spec fn pairs_contains_name(s: Seq<(Seq<char>, nat)>, name: Seq<char>) -> bool {
    exists|i: int| 0 <= i < s.len() && s[i].0 == name
}

// ---------------------------------------------------------------------------
// Argument lists
// ---------------------------------------------------------------------------
/// The comma-separated list of plain identifiers in a parameter list, after
/// the given names have already been declared: a name declared twice is
/// rejected at its repetition.
pub open spec fn arg_list_rec(body: Seq<TokTree>, seen: Seq<Seq<char>>) -> Result<
    Seq<Seq<char>>,
    ErrM,
>
    decreases body.len(),
{
    if body.len() == 0 {
        Result::Ok(Seq::empty())
    } else {
        match body[0] {
            TokTree::Ident { name, span } => {
                if seen.contains(name) {
                    Result::Err(err_at("Parameter name already used"@, span))
                } else if body.len() == 1 {
                    Result::Ok(seq![name])
                } else if spec_punct_is_char(body[1], ',') {
                    match arg_list_rec(body.skip(2), seen.push(name)) {
                        Result::Ok(rest) => Result::Ok(seq![name] + rest),
                        Result::Err(e) => Result::Err(e),
                    }
                } else {
                    Result::Err(simple_err(body.drop_first(), Option::Some(","@)))
                }
            },
            _ => Result::Err(
                simple_err(
                    body,
                    Option::Some("substitution identifier argument as identifier"@),
                ),
            ),
        }
    }
}

/// The comma-separated list of plain identifiers in a parameter list; each
/// name must be unique within the declaration.
pub open spec fn arg_list(body: Seq<TokTree>) -> Result<Seq<Seq<char>>, ErrM> {
    arg_list_rec(body, Seq::empty())
}

// ---------------------------------------------------------------------------
// One inline substitution: identifier, optional parameter list, substitution
// ---------------------------------------------------------------------------
/// One parsed inline substitution: the identifier's name and position and
/// the substitution assigned to it.
pub type InlineSub = (Seq<char>, int, SubM);

/// Parses one `identifier (parameters)? [substitution]` entry at the front
/// of the tokens: the entry and the remaining tokens, or the error that
/// stopped it, consuming nothing.
pub open spec fn extract_inline(toks: Seq<TokTree>) -> Result<(InlineSub, Seq<TokTree>), ErrM> {
    if toks.len() == 0 {
        Result::Err(simple_err(toks, Option::Some("a substitution identifier"@)))
    } else {
        match toks[0] {
            TokTree::Ident { name, span } => {
                if toks.len() >= 2 {
                    match toks[1] {
                        TokTree::Group { delim: Delim::Paren, body: pbody, span: pspan } => {
                            if toks.len() >= 3 && (toks[2] matches TokTree::Group {
                                delim: Delim::Bracket,
                                ..
                            }) {
                                match (toks[2], arg_list(pbody)) {
                                    (
                                        TokTree::Group { body: sbody, .. },
                                        Result::Ok(params),
                                    ) => Result::Ok(
                                        (
                                            (
                                                name,
                                                span,
                                                SubM {
                                                    count: params.len(),
                                                    parts: build_parts(sbody, params),
                                                },
                                            ),
                                            toks.skip(3),
                                        ),
                                    ),
                                    (_, Result::Err(e)) => Result::Err(e),
                                    _ => Result::Err(simple_err(toks, Option::None)),
                                }
                            } else {
                                Result::Err(
                                    group_err(toks.skip(2), pspan, Option::Some(Delim::Bracket)),
                                )
                            }
                        },
                        TokTree::Group { delim: Delim::Bracket, body: sbody, .. } => Result::Ok(
                            (
                                (name, span, SubM { count: 0, parts: fixed_parts(sbody) }),
                                toks.skip(2),
                            ),
                        ),
                        _ => Result::Err(err_at("Expected '(' or '['."@, span_of(toks[1]))),
                    }
                } else {
                    Result::Err(err_at("Expected '(' or '['."@, span))
                }
            },
            _ => Result::Err(simple_err(toks, Option::Some("a substitution identifier"@))),
        }
    }
}

/// A parsed inline substitution consumes at least two tokens.
pub proof fn lemma_extract_inline_remaining(toks: Seq<TokTree>)
    ensures
        extract_inline(toks) matches Result::Ok((v, rest)) ==> rest.len() + 2 <= toks.len(),
{
}

// ---------------------------------------------------------------------------
// Global substitutions
// ---------------------------------------------------------------------------
/// Greedily parses leading `identifier (parameters)? [substitution] ;`
/// entries into the global group, stopping without error at the first entry
/// that does not fit this shape. The trailing semicolon is required only
/// while further tokens follow.
pub open spec fn parse_globals(toks: Seq<TokTree>, acc: GroupM) -> Result<
    (GroupM, Seq<TokTree>),
    ErrM,
>
    decreases toks.len() via parse_globals_decreases
{
    match extract_inline(toks) {
        Result::Err(_) => Result::Ok((acc, toks)),
        Result::Ok(((name, span, sub), rest)) => {
            if lookup(acc, name) is Some {
                Result::Err(
                    err_at("Substitution identifier assigned mutiple substitutions"@, span),
                )
            } else {
                let acc2 = acc.push((name, sub));
                if rest.len() == 0 {
                    Result::Ok((acc2, rest))
                } else if spec_punct_is_char(rest[0], ';') {
                    parse_globals(rest.drop_first(), acc2)
                } else {
                    Result::Err(
                        with_hint(
                            simple_err(rest, Option::Some("';'"@)),
                            crate::pretty_errors::global_sub_semicolon(),
                        ),
                    )
                }
            }
        },
    }
}

#[via_fn]
proof fn parse_globals_decreases(toks: Seq<TokTree>, acc: GroupM) {
    lemma_extract_inline_remaining(toks);
}

/// Parses an invocation that consists of global substitutions alone,
/// reporting the error that stopped the scan when anything follows them.
pub open spec fn parse_globals_only(toks: Seq<TokTree>) -> Result<GroupM, ErrM> {
    match parse_globals(toks, Seq::empty()) {
        Result::Err(e) => Result::Err(e),
        Result::Ok((globals, rest)) => {
            if rest.len() == 0 {
                Result::Ok(globals)
            } else {
                match extract_inline(rest) {
                    Result::Err(e) => Result::Err(e),
                    Result::Ok(_) => Result::Err(
                        simple_err(rest, Option::Some("a substitution identifier"@)),
                    ),
                }
            }
        },
    }
}

// ---------------------------------------------------------------------------
// Verbose syntax
// ---------------------------------------------------------------------------
/// The hint that lists the identifiers a verbose group is missing.
pub open spec fn missing_hint(missing: Seq<Seq<char>>) -> Seq<char> {
    "Missing substitution for:"@ + missing_names(missing) + "\n"@
        + crate::pretty_errors::verbose_syntax_substitution_identifiers()
}

/// The missing identifiers, each quoted and preceded by a space.
pub open spec fn missing_names(missing: Seq<Seq<char>>) -> Seq<char>
    decreases missing.len(),
{
    if missing.len() == 0 {
        Seq::empty()
    } else {
        " '"@ + missing[0] + "'"@ + missing_names(missing.drop_first())
    }
}

/// The expected identifiers that the given group does not assign, in the
/// expected order.
pub open spec fn missing_idents(expected: Seq<(Seq<char>, nat)>, found: GroupM) -> Seq<Seq<char>>
    decreases expected.len(),
{
    if expected.len() == 0 {
        Seq::empty()
    } else {
        let rest = missing_idents(expected.drop_first(), found);
        if pairs_contains(idents_with_args(found), expected[0]) {
            rest
        } else {
            seq![expected[0].0] + rest
        }
    }
}

/// Parses the entries of one verbose substitution group, validating each
/// against the expected identifier set when one is given.
pub open spec fn verbose_entries(
    body: Seq<TokTree>,
    gspan: int,
    expected: Option<Seq<(Seq<char>, nat)>>,
    acc: GroupM,
) -> Result<GroupM, ErrM>
    decreases body.len() via verbose_entries_decreases
{
    if body.len() == 0 {
        match expected {
            Option::Some(exp) => {
                if missing_idents(exp, acc).len() > 0 {
                    Result::Err(
                        with_hint(
                            err_at("Incomplete substitution group."@, gspan),
                            missing_hint(missing_idents(exp, acc)),
                        ),
                    )
                } else {
                    Result::Ok(acc)
                }
            },
            Option::None => Result::Ok(acc),
        }
    } else {
        match extract_inline(body) {
            Result::Err(e) => Result::Err(
                if spec_punct_is_char(body[0], ';') {
                    with_hint(e, crate::pretty_errors::verbose_semicolon())
                } else {
                    e
                },
            ),
            Result::Ok(((name, span, sub), rest)) => {
                let mismatch = match expected {
                    Option::Some(exp) => exp.len() > 0 && !pairs_contains(exp, (name, sub.count)),
                    Option::None => false,
                };
                let known_name = match expected {
                    Option::Some(exp) => pairs_contains_name(exp, name),
                    Option::None => false,
                };
                if mismatch {
                    if known_name {
                        Result::Err(
                            with_hint(
                                err_at("Wrong argument count for substitution identifier."@, span),
                                crate::pretty_errors::verbose_syntax_substitution_identifiers_args(),
                            ),
                        )
                    } else {
                        Result::Err(
                            with_hint(
                                err_at("Unexpected substitution identifier."@, span),
                                crate::pretty_errors::verbose_syntax_substitution_identifiers(),
                            ),
                        )
                    }
                } else if lookup(acc, name) is Some {
                    Result::Err(
                        err_at("Substitution identifier assigned mutiple substitutions"@, span),
                    )
                } else {
                    verbose_entries(rest, gspan, expected, acc.push((name, sub)))
                }
            },
        }
    }
}

#[via_fn]
proof fn verbose_entries_decreases(
    body: Seq<TokTree>,
    gspan: int,
    expected: Option<Seq<(Seq<char>, nat)>>,
    acc: GroupM,
) {
    lemma_extract_inline_remaining(body);
}

/// Parses one verbose substitution group from a group token's body; an
/// empty group is an error pointing at the whole group.
pub open spec fn verbose_group(
    body: Seq<TokTree>,
    gspan: int,
    expected: Option<Seq<(Seq<char>, nat)>>,
) -> Result<GroupM, ErrM> {
    if body.len() == 0 {
        Result::Err(err_at("No substitution groups found."@, gspan))
    } else {
        verbose_entries(body, gspan, expected, Seq::empty())
    }
}

/// Parses the sequence of verbose substitution groups: the first group
/// fixes the expected identifier set, every further group must supply
/// exactly that set.
pub open spec fn parse_verbose_groups(
    toks: Seq<TokTree>,
    expected: Option<Seq<(Seq<char>, nat)>>,
) -> Result<Seq<GroupM>, ErrM>
    decreases toks.len(),
{
    if toks.len() == 0 {
        Result::Ok(Seq::empty())
    } else if toks[0] matches TokTree::Group { delim: Delim::Bracket, .. } {
        match toks[0] {
            TokTree::Group { body, span, .. } => {
                match verbose_group(body, span, expected) {
                    Result::Err(e) => Result::Err(e),
                    Result::Ok(g) => {
                        let expected2 = if expected is None {
                            Option::Some(idents_with_args(g))
                        } else {
                            expected
                        };
                        match parse_verbose_groups(toks.drop_first(), expected2) {
                            Result::Ok(gs) => Result::Ok(seq![g] + gs),
                            Result::Err(e) => Result::Err(e),
                        }
                    },
                }
            },
            _ => Result::Err(simple_err(toks, Option::None)),
        }
    } else {
        Result::Err(
            with_hint(
                group_err(toks, SYNTHETIC_SPAN as int, Option::Some(Delim::Bracket)),
                crate::pretty_errors::verbose_group_hint(),
            ),
        )
    }
}

// ---------------------------------------------------------------------------
// Short syntax
// ---------------------------------------------------------------------------
/// One short-syntax identifier declaration: name, position, parameters.
pub type ShortIdent = (Seq<char>, int, Seq<Seq<char>>);

/// Parses the short syntax's initial row of identifier declarations, ended
/// by a semicolon.
pub open spec fn short_idents(toks: Seq<TokTree>, acc: Seq<ShortIdent>) -> Result<
    (Seq<ShortIdent>, Seq<TokTree>),
    ErrM,
>
    decreases toks.len(),
{
    let expected: Seq<char> = if acc.len() == 0 {
        crate::pretty_errors::no_invocation()
    } else {
        "substitution_identifier or ';'"@
    };
    if toks.len() == 0 {
        Result::Err(simple_err(toks, Option::Some(expected)))
    } else {
        match toks[0] {
            TokTree::Ident { name, span } => {
                if toks.len() >= 2 {
                    match toks[1] {
                        TokTree::Group { delim: Delim::Paren, body, .. } => {
                            match arg_list(body) {
                                Result::Ok(params) => short_idents(
                                    toks.skip(2),
                                    acc.push((name, span, params)),
                                ),
                                Result::Err(e) => Result::Err(e),
                            }
                        },
                        _ => short_idents(toks.drop_first(), acc.push((name, span, Seq::empty()))),
                    }
                } else {
                    short_idents(toks.drop_first(), acc.push((name, span, Seq::empty())))
                }
            },
            _ => {
                if spec_punct_is_char(toks[0], ';') && acc.len() > 0 {
                    Result::Ok((acc, toks.drop_first()))
                } else {
                    Result::Err(simple_err(toks, Option::Some(expected)))
                }
            },
        }
    }
}

/// Parses one row of the short syntax: one bracketed substitution per
/// declared identifier.
pub open spec fn short_row(toks: Seq<TokTree>, n: nat, last: int) -> Result<
    (Seq<Seq<TokTree>>, Seq<TokTree>, int),
    ErrM,
>
    decreases n,
{
    if n == 0 {
        Result::Ok((Seq::empty(), toks, last))
    } else if toks.len() > 0 && (toks[0] matches TokTree::Group { delim: Delim::Bracket, .. }) {
        match toks[0] {
            TokTree::Group { body, span, .. } => {
                match short_row(toks.drop_first(), (n - 1) as nat, span) {
                    Result::Ok((subs, rest, last2)) => Result::Ok(
                        (seq![body] + subs, rest, last2),
                    ),
                    Result::Err(e) => Result::Err(e),
                }
            },
            _ => Result::Err(simple_err(toks, Option::None)),
        }
    } else {
        Result::Err(
            with_hint(
                group_err(toks, last, Option::Some(Delim::Bracket)),
                if toks.len() > 0 && spec_punct_is_char(toks[0], ';') {
                    crate::pretty_errors::short_syntax_substitution_count()
                } else {
                    crate::pretty_errors::short_syntax_missing_sub_bracket()
                },
            ),
        )
    }
}

/// Parses the short syntax's semicolon-separated rows of bracketed
/// substitutions; the trailing semicolon on the final row is optional.
pub open spec fn short_rows(toks: Seq<TokTree>, n: nat, last: int) -> Result<
    Seq<Seq<Seq<TokTree>>>,
    ErrM,
>
    decreases toks.len() via short_rows_decreases
{
    if toks.len() == 0 {
        Result::Ok(Seq::empty())
    } else {
        match short_row(toks, n, last) {
            Result::Err(e) => Result::Err(e),
            Result::Ok((row, rest, last2)) => {
                if rest.len() == 0 {
                    Result::Ok(seq![row])
                } else if rest[0] matches TokTree::Group { delim: Delim::Bracket, .. } {
                    Result::Err(
                        with_hint(
                            err_at("Unexpected delimiter."@, span_of(rest[0])),
                            crate::pretty_errors::short_syntax_substitution_count(),
                        ),
                    )
                } else if spec_punct_is_char(rest[0], ';') {
                    match short_rows(rest.drop_first(), n, span_of(rest[0])) {
                        Result::Ok(rows) => Result::Ok(seq![row] + rows),
                        Result::Err(e) => Result::Err(e),
                    }
                } else {
                    Result::Err(simple_err(rest, Option::Some("';'"@)))
                }
            },
        }
    }
}

#[via_fn]
proof fn short_rows_decreases(toks: Seq<TokTree>, n: nat, last: int) {
    lemma_short_row_remaining(toks, n, last);
}

/// A parsed row leaves a suffix of the tokens, shorter whenever the row is
/// not empty.
pub proof fn lemma_short_row_remaining(toks: Seq<TokTree>, n: nat, last: int)
    ensures
        short_row(toks, n, last) matches Result::Ok((row, rest, l2)) ==> rest.len() + n
            <= toks.len() && row.len() == n,
    decreases n,
{
    if n > 0 && toks.len() > 0 && (toks[0] matches TokTree::Group {
        delim: Delim::Bracket,
        ..
    }) {
        lemma_short_row_remaining(toks.drop_first(), (n - 1) as nat, span_of(toks[0]));
    }
}

/// Whether any name appears twice in the declarations.
pub open spec fn short_idents_distinct(idents: Seq<ShortIdent>) -> bool {
    forall|i: int, j: int| 0 <= i < j < idents.len() ==> idents[i].0 != idents[j].0
}

/// The substitution group one short-syntax row defines: the declared
/// identifiers, in order, each assigned its substitution built from the
/// row's snippet over the identifier's parameters.
pub open spec fn short_group(idents: Seq<ShortIdent>, row: Seq<Seq<TokTree>>) -> GroupM {
    Seq::new(
        idents.len(),
        |i: int|
            (
                idents[i].0,
                SubM { count: idents[i].2.len(), parts: build_parts(row[i], idents[i].2) },
            ),
    )
}

/// The per-duplicate groups the short syntax defines: one per row.
pub open spec fn short_groups(idents: Seq<ShortIdent>, rows: Seq<Seq<Seq<TokTree>>>) -> Seq<
    GroupM,
> {
    Seq::new(rows.len(), |i: int| short_group(idents, rows[i]))
}

/// Parses a whole short-syntax invocation: the identifier row, then the
/// substitution rows; at least one substitution row must be given, and a
/// name declared twice is an error at the synthetic position.
pub open spec fn parse_short(toks: Seq<TokTree>) -> Result<Seq<GroupM>, ErrM> {
    match short_idents(toks, Seq::empty()) {
        Result::Err(e) => Result::Err(e),
        Result::Ok((idents, rest)) => {
            match short_rows(rest, idents.len(), span_of(toks[toks.len() - 1 - rest.len()])) {
                Result::Err(e) => Result::Err(e),
                Result::Ok(rows) => {
                    if rows.len() == 0 {
                        Result::Err(
                            with_hint(
                                err_at("No substitution groups."@, SYNTHETIC_SPAN as int),
                                crate::pretty_errors::short_syntax_no_groups(),
                            ),
                        )
                    } else if !short_idents_distinct(idents) {
                        Result::Err(
                            err_at(
                                "Substitution identifier assigned mutiple substitutions"@,
                                SYNTHETIC_SPAN as int,
                            ),
                        )
                    } else {
                        Result::Ok(short_groups(idents, rows))
                    }
                },
            }
        },
    }
}

// ---------------------------------------------------------------------------
// The whole invocation
// ---------------------------------------------------------------------------
/// Parses a whole invocation: leading global substitutions, then either
/// nothing (with a non-empty global group), the verbose syntax (first
/// meaningful token is a bracket group), or the short syntax.
pub open spec fn parse_invocation_model(toks: Seq<TokTree>) -> Result<DefM, ErrM> {
    match parse_globals(toks, Seq::empty()) {
        Result::Err(e) => Result::Err(e),
        Result::Ok((globals, rest)) => {
            if rest.len() == 0 && globals.len() > 0 {
                Result::Ok((globals, Seq::empty()))
            } else if rest.len() > 0 && rest[0] matches TokTree::Group {
                delim: Delim::Bracket,
                ..
            } {
                match parse_verbose_groups(rest, Option::None) {
                    Result::Ok(gs) => Result::Ok((globals, gs)),
                    Result::Err(e) => Result::Err(e),
                }
            } else {
                match parse_short(rest) {
                    Result::Ok(gs) => Result::Ok((globals, gs)),
                    Result::Err(e) => Result::Err(e),
                }
            }
        },
    }
}

// ---------------------------------------------------------------------------
// The parser
// ---------------------------------------------------------------------------
/// Extracts a list of arguments: comma-separated identifiers, with an
/// optional trailing comma. Each name must be unique within the
/// declaration; a repeated one is rejected at its repetition.
#[verifier::loop_isolation(false)]
pub fn extract_argument_list(args: TokenIter) -> (r: Result<Vec<String>, Error>)
    requires
        args.wf(),
    ensures
        match r {
            Result::Ok(v) => arg_list(args.rest()) == Result::<Seq<Seq<char>>, ErrM>::Ok(
                crate::substitute::strings_deep(v@),
            ),
            Result::Err(e) => arg_list(args.rest()) == Result::<Seq<Seq<char>>, ErrM>::Err(e@),
        },
{
    let ghost orig = args.rest();
    let mut cur = args;
    let mut result: Vec<String> = Vec::new();
    proof {
        assert(crate::substitute::strings_deep(result@) =~= Seq::<Seq<char>>::empty());
    }
    loop
        invariant
            cur.wf(),
            arg_list(orig) == (match arg_list_rec(
                cur.rest(),
                crate::substitute::strings_deep(result@),
            ) {
                Result::Ok(rest) => Result::<Seq<Seq<char>>, ErrM>::Ok(
                    crate::substitute::strings_deep(result@) + rest,
                ),
                Result::Err(e) => Result::<Seq<Seq<char>>, ErrM>::Err(e),
            }),
        decreases cur.rest().len(),
    {
        let ghost before = cur.rest();
        let ghost seen = crate::substitute::strings_deep(result@);
        if !cur.has_next() {
            proof {
                assert(crate::substitute::strings_deep(result@) + Seq::<Seq<char>>::empty()
                    =~= crate::substitute::strings_deep(result@));
            }
            return Result::Ok(result);
        }
        let (name, span) = match cur.extract_identifier(
            Option::Some("substitution identifier argument as identifier"),
        ) {
            Result::Ok(p) => p,
            Result::Err(e) => {
                return Result::Err(e);
            },
        };
        let mut repeated: bool = false;
        let mut j: usize = 0;
        while j < result.len()
            invariant
                j <= result@.len(),
                repeated ==> seen.contains(name@),
                !repeated ==> forall|k: int| 0 <= k < j ==> seen[k] != name@,
            decreases result@.len() - j,
        {
            if result[j] == name {
                repeated = true;
                proof {
                    assert(seen[j as int] == name@);
                }
            }
            j = j + 1;
        }
        if repeated {
            return Result::Err(Error::new("Parameter name already used").span(span));
        }
        proof {
            assert(!seen.contains(name@));
        }
        let ghost result_before = result@;
        if cur.has_next() {
            match cur.expect_comma() {
                Result::Ok(()) => {
                    proof {
                        assert(before.drop_first()[0] == before[1]);
                        assert(cur.rest() =~= before.skip(2));
                    }
                },
                Result::Err(e) => {
                    proof {
                        assert(before.drop_first()[0] == before[1]);
                    }
                    return Result::Err(e);
                },
            }
        }
        result.push(name);
        proof {
            assert(crate::substitute::strings_deep(result@) =~= crate::substitute::strings_deep(
                result_before,
            ).push(result@.last()@));
            if cur.rest().len() == 0 && before.len() == 1 {
                assert(arg_list_rec(before, seen) == Result::<Seq<Seq<char>>, ErrM>::Ok(
                    seq![result@.last()@],
                ));
                assert(crate::substitute::strings_deep(result_before).push(result@.last()@)
                    + Seq::<Seq<char>>::empty() =~= crate::substitute::strings_deep(
                    result_before,
                ) + seq![result@.last()@]);
            } else {
                assert(crate::substitute::strings_deep(result_before).push(result@.last()@)
                    =~= crate::substitute::strings_deep(result_before) + seq![result@.last()@]);
                assert forall|rest2: Seq<Seq<char>>| #[trigger] (seq![result@.last()@]
                    + rest2).len() >= 0 implies crate::substitute::strings_deep(result_before) + (
                seq![result@.last()@] + rest2) =~= (crate::substitute::strings_deep(result_before)
                    + seq![result@.last()@]) + rest2 by {}
            }
        }
    }
}

/// Extracts one substitution entry: an identifier, an optional parameter
/// list, and a bracketed substitution body. Consumes nothing on failure.
fn extract_inline_substitution(iter: &mut TokenIter) -> (r: Result<(String, usize, Substitution), Error>)
    requires
        old(iter).wf(),
    ensures
        final(iter).wf(),
        match r {
            Result::Ok(p) => {
                &&& p.2.wf()
                &&& extract_inline(old(iter).rest()) == Result::<
                    (InlineSub, Seq<TokTree>),
                    ErrM,
                >::Ok(((p.0@, p.1 as int, p.2.model()), final(iter).rest()))
                &&& final(iter).rest().len() + 2 <= old(iter).rest().len()
            },
            Result::Err(e) => {
                &&& extract_inline(old(iter).rest()) matches Result::Err(em) && em == e@
                &&& *final(iter) == *old(iter)
            },
        },
{
    let ghost orig = old(iter).rest();
    // The whole shape is probed by peeking before anything is consumed, so
    // that a failed extraction leaves the cursor untouched.
    let ident_ok = match iter.peek() {
        Option::Some(t) => crate::tokens::is_ident(t, Option::None),
        Option::None => false,
    };
    if !ident_ok {
        match iter.extract_identifier(Option::Some("a substitution identifier")) {
            Result::Err(e) => {
                return Result::Err(e);
            },
            Result::Ok(_) => {
                proof {
                    assert(false);
                }
                return Result::Err(Error::new(""));
            },
        }
    }
    let ident_span: usize = match iter.peek() {
        Option::Some(t) => t.span(),
        Option::None => 0,
    };
    let p1_is_paren = match iter.peek_at(1) {
        Option::Some(Token::Group(Delim::Paren, _, _)) => true,
        _ => false,
    };
    let p1_is_bracket = match iter.peek_at(1) {
        Option::Some(Token::Group(Delim::Bracket, _, _)) => true,
        _ => false,
    };
    if !p1_is_paren && !p1_is_bracket {
        match iter.peek_at(1) {
            Option::None => {
                return Result::Err(Error::new("Expected '(' or '['.").span(ident_span));
            },
            Option::Some(t) => {
                return Result::Err(Error::new("Expected '(' or '['.").span(t.span()));
            },
        }
    }
    if p1_is_paren {
        let (pbody_c, pspan_c) = match iter.peek_at(1) {
            Option::Some(Token::Group(_, b, sp)) => (crate::tokens::clone_tokens(b), *sp),
            _ => {
                proof {
                    assert(false);
                }
                (Vec::new(), 0)
            },
        };
        let p2_is_bracket = match iter.peek_at(2) {
            Option::Some(Token::Group(Delim::Bracket, _, _)) => true,
            _ => false,
        };
        if !p2_is_bracket {
            proof {
                if orig.len() >= 3 {
                    assert(orig.skip(2)[0] == orig[2]);
                }
            }
            match iter.peek_at(2) {
                Option::Some(t) => {
                    return Result::Err(Error::new("Expected '['.").span(t.span()));
                },
                Option::None => {
                    return Result::Err(Error::new("Expected '['.").span(pspan_c));
                },
            }
        }
        let sbody_c = match iter.peek_at(2) {
            Option::Some(Token::Group(_, b, _)) => crate::tokens::clone_tokens(b),
            _ => {
                proof {
                    assert(false);
                }
                Vec::new()
            },
        };
        let params = match extract_argument_list(TokenIter::new(pbody_c)) {
            Result::Ok(p) => p,
            Result::Err(e) => {
                return Result::Err(e);
            },
        };
        let sub = Substitution::new(&params, &sbody_c);
        let first = iter.next();
        let _t1 = iter.next();
        let _t2 = iter.next();
        proof {
            assert(final(iter).rest() =~= orig.skip(3));
        }
        match first {
            Option::Some(Token::Ident(name, sp)) => Result::Ok((name, sp, sub)),
            _ => {
                proof {
                    assert(false);
                }
                Result::Err(Error::new(""))
            },
        }
    } else {
        let sbody_c = match iter.peek_at(1) {
            Option::Some(Token::Group(_, b, _)) => crate::tokens::clone_tokens(b),
            _ => {
                proof {
                    assert(false);
                }
                Vec::new()
            },
        };
        let sub = Substitution::new_simple(sbody_c);
        let first = iter.next();
        let _t1 = iter.next();
        proof {
            assert(final(iter).rest() =~= orig.skip(2));
        }
        match first {
            Option::Some(Token::Ident(name, sp)) => Result::Ok((name, sp, sub)),
            _ => {
                proof {
                    assert(false);
                }
                Result::Err(Error::new(""))
            },
        }
    }
}

/// Parses leading global substitutions: `identifier (parameters)?
/// [substitution]` entries, each followed by a semicolon while further
/// tokens remain. Stops, consuming nothing further, at the first entry that
/// does not fit this shape.
#[verifier::loop_isolation(false)]
pub fn validate_global_substitutions(iter: &mut TokenIter) -> (r: Result<SubstitutionGroup, Error>)
    requires
        old(iter).wf(),
    ensures
        final(iter).wf(),
        match r {
            Result::Ok(g) => {
                &&& g.wf()
                &&& parse_globals(old(iter).rest(), Seq::empty()) == Result::<
                    (GroupM, Seq<TokTree>),
                    ErrM,
                >::Ok((g.model(), final(iter).rest()))
            },
            Result::Err(e) => parse_globals(old(iter).rest(), Seq::empty()) == Result::<
                (GroupM, Seq<TokTree>),
                ErrM,
            >::Err(e@),
        },
{
    let ghost orig = old(iter).rest();
    let mut group = SubstitutionGroup::new();
    loop
        invariant
            iter.wf(),
            group.wf(),
            parse_globals(orig, Seq::empty()) == parse_globals(iter.rest(), group.model()),
        decreases iter.rest().len(),
    {
        let ghost before = iter.rest();
        match extract_inline_substitution(iter) {
            Result::Err(_) => {
                return Result::Ok(group);
            },
            Result::Ok((name, span, sub)) => {
                let ghost namem = name@;
                match group.add_substitution(name, span, sub) {
                    Result::Err(e) => {
                        return Result::Err(e);
                    },
                    Result::Ok(()) => {},
                }
                if iter.has_next() {
                    let ghost mid = iter.rest();
                    match iter.expect_semicolon() {
                        Result::Ok(()) => {},
                        Result::Err(e) => {
                            return Result::Err(
                                e.hint(crate::pretty_errors::global_sub_semicolon_text()),
                            );
                        },
                    }
                } else {
                    return Result::Ok(group);
                }
            },
        }
    }
}

/// Parses an invocation that consists of global substitutions alone; any
/// token following them is an error.
pub fn parse_global_substitutions_only(attr: &Vec<Token>) -> (r: Result<SubstitutionGroup, Error>)
    ensures
        match r {
            Result::Ok(g) => {
                &&& g.wf()
                &&& parse_globals_only(toks_deep(attr@)) == Result::<GroupM, ErrM>::Ok(g.model())
            },
            Result::Err(e) => parse_globals_only(toks_deep(attr@)) == Result::<GroupM, ErrM>::Err(
                e@,
            ),
        },
{
    let mut iter = TokenIter::new(crate::tokens::clone_tokens(attr));
    let group = match validate_global_substitutions(&mut iter) {
        Result::Ok(g) => g,
        Result::Err(e) => {
            return Result::Err(e);
        },
    };
    proof {
        lemma_parse_globals_stops(toks_deep(attr@), Seq::empty());
    }
    if iter.has_next() {
        match extract_inline_substitution(&mut iter) {
            Result::Err(e) => Result::Err(e),
            Result::Ok(_) => {
                proof {
                    assert(false);
                }
                Result::Err(Error::new(""))
            },
        }
    } else {
        Result::Ok(group)
    }
}

/// A successful scan of the global substitutions stops only at the end of
/// the tokens or at an entry that does not parse.
pub proof fn lemma_parse_globals_stops(toks: Seq<TokTree>, acc: GroupM)
    ensures
        parse_globals(toks, acc) matches Result::Ok((g, rest)) ==> rest.len() == 0
            || extract_inline(rest) is Err,
    decreases toks.len(),
{
    lemma_extract_inline_remaining(toks);
    match extract_inline(toks) {
        Result::Err(_) => {},
        Result::Ok(((name, span, sub), rest)) => {
            if !(lookup(acc, name) is Some) && rest.len() > 0 && spec_punct_is_char(rest[0], ';') {
                lemma_parse_globals_stops(rest.drop_first(), acc.push((name, sub)));
            }
        },
    }
}

/// The models of a list of declared identifier / argument count pairs.
pub open spec fn pairs_deep(s: Seq<(String, usize)>) -> Seq<(Seq<char>, nat)> {
    Seq::new(s.len(), |i: int| (s[i].0@, s[i].1 as nat))
}

/// The model of an optional expected identifier set.
pub open spec fn opt_pairs_deep(o: Option<Vec<(String, usize)>>) -> Option<
    Seq<(Seq<char>, nat)>,
> {
    match o {
        Option::Some(v) => Option::Some(pairs_deep(v@)),
        Option::None => Option::None,
    }
}

/// In a group with distinct names, holding a pair means the lookup finds a
/// substitution with that argument count.
pub proof fn lemma_contains_lookup(g: GroupM, n: Seq<char>, c: nat)
    requires
        crate::substitute::distinct_names(g),
    ensures
        pairs_contains(idents_with_args(g), (n, c)) <==> (lookup(g, n) matches Option::Some(s)
            && s.count == c),
{
    if pairs_contains(idents_with_args(g), (n, c)) {
        let i = choose|i: int|
            0 <= i < idents_with_args(g).len() && idents_with_args(g)[i] == (n, c);
        assert forall|j: int| 0 <= j < i implies g[j].0 != n by {
            assert(g[j].0 != g[i].0);
        }
        crate::substitute::lemma_lookup_found(g, n, i);
    }
    if lookup(g, n) is Some {
        crate::substitute::lemma_lookup_some_member(g, n);
        let i = choose|i: int|
            0 <= i < g.len() && g[i].0 == n && lookup(g, n) == Option::Some(g[i].1);
        if g[i].1.count == c {
            assert(idents_with_args(g)[i] == (n, c));
        }
    }
}

/// Looks the given name up in the expected pair list: whether the name
/// occurs at all, and whether it occurs with exactly the given count.
fn pairs_probe(expected: &Vec<(String, usize)>, name: &String, count: usize) -> (r: (bool, bool))
    ensures
        r.0 == pairs_contains_name(pairs_deep(expected@), name@),
        r.1 == pairs_contains(pairs_deep(expected@), (name@, count as nat)),
{
    let ghost exp = pairs_deep(expected@);
    let mut found_name: bool = false;
    let mut found_exact: bool = false;
    let mut i: usize = 0;
    while i < expected.len()
        invariant
            i <= expected@.len(),
            exp == pairs_deep(expected@),
            exp.len() == expected@.len(),
            found_name ==> pairs_contains_name(exp, name@),
            !found_name ==> forall|j: int| 0 <= j < i ==> #[trigger] exp[j].0 != name@,
            found_exact ==> pairs_contains(exp, (name@, count as nat)),
            !found_exact ==> forall|j: int| 0 <= j < i ==> #[trigger] exp[j] != (
                name@,
                count as nat,
            ),
        decreases expected@.len() - i,
    {
        proof {
            assert(exp[i as int].0 == expected@[i as int].0@);
            assert(exp[i as int].1 == expected@[i as int].1 as nat);
        }
        if expected[i].0 == *name {
            found_name = true;
            if expected[i].1 == count {
                found_exact = true;
                proof {
                    assert(exp[i as int] == (name@, count as nat));
                }
            }
        }
        i = i + 1;
    }
    (found_name, found_exact)
}

/// Collects the expected identifiers the group does not assign, in the
/// expected order.
#[verifier::loop_isolation(false)]
fn compute_missing(expected: &Vec<(String, usize)>, found: &SubstitutionGroup) -> (r: Vec<String>)
    requires
        found.wf(),
    ensures
        crate::substitute::strings_deep(r@) == missing_idents(pairs_deep(expected@), found.model()),
{
    let ghost exp = pairs_deep(expected@);
    let ghost g = found.model();
    let mut missing: Vec<String> = Vec::new();
    proof {
        assert(exp.skip(0) =~= exp);
        assert(crate::substitute::strings_deep(missing@) + missing_idents(exp, g) =~= missing_idents(
            exp,
            g,
        ));
    }
    let mut i: usize = 0;
    while i < expected.len()
        invariant
            i <= expected@.len(),
            missing_idents(exp, g) == crate::substitute::strings_deep(missing@) + missing_idents(
                exp.skip(i as int),
                g,
            ),
        decreases expected@.len() - i,
    {
        let ghost before = crate::substitute::strings_deep(missing@);
        proof {
            assert(exp.skip(i as int).drop_first() =~= exp.skip(i + 1 as int));
            assert(exp.skip(i as int)[0] == exp[i as int]);
        }
        let in_group = match found.substitution_of(&expected[i].0) {
            Option::Some(s) => s.argument_count() == expected[i].1,
            Option::None => false,
        };
        proof {
            lemma_contains_lookup(g, expected@[i as int].0@, expected@[i as int].1 as nat);
        }
        if !in_group {
            missing.push(expected[i].0.clone());
            proof {
                assert(crate::substitute::strings_deep(missing@) =~= before.push(
                    expected@[i as int].0@,
                ));
                assert forall|rest2: Seq<Seq<char>>| #[trigger] (seq![expected@[i as int].0@]
                    + rest2).len() >= 0 implies before + (seq![expected@[i as int].0@] + rest2)
                    =~= before.push(expected@[i as int].0@) + rest2 by {}
            }
        }
        i = i + 1;
    }
    proof {
        assert(exp.skip(expected@.len() as int) =~= Seq::<(Seq<char>, nat)>::empty());
        assert(crate::substitute::strings_deep(missing@) + Seq::<Seq<char>>::empty()
            =~= crate::substitute::strings_deep(missing@));
    }
    missing
}

/// The names of a prefix, one longer, carry one more name.
proof fn lemma_missing_names_snoc(m: Seq<Seq<char>>, i: int)
    requires
        0 <= i < m.len(),
    ensures
        missing_names(m.take(i + 1)) == missing_names(m.take(i)) + (" '"@ + m[i] + "'"@),
    decreases i,
{
    if i == 0 {
        assert(m.take(1)[0] == m[0]);
        assert(m.take(1).drop_first() =~= Seq::<Seq<char>>::empty());
        assert(missing_names(m.take(1)) == " '"@ + m.take(1)[0] + "'"@ + missing_names(
            m.take(1).drop_first(),
        ));
        assert(missing_names(Seq::<Seq<char>>::empty()) == Seq::<char>::empty());
        assert(m.take(0) =~= Seq::<Seq<char>>::empty());
        assert((" '"@ + m[0] + "'"@ + Seq::<char>::empty()) =~= Seq::<char>::empty() + (" '"@
            + m[0] + "'"@));
        assert(missing_names(m.take(1)) =~= missing_names(m.take(0)) + (" '"@ + m[0] + "'"@));
    } else {
        assert(m.take(i + 1)[0] == m[0]);
        assert(m.take(i)[0] == m[0]);
        assert(m.take(i + 1).drop_first() =~= m.drop_first().take(i));
        assert(m.take(i).drop_first() =~= m.drop_first().take(i - 1));
        assert(m.drop_first()[i - 1] == m[i]);
        lemma_missing_names_snoc(m.drop_first(), i - 1);
        assert((" '"@ + m[0] + "'"@) + (missing_names(m.drop_first().take(i - 1)) + (" '"@ + m[i]
            + "'"@)) =~= ((" '"@ + m[0] + "'"@) + missing_names(m.drop_first().take(i - 1))) + (
        " '"@ + m[i] + "'"@));
    }
}

/// Builds the hint that lists the identifiers a verbose group is missing.
#[verifier::loop_isolation(false)]
fn missing_hint_string(missing: &Vec<String>) -> (r: String)
    ensures
        r@ == missing_hint(crate::substitute::strings_deep(missing@)),
{
    let ghost m = crate::substitute::strings_deep(missing@);
    let mut s: String = "Missing substitution for:".to_owned();
    let mut i: usize = 0;
    while i < missing.len()
        invariant
            i <= missing@.len(),
            s@ == "Missing substitution for:"@ + missing_names(m.take(i as int)),
        decreases missing@.len() - i,
    {
        proof {
            lemma_missing_names_snoc(m, i as int);
        }
        s.append(" '");
        s.append(missing[i].as_str());
        s.append("'");
        proof {
            assert(s@ =~= "Missing substitution for:"@ + missing_names(m.take(i + 1 as int)));
        }
        i = i + 1;
    }
    proof {
        assert(m.take(missing@.len() as int) =~= m);
    }
    s.append("\n");
    s.append(crate::pretty_errors::verbose_syntax_substitution_identifiers_text());
    proof {
        assert(s@ =~= missing_hint(m));
    }
    s
}

/// Extracts one substitution group in the verbose syntax from the body of
/// its bracketed group. The first group parses freely; each later one must
/// supply exactly the expected identifier set.
#[verifier::loop_isolation(false)]
pub fn extract_verbose_substitutions(
    body: TokenIter,
    gspan: usize,
    expected: &Option<Vec<(String, usize)>>,
) -> (r: Result<SubstitutionGroup, Error>)
    requires
        body.wf(),
    ensures
        match r {
            Result::Ok(g) => {
                &&& g.wf()
                &&& verbose_group(body.rest(), gspan as int, opt_pairs_deep(*expected))
                    == Result::<GroupM, ErrM>::Ok(g.model())
            },
            Result::Err(e) => verbose_group(body.rest(), gspan as int, opt_pairs_deep(*expected))
                == Result::<GroupM, ErrM>::Err(e@),
        },
{
    let ghost orig = body.rest();
    let ghost exp = opt_pairs_deep(*expected);
    if !body.has_next() {
        return Result::Err(Error::new("No substitution groups found.").span(gspan));
    }
    let mut stream = body;
    let mut substitutions = SubstitutionGroup::new();
    loop
        invariant
            stream.wf(),
            substitutions.wf(),
            verbose_entries(orig, gspan as int, exp, Seq::empty()) == verbose_entries(
                stream.rest(),
                gspan as int,
                exp,
                substitutions.model(),
            ),
        decreases stream.rest().len(),
    {
        if !stream.has_next() {
            match expected {
                Option::Some(expv) => {
                    let missing = compute_missing(expv, &substitutions);
                    if missing.len() > 0 {
                        let hint = missing_hint_string(&missing);
                        return Result::Err(
                            Error::new("Incomplete substitution group.").span(gspan).hint_string(
                                hint,
                            ),
                        );
                    }
                },
                Option::None => {},
            }
            return Result::Ok(substitutions);
        }
        let semi_next = stream.has_next_semicolon();
        let ghost before = stream.rest();
        match extract_inline_substitution(&mut stream) {
            Result::Err(e) => {
                if semi_next {
                    return Result::Err(
                        e.hint(crate::pretty_errors::verbose_semicolon_text()),
                    );
                } else {
                    return Result::Err(e);
                }
            },
            Result::Ok((name, span, sub)) => {
                match expected {
                    Option::Some(expv) => {
                        if expv.len() > 0 {
                            let (found_name, found_exact) = pairs_probe(
                                expv,
                                &name,
                                sub.argument_count(),
                            );
                            if !found_exact {
                                if found_name {
                                    return Result::Err(
                                        Error::new(
                                            "Wrong argument count for substitution identifier.",
                                        ).span(span).hint(
                                            crate::pretty_errors::verbose_syntax_substitution_identifiers_args_text(),
                                        ),
                                    );
                                } else {
                                    return Result::Err(
                                        Error::new("Unexpected substitution identifier.").span(
                                            span,
                                        ).hint(
                                            crate::pretty_errors::verbose_syntax_substitution_identifiers_text(),
                                        ),
                                    );
                                }
                            }
                        }
                    },
                    Option::None => {},
                }
                match substitutions.add_substitution(name, span, sub) {
                    Result::Err(e) => {
                        return Result::Err(e);
                    },
                    Result::Ok(()) => {},
                }
            },
        }
    }
}

/// Validates that an invocation uses the verbose syntax and parses all its
/// substitution groups.
///
/// Hands back nothing, consuming nothing, when the tokens do not start
/// with a bracketed group: the invocation is not verbose.
#[verifier::loop_isolation(false)]
pub fn validate_verbose_invocation(iter: &mut TokenIter) -> (r: Result<
    Option<Vec<SubstitutionGroup>>,
    Error,
>)
    requires
        old(iter).wf(),
    ensures
        final(iter).wf(),
        match r {
            Result::Ok(opt) => match opt {
                Option::Some(gs) => {
                    &&& groups_wf(gs@)
                    &&& old(iter).rest().len() > 0 && (old(iter).rest()[0] matches TokTree::Group {
                        delim: Delim::Bracket,
                        ..
                    })
                    &&& parse_verbose_groups(old(iter).rest(), Option::None) == Result::<
                        Seq<GroupM>,
                        ErrM,
                    >::Ok(groups_deep(gs@))
                },
                Option::None => {
                    &&& !(old(iter).rest().len() > 0 && (old(iter).rest()[0] matches TokTree::Group {
                        delim: Delim::Bracket,
                        ..
                    }))
                    &&& *final(iter) == *old(iter)
                },
            },
            Result::Err(e) => {
                &&& old(iter).rest().len() > 0 && (old(iter).rest()[0] matches TokTree::Group {
                    delim: Delim::Bracket,
                    ..
                })
                &&& parse_verbose_groups(old(iter).rest(), Option::None) == Result::<
                    Seq<GroupM>,
                    ErrM,
                >::Err(e@)
            },
        },
{
    let ghost orig = old(iter).rest();
    let first_is_bracket = match iter.peek() {
        Option::Some(Token::Group(Delim::Bracket, _, _)) => true,
        _ => false,
    };
    if !first_is_bracket {
        return Result::Ok(Option::None);
    }
    let mut sub_groups: Vec<SubstitutionGroup> = Vec::new();
    let mut expected: Option<Vec<(String, usize)>> = Option::None;
    loop
        invariant
            iter.wf(),
            groups_wf(sub_groups@),
            parse_verbose_groups(orig, Option::None) == (match parse_verbose_groups(
                iter.rest(),
                opt_pairs_deep(expected),
            ) {
                Result::Ok(rest) => Result::<Seq<GroupM>, ErrM>::Ok(
                    groups_deep(sub_groups@) + rest,
                ),
                Result::Err(e) => Result::<Seq<GroupM>, ErrM>::Err(e),
            }),
        decreases iter.rest().len(),
    {
        let ghost before = iter.rest();
        if !iter.has_next() {
            proof {
                assert(groups_deep(sub_groups@) + Seq::<GroupM>::empty() =~= groups_deep(
                    sub_groups@,
                ));
            }
            return Result::Ok(Option::Some(sub_groups));
        }
        let (body_iter, span) = match iter.next_group(Option::Some(Delim::Bracket)) {
            Result::Ok(p) => p,
            Result::Err(e) => {
                return Result::Err(e.hint(crate::pretty_errors::verbose_group_hint_text()));
            },
        };
        let g = match extract_verbose_substitutions(body_iter, span, &expected) {
            Result::Ok(g) => g,
            Result::Err(e) => {
                return Result::Err(e);
            },
        };
        let ghost gm = g.model();
        let ghost groups_before = groups_deep(sub_groups@);
        if expected.is_none() {
            let ia = g.identifiers_with_args();
            proof {
                assert(pairs_deep(ia@) =~= idents_with_args(gm));
            }
            expected = Option::Some(ia);
        }
        sub_groups.push(g);
        proof {
            assert(groups_deep(sub_groups@) =~= groups_before.push(gm));
            assert forall|rest2: Seq<GroupM>| #[trigger] (seq![gm] + rest2).len()
                >= 0 implies groups_before + (seq![gm] + rest2) =~= groups_before.push(gm)
                + rest2 by {}
        }
    }
}

/// The models of parsed short-syntax identifier declarations.
pub open spec fn short_idents_deep(v: Seq<(String, usize, Vec<String>)>) -> Seq<ShortIdent> {
    Seq::new(
        v.len(),
        |i: int| (v[i].0@, v[i].1 as int, crate::substitute::strings_deep(v[i].2@)),
    )
}

/// The models of parsed short-syntax substitution rows.
pub open spec fn rows_deep(v: Seq<Vec<Vec<Token>>>) -> Seq<Seq<Seq<TokTree>>> {
    Seq::new(v.len(), |i: int| crate::substitute::args_deep(v[i]@))
}

/// Assuming the short syntax, parses the initial row of identifier
/// declarations, ended by a semicolon.
#[verifier::loop_isolation(false)]
pub fn validate_short_get_identifiers(iter: &mut TokenIter) -> (r: Result<
    Vec<(String, usize, Vec<String>)>,
    Error,
>)
    requires
        old(iter).wf(),
    ensures
        final(iter).wf(),
        match r {
            Result::Ok(v) => {
                &&& short_idents(old(iter).rest(), Seq::empty()) == Result::<
                    (Seq<ShortIdent>, Seq<TokTree>),
                    ErrM,
                >::Ok((short_idents_deep(v@), final(iter).rest()))
                &&& old(iter).rest().len() > final(iter).rest().len()
                &&& final(iter).last() == span_of(
                    old(iter).rest()[old(iter).rest().len() - final(iter).rest().len() - 1],
                )
            },
            Result::Err(e) => short_idents(old(iter).rest(), Seq::empty()) == Result::<
                (Seq<ShortIdent>, Seq<TokTree>),
                ErrM,
            >::Err(e@),
        },
{
    let ghost orig = old(iter).rest();
    let mut result: Vec<(String, usize, Vec<String>)> = Vec::new();
    proof {
        assert(short_idents_deep(result@) =~= Seq::<ShortIdent>::empty());
    }
    loop
        invariant
            iter.wf(),
            orig.len() >= iter.rest().len(),
            iter.rest() == orig.skip(orig.len() - iter.rest().len()),
            short_idents(orig, Seq::empty()) == short_idents(
                iter.rest(),
                short_idents_deep(result@),
            ),
            orig.len() > iter.rest().len() ==> iter.last() == span_of(
                orig[orig.len() - iter.rest().len() - 1],
            ),
        decreases iter.rest().len(),
    {
        let ghost before = iter.rest();
        let ghost accm = short_idents_deep(result@);
        let is_id = match iter.peek() {
            Option::Some(t) => crate::tokens::is_ident(t, Option::None),
            Option::None => false,
        };
        let is_semi = iter.has_next_semicolon();
        if is_id {
            let (name, span) = match iter.extract_identifier(Option::None) {
                Result::Ok(p) => p,
                Result::Err(e) => {
                    proof {
                        assert(false);
                    }
                    return Result::Err(e);
                },
            };
            let ghost namem = name@;
            proof {
                assert(before[0] == (TokTree::Ident { name: namem, span: span as int }));
            }
            let mut params: Vec<String> = Vec::new();
            let mut has_params: bool = false;
            let pbody_c: Vec<Token> = match iter.peek() {
                Option::Some(Token::Group(Delim::Paren, b, _)) => {
                    has_params = true;
                    crate::tokens::clone_tokens(b)
                },
                _ => Vec::new(),
            };
            if has_params {
                proof {
                    assert(before.drop_first()[0] == before[1]);
                    assert(before[1] matches TokTree::Group { delim: Delim::Paren, body, .. }
                        && body == toks_deep(pbody_c@));
                }
                params = match extract_argument_list(TokenIter::new(pbody_c)) {
                    Result::Ok(p) => p,
                    Result::Err(e) => {
                        return Result::Err(e);
                    },
                };
                let _consumed = iter.next();
                proof {
                    assert(iter.rest() =~= before.skip(2));
                }
            }
            let ghost paramsm = crate::substitute::strings_deep(params@);
            proof {
                if has_params {
                    assert(short_idents(before, accm) == short_idents(
                        before.skip(2),
                        accm.push((namem, span as int, paramsm)),
                    ));
                } else {
                    assert(paramsm =~= Seq::<Seq<char>>::empty());
                    assert(short_idents(before, accm) == short_idents(
                        before.drop_first(),
                        accm.push((namem, span as int, paramsm)),
                    ));
                }
            }
            result.push((name, span, params));
            proof {
                assert(short_idents_deep(result@) =~= accm.push(
                    (namem, span as int, paramsm),
                ));
                assert(iter.rest() =~= orig.skip(orig.len() - iter.rest().len()));
            }
        } else if is_semi && result.len() > 0 {
            let _consumed = iter.next();
            proof {
                assert(orig.skip(orig.len() - before.len())[0] == orig[orig.len() - before.len()]);
                assert(iter.rest() =~= orig.skip(orig.len() - iter.rest().len()));
            }
            return Result::Ok(result);
        } else {
            let expected: &str = if result.len() == 0 {
                crate::pretty_errors::no_invocation_text()
            } else {
                "substitution_identifier or ';'"
            };
            let mut msg: &str = "Unexpected end of code.";
            let mut span: usize = SYNTHETIC_SPAN;
            match iter.peek() {
                Option::Some(t) => {
                    match t {
                        Token::Group(_, _, _) => {
                            msg = "Unexpected delimiter.";
                        },
                        _ => {
                            msg = "Unexpected token.";
                        },
                    }
                    span = t.span();
                },
                Option::None => {},
            }
            let mut hint: String = "Expected ".to_owned();
            hint.append(expected);
            hint.append(".");
            return Result::Err(Error::new(msg).hint_string(hint).span(span));
        }
    }
}

/// Assuming the short syntax, parses the semicolon-separated rows of
/// bracketed substitutions, one bracket group per declared identifier in
/// each row.
#[verifier::loop_isolation(false)]
pub fn validate_short_get_all_substitution_goups(iter: TokenIter, n: usize) -> (r: Result<
    Vec<Vec<Vec<Token>>>,
    Error,
>)
    requires
        iter.wf(),
    ensures
        match r {
            Result::Ok(rows) => {
                &&& short_rows(iter.rest(), n as nat, iter.last()) == Result::<
                    Seq<Seq<Seq<TokTree>>>,
                    ErrM,
                >::Ok(rows_deep(rows@))
                &&& forall|i: int| 0 <= i < rows@.len() ==> (#[trigger] rows@[i])@.len() == n
            },
            Result::Err(e) => short_rows(iter.rest(), n as nat, iter.last()) == Result::<
                Seq<Seq<Seq<TokTree>>>,
                ErrM,
            >::Err(e@),
        },
{
    let ghost orig = iter.rest();
    let ghost last0 = iter.last();
    let mut cur = iter;
    let mut rows: Vec<Vec<Vec<Token>>> = Vec::new();
    loop
        invariant
            cur.wf(),
            forall|i: int| 0 <= i < rows@.len() ==> (#[trigger] rows@[i])@.len() == n,
            short_rows(orig, n as nat, last0) == (match short_rows(
                cur.rest(),
                n as nat,
                cur.last(),
            ) {
                Result::Ok(rest) => Result::<Seq<Seq<Seq<TokTree>>>, ErrM>::Ok(
                    rows_deep(rows@) + rest,
                ),
                Result::Err(e) => Result::<Seq<Seq<Seq<TokTree>>>, ErrM>::Err(e),
            }),
        decreases cur.rest().len(),
    {
        if !cur.has_next() {
            proof {
                assert(rows_deep(rows@) + Seq::<Seq<Seq<TokTree>>>::empty() =~= rows_deep(rows@));
            }
            return Result::Ok(rows);
        }
        let ghost row_start = cur.rest();
        let ghost row_last = cur.last();
        let mut row: Vec<Vec<Token>> = Vec::new();
        let mut j: usize = 0;
        proof {
            assert(crate::substitute::args_deep(row@) + Seq::<Seq<TokTree>>::empty()
                =~= crate::substitute::args_deep(row@));
        }
        while j < n
            invariant
                cur.wf(),
                j <= n,
                row@.len() == j,
                cur.rest().len() + j == row_start.len(),
                short_row(row_start, n as nat, row_last) == (match short_row(
                    cur.rest(),
                    (n - j) as nat,
                    cur.last(),
                ) {
                    Result::Ok((subs, rest, l)) => Result::<
                        (Seq<Seq<TokTree>>, Seq<TokTree>, int),
                        ErrM,
                    >::Ok((crate::substitute::args_deep(row@) + subs, rest, l)),
                    Result::Err(e) => Result::<
                        (Seq<Seq<TokTree>>, Seq<TokTree>, int),
                        ErrM,
                    >::Err(e),
                }),
            decreases n - j,
        {
            let semi = cur.has_next_semicolon();
            let ghost before = cur.rest();
            let (giter, _gspan) = match cur.next_group(Option::Some(Delim::Bracket)) {
                Result::Ok(p) => p,
                Result::Err(e) => {
                    if semi {
                        return Result::Err(
                            e.hint(crate::pretty_errors::short_syntax_substitution_count_text()),
                        );
                    } else {
                        return Result::Err(
                            e.hint(
                                crate::pretty_errors::short_syntax_missing_sub_bracket_text(),
                            ),
                        );
                    }
                },
            };
            let ghost rowm_before = crate::substitute::args_deep(row@);
            let sub_toks = giter.to_token_stream();
            let ghost subm = toks_deep(sub_toks@);
            row.push(sub_toks);
            proof {
                assert(crate::substitute::args_deep(row@) =~= rowm_before.push(subm));
                assert forall|rest2: Seq<Seq<TokTree>>| #[trigger] (seq![subm] + rest2).len()
                    >= 0 implies rowm_before + (seq![subm] + rest2) =~= rowm_before.push(subm)
                    + rest2 by {}
            }
            j = j + 1;
        }
        let ghost rows_before = rows_deep(rows@);
        let ghost rowm = crate::substitute::args_deep(row@);
        proof {
            assert(rowm + Seq::<Seq<TokTree>>::empty() =~= rowm);
        }
        if cur.has_next() {
            let is_bracket = match cur.peek() {
                Option::Some(Token::Group(Delim::Bracket, _, _)) => true,
                _ => false,
            };
            if is_bracket {
                let span = match cur.peek() {
                    Option::Some(t) => t.span(),
                    Option::None => SYNTHETIC_SPAN,
                };
                return Result::Err(
                    Error::new("Unexpected delimiter.").span(span).hint(
                        crate::pretty_errors::short_syntax_substitution_count_text(),
                    ),
                );
            }
            match cur.expect_semicolon() {
                Result::Ok(()) => {},
                Result::Err(e) => {
                    return Result::Err(e);
                },
            }
            rows.push(row);
            proof {
                assert(rows_deep(rows@) =~= rows_before.push(rowm));
                assert forall|rest2: Seq<Seq<Seq<TokTree>>>| #[trigger] (seq![rowm] + rest2).len()
                    >= 0 implies rows_before + (seq![rowm] + rest2) =~= rows_before.push(rowm)
                    + rest2 by {}
            }
        } else {
            rows.push(row);
            proof {
                assert(rows_deep(rows@) =~= rows_before.push(rowm));
                assert(rows_before + seq![rowm] =~= rows_before.push(rowm));
            }
            return Result::Ok(rows);
        }
    }
}

/// Validates an invocation that uses the short syntax and returns its
/// per-duplicate substitution groups.
#[verifier::loop_isolation(false)]
pub fn validate_short_attr(iter: TokenIter) -> (r: Result<Vec<SubstitutionGroup>, Error>)
    requires
        iter.wf(),
    ensures
        match r {
            Result::Ok(gs) => {
                &&& groups_wf(gs@)
                &&& gs@.len() > 0
                &&& parse_short(iter.rest()) == Result::<Seq<GroupM>, ErrM>::Ok(groups_deep(gs@))
            },
            Result::Err(e) => parse_short(iter.rest()) == Result::<Seq<GroupM>, ErrM>::Err(e@),
        },
{
    let ghost orig = iter.rest();
    let mut it = iter;
    let idents = match validate_short_get_identifiers(&mut it) {
        Result::Ok(v) => v,
        Result::Err(e) => {
            return Result::Err(e);
        },
    };
    let ghost identsm = short_idents_deep(idents@);
    let rows = match validate_short_get_all_substitution_goups(it, idents.len()) {
        Result::Ok(v) => v,
        Result::Err(e) => {
            return Result::Err(e);
        },
    };
    let ghost rowsm = rows_deep(rows@);
    if rows.len() == 0 {
        return Result::Err(
            Error::new("No substitution groups.").hint(
                crate::pretty_errors::short_syntax_no_groups_text(),
            ),
        );
    }
    let mut groups: Vec<SubstitutionGroup> = Vec::new();
    let mut idx: usize = 0;
    while idx < rows.len()
        invariant
            groups@.len() == idx,
            idx <= rows@.len(),
            forall|k: int| 0 <= k < idx ==> (#[trigger] groups@[k]).wf(),
            forall|k: int|
                0 <= k < idx ==> (#[trigger] groups@[k]).model() == short_group(
                    identsm,
                    rowsm[k],
                ),
            idx > 0 ==> short_idents_distinct(identsm),
        decreases rows@.len() - idx,
    {
        let mut group = SubstitutionGroup::new();
        let mut i: usize = 0;
        proof {
            assert(group.model() =~= short_group(identsm, rowsm[idx as int]).take(0));
        }
        while i < idents.len()
            invariant
                0 <= idx < rows@.len(),
                group.wf(),
                i <= idents@.len(),
                group.model() == short_group(identsm, rowsm[idx as int]).take(i as int),
            decreases idents@.len() - i,
        {
            let sub = Substitution::new(&idents[i].2, &rows[idx][i]);
            let name = idents[i].0.clone();
            let ghost gm_before = group.model();
            match group.add_substitution(name, SYNTHETIC_SPAN, sub) {
                Result::Ok(()) => {
                    proof {
                        assert(group.model() =~= short_group(identsm, rowsm[idx as int]).take(
                            i + 1 as int,
                        ));
                    }
                },
                Result::Err(e) => {
                    proof {
                        crate::substitute::lemma_lookup_some_member(gm_before, identsm[i as int].0);
                        assert(!short_idents_distinct(identsm));
                    }
                    return Result::Err(e);
                },
            }
            i = i + 1;
        }
        proof {
            assert(group.model() =~= short_group(identsm, rowsm[idx as int]));
            if idx == 0 {
                assert forall|i1: int, i2: int|
                    0 <= i1 < i2 < identsm.len() implies identsm[i1].0 != identsm[i2].0 by {
                    assert(group.model()[i1].0 == identsm[i1].0);
                    assert(group.model()[i2].0 == identsm[i2].0);
                }
            }
        }
        groups.push(group);
        idx = idx + 1;
    }
    proof {
        assert(groups_deep(groups@) =~= short_groups(identsm, rowsm));
    }
    Result::Ok(groups)
}

/// Parses the invocation, returning all the substitutions that should be
/// made to the target fragment: the global group, which applies uniformly
/// to every duplicate, and one group per duplicate.
pub fn parse_invocation(attr: &Vec<Token>) -> (r: Result<DuplicationDefinition, Error>)
    ensures
        match r {
            Result::Ok(def) => {
                &&& def.global_substitutions.wf()
                &&& groups_wf(def.duplications@)
                &&& parse_invocation_model(toks_deep(attr@)) == Result::<DefM, ErrM>::Ok(
                    (def.global_substitutions.model(), groups_deep(def.duplications@)),
                )
            },
            Result::Err(e) => parse_invocation_model(toks_deep(attr@)) == Result::<DefM, ErrM>::Err(
                e@,
            ),
        },
{
    let mut iter = TokenIter::new(crate::tokens::clone_tokens(attr));
    let globals = match validate_global_substitutions(&mut iter) {
        Result::Ok(g) => g,
        Result::Err(e) => {
            return Result::Err(e);
        },
    };
    if !iter.has_next() && !globals.is_empty() {
        let duplications: Vec<SubstitutionGroup> = Vec::new();
        proof {
            assert(groups_deep(duplications@) =~= Seq::<GroupM>::empty());
        }
        return Result::Ok(DuplicationDefinition { global_substitutions: globals, duplications });
    }
    match validate_verbose_invocation(&mut iter) {
        Result::Err(e) => Result::Err(e),
        Result::Ok(Option::Some(gs)) => Result::Ok(
            DuplicationDefinition { global_substitutions: globals, duplications: gs },
        ),
        Result::Ok(Option::None) => {
            match validate_short_attr(iter) {
                Result::Ok(gs) => Result::Ok(
                    DuplicationDefinition { global_substitutions: globals, duplications: gs },
                ),
                Result::Err(e) => Result::Err(e),
            }
        },
    }
}

// ---------------------------------------------------------------------------
// Laws
// ---------------------------------------------------------------------------
/// One more entry adds one more identifier.
proof fn lemma_idents_push(g: GroupM, n: Seq<char>, s: SubM)
    ensures
        idents_with_args(g.push((n, s))) == idents_with_args(g).push((n, s.count)),
{
    assert(idents_with_args(g.push((n, s))) =~= idents_with_args(g).push((n, s.count)));
}

/// A pushed pair list holds exactly the old pairs and the new one.
proof fn lemma_contains_push(s: Seq<(Seq<char>, nat)>, p: (Seq<char>, nat), q: (Seq<char>, nat))
    ensures
        pairs_contains(s.push(p), q) <==> (pairs_contains(s, q) || p == q),
{
    if pairs_contains(s.push(p), q) {
        let i = choose|i: int| 0 <= i < s.push(p).len() && s.push(p)[i] == q;
        if i < s.len() {
            assert(s[i] == q);
        }
    }
    if pairs_contains(s, q) {
        let i = choose|i: int| 0 <= i < s.len() && s[i] == q;
        assert(s.push(p)[i] == q);
    }
    if p == q {
        assert(s.push(p)[s.len() as int] == q);
    }
}

/// When nothing is missing, every expected pair is assigned.
proof fn lemma_missing_empty(expected: Seq<(Seq<char>, nat)>, found: GroupM)
    requires
        missing_idents(expected, found).len() == 0,
    ensures
        forall|j: int|
            0 <= j < expected.len() ==> pairs_contains(
                idents_with_args(found),
                #[trigger] expected[j],
            ),
    decreases expected.len(),
{
    if expected.len() > 0 {
        lemma_missing_empty(expected.drop_first(), found);
        assert forall|j: int|
            0 <= j < expected.len() implies pairs_contains(
            idents_with_args(found),
            #[trigger] expected[j],
        ) by {
            if j > 0 {
                assert(expected.drop_first()[j - 1] == expected[j]);
            }
        }
    }
}

/// Every identifier a validated verbose group assigns beyond the already
/// accumulated ones lies in the expected set, and nothing expected is
/// missing.
proof fn lemma_verbose_entries_set(
    body: Seq<TokTree>,
    gspan: int,
    exp: Seq<(Seq<char>, nat)>,
    acc: GroupM,
    g: GroupM,
)
    requires
        exp.len() > 0,
        verbose_entries(body, gspan, Option::Some(exp), acc) == Result::<GroupM, ErrM>::Ok(g),
    ensures
        forall|p: (Seq<char>, nat)|
            pairs_contains(#[trigger] idents_with_args(g), p) ==> pairs_contains(exp, p)
                || pairs_contains(idents_with_args(acc), p),
        missing_idents(exp, g).len() == 0,
    decreases body.len(),
{
    lemma_extract_inline_remaining(body);
    if body.len() == 0 {
        assert(g == acc);
    } else {
        match extract_inline(body) {
            Result::Ok(((name, span, sub), rest)) => {
                let acc2 = acc.push((name, sub));
                lemma_verbose_entries_set(rest, gspan, exp, acc2, g);
                lemma_idents_push(acc, name, sub);
                assert forall|p: (Seq<char>, nat)|
                    pairs_contains(#[trigger] idents_with_args(g), p) implies pairs_contains(
                    exp,
                    p,
                ) || pairs_contains(idents_with_args(acc), p) by {
                    lemma_contains_push(idents_with_args(acc), (name, sub.count), p);
                }
            },
            Result::Err(_) => {},
        }
    }
}

/// A validated verbose group assigns at least the already accumulated
/// identifiers.
proof fn lemma_verbose_entries_grows(
    body: Seq<TokTree>,
    gspan: int,
    exp: Option<Seq<(Seq<char>, nat)>>,
    acc: GroupM,
    g: GroupM,
)
    requires
        verbose_entries(body, gspan, exp, acc) == Result::<GroupM, ErrM>::Ok(g),
    ensures
        g.len() >= acc.len(),
        body.len() > 0 ==> g.len() > acc.len(),
    decreases body.len(),
{
    lemma_extract_inline_remaining(body);
    if body.len() > 0 {
        match extract_inline(body) {
            Result::Ok(((name, span, sub), rest)) => {
                lemma_verbose_entries_grows(rest, gspan, exp, acc.push((name, sub)), g);
            },
            Result::Err(_) => {},
        }
    }
}

/// A verbose group validated against an expected set assigns exactly that
/// set of identifiers and argument counts.
proof fn lemma_verbose_group_set(
    body: Seq<TokTree>,
    gspan: int,
    exp: Seq<(Seq<char>, nat)>,
    g: GroupM,
)
    requires
        exp.len() > 0,
        verbose_group(body, gspan, Option::Some(exp)) == Result::<GroupM, ErrM>::Ok(g),
    ensures
        forall|p: (Seq<char>, nat)|
            pairs_contains(#[trigger] idents_with_args(g), p) <==> pairs_contains(exp, p),
{
    lemma_verbose_entries_set(body, gspan, exp, Seq::empty(), g);
    lemma_missing_empty(exp, g);
    assert forall|p: (Seq<char>, nat)|
        pairs_contains(#[trigger] idents_with_args(g), p) <==> pairs_contains(exp, p) by {
        assert(idents_with_args(Seq::<(Seq<char>, SubM)>::empty()) =~= Seq::<
            (Seq<char>, nat),
        >::empty());
        if pairs_contains(exp, p) {
            let j = choose|j: int| 0 <= j < exp.len() && exp[j] == p;
        }
    }
}

/// Every group parsed against an expected set assigns exactly that set.
proof fn lemma_pvg_consistent(toks: Seq<TokTree>, exp: Seq<(Seq<char>, nat)>, gs: Seq<GroupM>)
    requires
        exp.len() > 0,
        parse_verbose_groups(toks, Option::Some(exp)) == Result::<Seq<GroupM>, ErrM>::Ok(gs),
    ensures
        forall|k: int, p: (Seq<char>, nat)|
            0 <= k < gs.len() ==> (#[trigger] pairs_contains(idents_with_args(gs[k]), p)
                <==> pairs_contains(exp, p)),
    decreases toks.len(),
{
    if toks.len() > 0 {
        match toks[0] {
            TokTree::Group { body, span, .. } => {
                match verbose_group(body, span, Option::Some(exp)) {
                    Result::Ok(g) => {
                        lemma_verbose_group_set(body, span, exp, g);
                        match parse_verbose_groups(toks.drop_first(), Option::Some(exp)) {
                            Result::Ok(rest) => {
                                lemma_pvg_consistent(toks.drop_first(), exp, rest);
                                assert forall|k: int, p: (Seq<char>, nat)|
                                    0 <= k < gs.len() implies (#[trigger] pairs_contains(
                                    idents_with_args(gs[k]),
                                    p,
                                ) <==> pairs_contains(exp, p)) by {
                                    if k == 0 {
                                        assert(gs[0] == g);
                                    } else {
                                        assert(gs[k] == rest[k - 1]);
                                    }
                                }
                            },
                            Result::Err(_) => {},
                        }
                    },
                    Result::Err(_) => {},
                }
            },
            _ => {},
        }
    }
}

/// LAW (verbose consistency): every group of a successfully parsed verbose
/// invocation assigns exactly the identifier and argument-count set of the
/// first group; a group that differs is rejected, naming the unexpected or
/// missing identifier.
pub proof fn lemma_verbose_consistency(toks: Seq<TokTree>, gs: Seq<GroupM>)
    requires
        parse_verbose_groups(toks, Option::None) == Result::<Seq<GroupM>, ErrM>::Ok(gs),
        gs.len() >= 1,
    ensures
        forall|k: int, p: (Seq<char>, nat)|
            0 <= k < gs.len() ==> (#[trigger] pairs_contains(idents_with_args(gs[k]), p)
                <==> pairs_contains(idents_with_args(gs[0]), p)),
{
    match toks[0] {
        TokTree::Group { body, span, .. } => {
            match verbose_group(body, span, Option::None) {
                Result::Ok(g) => {
                    lemma_verbose_entries_grows(body, span, Option::None, Seq::empty(), g);
                    let exp = idents_with_args(g);
                    match parse_verbose_groups(toks.drop_first(), Option::Some(exp)) {
                        Result::Ok(rest) => {
                            lemma_pvg_consistent(toks.drop_first(), exp, rest);
                            assert forall|k: int, p: (Seq<char>, nat)|
                                0 <= k < gs.len() implies (#[trigger] pairs_contains(
                                idents_with_args(gs[k]),
                                p,
                            ) <==> pairs_contains(idents_with_args(gs[0]), p)) by {
                                assert(gs[0] == g);
                                if k > 0 {
                                    assert(gs[k] == rest[k - 1]);
                                }
                            }
                        },
                        Result::Err(_) => {},
                    }
                },
                Result::Err(_) => {},
            }
        },
        _ => {},
    }
}

/// LAW (a mismatched entry is rejected where it stands): when the next
/// entry of a verbose group parses to a name and argument count outside the
/// expected set, validation fails at that entry's identifier: with "Wrong
/// argument count for substitution identifier." when the name is expected
/// with another count, and with "Unexpected substitution identifier." when
/// the name is not expected at all; each with its explanatory hint.
pub proof fn lemma_verbose_mismatch_rejected(
    body: Seq<TokTree>,
    gspan: int,
    exp: Seq<(Seq<char>, nat)>,
    acc: GroupM,
    name: Seq<char>,
    span: int,
    sub: SubM,
    rest: Seq<TokTree>,
)
    requires
        exp.len() > 0,
        extract_inline(body) == Result::<(InlineSub, Seq<TokTree>), ErrM>::Ok(
            ((name, span, sub), rest),
        ),
        !pairs_contains(exp, (name, sub.count)),
    ensures
        verbose_entries(body, gspan, Option::Some(exp), acc) == Result::<GroupM, ErrM>::Err(
            if pairs_contains_name(exp, name) {
                with_hint(
                    err_at("Wrong argument count for substitution identifier."@, span),
                    crate::pretty_errors::verbose_syntax_substitution_identifiers_args(),
                )
            } else {
                with_hint(
                    err_at("Unexpected substitution identifier."@, span),
                    crate::pretty_errors::verbose_syntax_substitution_identifiers(),
                )
            },
        ),
{
    lemma_extract_inline_remaining(body);
}

/// LAW (missing identifiers are named): when a verbose group's entries all
/// parse but at least one expected identifier is not assigned, validation
/// fails with "Incomplete substitution group." at the whole group, and the
/// hint names each missing identifier, in the expected order.
pub proof fn lemma_verbose_missing_rejected(
    gspan: int,
    exp: Seq<(Seq<char>, nat)>,
    acc: GroupM,
)
    requires
        missing_idents(exp, acc).len() > 0,
    ensures
        verbose_entries(Seq::empty(), gspan, Option::Some(exp), acc) == Result::<
            GroupM,
            ErrM,
        >::Err(
            with_hint(
                err_at("Incomplete substitution group."@, gspan),
                missing_hint(missing_idents(exp, acc)),
            ),
        ),
{
}

/// The identifiers the short syntax assigns do not depend on the row.
proof fn lemma_short_group_idents(idents: Seq<ShortIdent>, rowa: Seq<Seq<TokTree>>, rowb: Seq<
    Seq<TokTree>,
>)
    ensures
        idents_with_args(short_group(idents, rowa)) == idents_with_args(short_group(idents, rowb)),
{
    assert(idents_with_args(short_group(idents, rowa)) =~= idents_with_args(
        short_group(idents, rowb),
    ));
}

/// LAW (one identifier set per invocation): every per-duplicate group of a
/// successfully parsed invocation, in either syntax, assigns exactly the
/// identifier and argument-count set of the first group.
pub proof fn lemma_groups_share_identifiers(toks: Seq<TokTree>, def: DefM)
    requires
        parse_invocation_model(toks) == Result::<DefM, ErrM>::Ok(def),
        def.1.len() >= 1,
    ensures
        forall|k: int, p: (Seq<char>, nat)|
            0 <= k < def.1.len() ==> (#[trigger] pairs_contains(idents_with_args(def.1[k]), p)
                <==> pairs_contains(idents_with_args(def.1[0]), p)),
{
    match parse_globals(toks, Seq::empty()) {
        Result::Ok((globals, rest)) => {
            if rest.len() > 0 && (rest[0] matches TokTree::Group { delim: Delim::Bracket, .. }) {
                match parse_verbose_groups(rest, Option::None) {
                    Result::Ok(gs) => {
                        lemma_verbose_consistency(rest, gs);
                    },
                    Result::Err(_) => {},
                }
            } else {
                match parse_short(rest) {
                    Result::Ok(gs) => {
                        match short_idents(rest, Seq::empty()) {
                            Result::Ok((idents, rest2)) => {
                                match short_rows(
                                    rest2,
                                    idents.len(),
                                    span_of(rest[rest.len() - 1 - rest2.len()]),
                                ) {
                                    Result::Ok(rows) => {
                                        assert forall|k: int, p: (Seq<char>, nat)|
                                            0 <= k < gs.len() implies (#[trigger] pairs_contains(
                                            idents_with_args(gs[k]),
                                            p,
                                        ) <==> pairs_contains(idents_with_args(gs[0]), p)) by {
                                            lemma_short_group_idents(idents, rows[k], rows[0]);
                                            assert(gs[k] == short_group(idents, rows[k]));
                                            assert(gs[0] == short_group(idents, rows[0]));
                                        }
                                    },
                                    Result::Err(_) => {},
                                }
                            },
                            Result::Err(_) => {},
                        }
                    },
                    Result::Err(_) => {},
                }
            }
        },
        Result::Err(_) => {},
    }
}

} // verus!

