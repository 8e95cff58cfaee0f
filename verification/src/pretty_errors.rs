//! The hint texts attached to errors, each as a spec/exec pair so that
//! contracts and code speak of the same text.

use vstd::prelude::*;

verus! {

/// For when substitution parameters are not enclosed in brackets.
pub open spec fn bracket_sub_param() -> Seq<char> {
    "Hint: Substitution parameters should be enclosed in '[]' each.\nExample:\n    sub_ident( [ parameter1 ] , [ paramter2 ] )\n              ^^^          ^^^ ^^^         ^^^\n"@
}

/// For when substitution parameters are not enclosed in brackets.
pub fn bracket_sub_param_text() -> (r: &'static str)
    ensures
        r@ == bracket_sub_param(),
{
    "Hint: Substitution parameters should be enclosed in '[]' each.\nExample:\n    sub_ident( [ parameter1 ] , [ paramter2 ] )\n              ^^^          ^^^ ^^^         ^^^\n"
}

/// For when neither syntax gets any invocation input.
pub open spec fn no_invocation() -> Seq<char> {
    "substitution_identifier (short syntax) or substitution group (verbose syntax)"@
}

/// For when neither syntax gets any invocation input.
pub fn no_invocation_text() -> (r: &'static str)
    ensures
        r@ == no_invocation(),
{
    "substitution_identifier (short syntax) or substitution group (verbose syntax)"
}

/// For when short syntax has declared substitution identifiers but no
/// substitution groups.
pub open spec fn short_syntax_no_groups() -> Seq<char> {
    "Hint: Add a substitution group after the substitution identifiers.\nExample:\n\tname;\n\t[SomeSubstitution];\n\t^^^^^^^^^^^^^^^^^^^\n"@
}

/// For when short syntax has declared substitution identifiers but no
/// substitution groups.
pub fn short_syntax_no_groups_text() -> (r: &'static str)
    ensures
        r@ == short_syntax_no_groups(),
{
    "Hint: Add a substitution group after the substitution identifiers.\nExample:\n\tname;\n\t[SomeSubstitution];\n\t^^^^^^^^^^^^^^^^^^^\n"
}

/// For when short syntax substitutions are not enclosed in brackets.
pub open spec fn short_syntax_missing_sub_bracket() -> Seq<char> {
    "Hint: Each substitution should be enclosed in '[]'.\nExample:\n    ident1 ident2;\n    [ sub1 ] [ sub2 ] ;\n   ^^^    ^^^^^    ^^^\n"@
}

/// For when short syntax substitutions are not enclosed in brackets.
pub fn short_syntax_missing_sub_bracket_text() -> (r: &'static str)
    ensures
        r@ == short_syntax_missing_sub_bracket(),
{
    "Hint: Each substitution should be enclosed in '[]'.\nExample:\n    ident1 ident2;\n    [ sub1 ] [ sub2 ] ;\n   ^^^    ^^^^^    ^^^\n"
}

/// For when a short syntax substitution group has too few or too many
/// substitutions.
pub open spec fn short_syntax_substitution_count() -> Seq<char> {
    "Hint: Number of substitutions must match the number of substitutions identifiers.\nExample:\n    ident1 ident2;\n   1^^^^^^ ^^^^^^2\n    [sub1] [sub2];\n   1^^^^^^ ^^^^^^2\n"@
}

/// For when a short syntax substitution group has too few or too many
/// substitutions.
pub fn short_syntax_substitution_count_text() -> (r: &'static str)
    ensures
        r@ == short_syntax_substitution_count(),
{
    "Hint: Number of substitutions must match the number of substitutions identifiers.\nExample:\n    ident1 ident2;\n   1^^^^^^ ^^^^^^2\n    [sub1] [sub2];\n   1^^^^^^ ^^^^^^2\n"
}

/// For when verbose syntax substitution groups disagree on their identifiers.
pub open spec fn verbose_syntax_substitution_identifiers() -> Seq<char> {
    "Hint: All substitution groups must define the same substitution identifiers.\nExample:\n    [\n        ident1  [sub1]\n        ident2  [sub2]\n    ]\n    [\n        ident1  [sub3]\n        ident2  [sub4]\n    ]\n"@
}

/// For when verbose syntax substitution groups disagree on their identifiers.
pub fn verbose_syntax_substitution_identifiers_text() -> (r: &'static str)
    ensures
        r@ == verbose_syntax_substitution_identifiers(),
{
    "Hint: All substitution groups must define the same substitution identifiers.\nExample:\n    [\n        ident1  [sub1]\n        ident2  [sub2]\n    ]\n    [\n        ident1  [sub3]\n        ident2  [sub4]\n    ]\n"
}

/// For when a verbose syntax substitution identifier has too few or too many
/// arguments.
pub open spec fn verbose_syntax_substitution_identifiers_args() -> Seq<char> {
    "Hint: The same substitution identifier must take the same number of argument across all substitution groups.\nExample:\n    [\n        ident1(arg1, arg2)  [sub1 arg1 arg2]\n               ^^^^^^^^^^\n    ]\n    [\n        ident1(arg1, arg2)  [arg1 arg2 sub2]\n               ^^^^^^^^^^\n    ]\n"@
}

/// For when a verbose syntax substitution identifier has too few or too many
/// arguments.
pub fn verbose_syntax_substitution_identifiers_args_text() -> (r: &'static str)
    ensures
        r@ == verbose_syntax_substitution_identifiers_args(),
{
    "Hint: The same substitution identifier must take the same number of argument across all substitution groups.\nExample:\n    [\n        ident1(arg1, arg2)  [sub1 arg1 arg2]\n               ^^^^^^^^^^\n    ]\n    [\n        ident1(arg1, arg2)  [arg1 arg2 sub2]\n               ^^^^^^^^^^\n    ]\n"
}

/// For when a verbose syntax substitution pair is followed by a semicolon.
pub open spec fn verbose_semicolon() -> Seq<char> {
    "Hint: Verbose syntax does not accept semicolons between substitutions.\nExample:\n    [\n        name    [sub1] // No semicolon\n        ty      [u32] // No semicolon\n    ]\n"@
}

/// For when a verbose syntax substitution pair is followed by a semicolon.
pub fn verbose_semicolon_text() -> (r: &'static str)
    ensures
        r@ == verbose_semicolon(),
{
    "Hint: Verbose syntax does not accept semicolons between substitutions.\nExample:\n    [\n        name    [sub1] // No semicolon\n        ty      [u32] // No semicolon\n    ]\n"
}

/// For when global substitutions are not followed by a semicolon.
pub open spec fn global_sub_semicolon() -> Seq<char> {
    "Hint: Each global substitution should end with ';'\nExample:\n    name   [sub1];\n    typ    [sub2];\n"@
}

/// For when global substitutions are not followed by a semicolon.
pub fn global_sub_semicolon_text() -> (r: &'static str)
    ensures
        r@ == global_sub_semicolon(),
{
    "Hint: Each global substitution should end with ';'\nExample:\n    name   [sub1];\n    typ    [sub2];\n"
}

/// For when verbose syntax groups are not enclosed in brackets.
pub open spec fn verbose_group_hint() -> Seq<char> {
    "Hint: When using verbose syntax, a substitutions must be enclosed in a group.\nExample:\n..\n[\n\tidentifier1 [ substitution1 ]\n\tidentifier2 [ substitution2 ]\n]"@
}

/// For when verbose syntax groups are not enclosed in brackets.
pub fn verbose_group_hint_text() -> (r: &'static str)
    ensures
        r@ == verbose_group_hint(),
{
    "Hint: When using verbose syntax, a substitutions must be enclosed in a group.\nExample:\n..\n[\n\tidentifier1 [ substitution1 ]\n\tidentifier2 [ substitution2 ]\n]"
}

/// For a module whose name cannot be disambiguated.
pub open spec fn module_disambiguation_msg() -> Seq<char> {
    "Was unable to find a suitable substitution identifier to postfix on the module's name."@
}

/// For a module whose name cannot be disambiguated.
pub fn module_disambiguation_msg_text() -> (r: &'static str)
    ensures
        r@ == module_disambiguation_msg(),
{
    "Was unable to find a suitable substitution identifier to postfix on the module's name."
}

/// The hint for a module whose name cannot be disambiguated.
pub open spec fn module_disambiguation_hint() -> Seq<char> {
    "Hint: If a substitution identifier's substitutions all consist of a single identifier and nothing, they will automatically be postfixed on the module name to make them unique."@
}

/// The hint for a module whose name cannot be disambiguated.
pub fn module_disambiguation_hint_text() -> (r: &'static str)
    ensures
        r@ == module_disambiguation_hint(),
{
    "Hint: If a substitution identifier's substitutions all consist of a single identifier and nothing, they will automatically be postfixed on the module name to make them unique."
}

/// For an inline invocation that does not start with its bracketed body.
pub open spec fn inline_invocation_hint() -> Seq<char> {
    "Expected invocation within brackets: [...]"@
}

/// For an inline invocation that does not start with its bracketed body.
pub fn inline_invocation_hint_text() -> (r: &'static str)
    ensures
        r@ == inline_invocation_hint(),
{
    "Expected invocation within brackets: [...]"
}

} // verus!
