//! The `prepare-commit-msg` hook: its arguments, and the template that it
//! offers for a new commit message.

use vstd::prelude::*;

verus! {

/// The template for a commit message: the layout of a conventional commit
/// and the common types, written as comment lines.
pub const TEMPLATE: &'static str = r#"#<type>[optional scope]: <description>

# [optional body]

# [optional footer(s)]

# type can be one of:
#   - fix (correlates with PATCH in semver)
#   - feat (cerrlates with MINOR in semver)
#   - build
#   - chore
#   - ci
#   - docs
#   - style
#   - refactor
#   - perf
#   - test
#     and many, many others
#
# Note: if you add ! after type/scope, or write BREAKING CHANGE
# in the footer, then it is represents a commit that introduces
# some kind of breaking API change (correlates with MAJOR in the
# semver). "#;

/// What git hands to the `prepare-commit-msg` hook: the path of the file
/// that holds the commit message, and, where git gives them, the kind of
/// commit and the id of the commit that is amended.
#[derive(Debug)]
pub struct PrepareMessageArgs {
    pub filename: String,
    pub commit_type: Option<String>,
    pub id: Option<String>,
}

/// The text of `text`, if there is one.
pub open spec fn text_view(text: Option<String>) -> Option<Seq<char>> {
    match text {
        Some(text) => Some(text@),
        None => None,
    }
}

/// The argument at position `at` of `args`, if there are so many.
pub open spec fn argument(args: Seq<String>, at: int) -> Option<Seq<char>> {
    if 0 <= at < args.len() {
        Some(args[at]@)
    } else {
        None
    }
}

/// Whether the template may be written: only where no commit id was given,
/// for with an id the commit is amended and has its message already.
pub fn can_use_template(args: &PrepareMessageArgs) -> (b: bool)
    ensures
        b == (args.id is None),
{
    if args.id.is_none() {
        return true;
    }
    false
}

/// The argument at position `at` of `args`, if there are so many.
fn argument_at(args: &Vec<String>, at: usize) -> (found: Option<String>)
    ensures
        text_view(found) == argument(args@, at as int),
{
    if at < args.len() {
        Some(args[at].clone())
    } else {
        None
    }
}

/// The arguments of the hook, taken from the program's arguments `args`,
/// of which the first is the program's own name.
pub fn process_args(args: &Vec<String>) -> (parsed: PrepareMessageArgs)
    requires
        args@.len() >= 2,
    ensures
        parsed.filename@ == args@[1]@,
        text_view(parsed.commit_type) == argument(args@, 2),
        text_view(parsed.id) == argument(args@, 3),
{
    PrepareMessageArgs {
        filename: args[1].clone(),
        commit_type: argument_at(args, 2),
        id: argument_at(args, 3),
    }
}

/// The template for a commit message.
pub fn get_template() -> (template: &'static str)
    ensures
        template@ == TEMPLATE@,
{
    TEMPLATE
}

} // verus!
