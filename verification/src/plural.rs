//! Singular or plural nouns for counts shown to the user.

use vstd::prelude::*;

verus! {

/// `one` when `count` is 1, `many` otherwise.
pub open spec fn noun_for(count: usize, one: Seq<char>, many: Seq<char>) -> Seq<char> {
    if count == 1 {
        one
    } else {
        many
    }
}

/// "file" or "files".
pub fn files(count: usize) -> (res: &'static str)
    ensures
        res@ == noun_for(count, "file"@, "files"@),
{
    if count == 1 {
        "file"
    } else {
        "files"
    }
}

/// "change" or "changes".
pub fn changes(count: usize) -> (res: &'static str)
    ensures
        res@ == noun_for(count, "change"@, "changes"@),
{
    if count == 1 {
        "change"
    } else {
        "changes"
    }
}

/// "document" or "documents".
pub fn documents(count: usize) -> (res: &'static str)
    ensures
        res@ == noun_for(count, "document"@, "documents"@),
{
    if count == 1 {
        "document"
    } else {
        "documents"
    }
}

/// "error" or "errors".
pub fn errors(count: usize) -> (res: &'static str)
    ensures
        res@ == noun_for(count, "error"@, "errors"@),
{
    if count == 1 {
        "error"
    } else {
        "errors"
    }
}

/// "path" or "paths".
pub fn paths(count: usize) -> (res: &'static str)
    ensures
        res@ == noun_for(count, "path"@, "paths"@),
{
    if count == 1 {
        "path"
    } else {
        "paths"
    }
}

/// "problem" or "problems".
pub fn problems(count: usize) -> (res: &'static str)
    ensures
        res@ == noun_for(count, "problem"@, "problems"@),
{
    if count == 1 {
        "problem"
    } else {
        "problems"
    }
}

/// "schema" or "schemas".
pub fn schemas(count: usize) -> (res: &'static str)
    ensures
        res@ == noun_for(count, "schema"@, "schemas"@),
{
    if count == 1 {
        "schema"
    } else {
        "schemas"
    }
}

} // verus!
