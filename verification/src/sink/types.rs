//! The types of columns, as the store writes them.
use crate::scan::{begins_with, cut_end, has_prefix, leave_out, trim_end_of, without};
use crate::text::{chars_of, part_of};
use vstd::prelude::*;

verus! {

/// A type without blanks is the JSON type that is expected, or that type with
/// parameters: `JSON(max_dynamic_paths=2048)`, `Array(JSON(...))`.
pub open spec fn json_like(actual: Seq<char>, expected: Seq<char>) -> bool
    decreases expected.len(),
    via json_like_ends
{
    if actual == expected {
        true
    } else if begins_with(expected, "Array("@) {
        &&& begins_with(actual, "Array("@)
        &&& actual.len() > 6
        &&& actual.last() == ')'
        &&& json_like(actual.subrange(6, actual.len() - 1), trim_end_of(expected.skip(6), ')'))
    } else {
        begins_with(actual, "JSON("@) && actual.last() == ')'
    }
}

#[via_fn]
proof fn json_like_ends(actual: Seq<char>, expected: Seq<char>) {
    reveal_strlit("Array(");
    if begins_with(expected, "Array("@) {
        lemma_cut_is_shorter(expected.skip(6), ')');
    }
}

/// What is left after cutting is not longer.
proof fn lemma_cut_is_shorter(s: Seq<char>, c: char)
    ensures
        trim_end_of(s, c).len() <= s.len(),
    decreases s.len(),
{
    if s.len() > 0 && s.last() == c {
        lemma_cut_is_shorter(s.drop_last(), c);
    }
}

/// The type of a column is the JSON type that is expected, blanks aside.
pub open spec fn is_json(actual: Seq<char>, expected: Seq<char>) -> bool {
    json_like(without(actual, ' '), without(expected, ' '))
}

fn chars_like(actual: &Vec<char>, expected: &Vec<char>) -> (r: bool)
    ensures
        r == json_like(actual@, expected@),
    decreases expected@.len(),
{
    proof {
        reveal_strlit("Array(");
        reveal_strlit("JSON(");
        if begins_with(expected@, "Array("@) {
            lemma_cut_is_shorter(expected@.skip(6), ')');
        }
        if actual@.len() == expected@.len() && begins_with(actual@, expected@) {
            assert(actual@.take(expected@.len() as int) =~= actual@);
        }
        if actual@ == expected@ {
            assert(actual@.take(expected@.len() as int) =~= expected@);
        }
    }
    if actual.len() == expected.len() && has_prefix(actual, expected) {
        return true;
    }
    let array = chars_of("Array(");
    if has_prefix(expected, &array) {
        if has_prefix(actual, &array) && actual.len() > 6 && actual[actual.len() - 1] == ')' {
            let inner = part_of(actual, 6, actual.len() - 1);
            let rest = part_of(expected, 6, expected.len());
            assert(rest@ =~= expected@.skip(6));
            chars_like(&inner, &cut_end(&rest, ')'))
        } else {
            false
        }
    } else {
        has_prefix(actual, &chars_of("JSON(")) && actual[actual.len() - 1] == ')'
    }
}

/// Whether the type of a column is the JSON type that is expected. Parameters
/// are up to whoever made the table.
pub fn is_json_type(actual: &str, expected: &str) -> (r: bool)
    ensures
        r == is_json(actual@, expected@),
{
    let actual = leave_out(&chars_of(actual), ' ');
    let expected = leave_out(&chars_of(expected), ' ');
    chars_like(&actual, &expected)
}

} // verus!
