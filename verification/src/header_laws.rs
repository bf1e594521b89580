//! Laws of splitting header values.
use vstd::prelude::*;

use crate::headers::{header_parts, header_parts_for, single_value_header_names};
use crate::text::{split_of, trim_of, unicode_lowercase};

verus! {

/// The names (in lower case) of the headers that carry one date, cookie or
/// agent each, whose values hold commas of their own.
pub open spec fn names_a_single_value_header(lower: Seq<char>) -> bool {
    ||| lower == "date"@
    ||| lower == "accept-datetime"@
    ||| lower == "if-modified-since"@
    ||| lower == "if-unmodified-since"@
    ||| lower == "expires"@
    ||| lower == "retry-after"@
    ||| lower == "last-modified"@
    ||| lower == "set-cookie"@
    ||| lower == "user-agent"@
}

proof fn lemma_single_value_names(lower: Seq<char>)
    ensures
        single_value_header_names().contains(lower) <==> names_a_single_value_header(lower),
{
    let names = single_value_header_names();
    if names_a_single_value_header(lower) {
        if lower == "date"@ {
            assert(names[0] == lower);
        } else if lower == "accept-datetime"@ {
            assert(names[1] == lower);
        } else if lower == "if-modified-since"@ {
            assert(names[2] == lower);
        } else if lower == "if-unmodified-since"@ {
            assert(names[3] == lower);
        } else if lower == "expires"@ {
            assert(names[4] == lower);
        } else if lower == "retry-after"@ {
            assert(names[5] == lower);
        } else if lower == "last-modified"@ {
            assert(names[6] == lower);
        } else if lower == "set-cookie"@ {
            assert(names[7] == lower);
        } else {
            assert(names[8] == lower);
        }
    }
    if names.contains(lower) {
        let i = choose|i: int| 0 <= i < names.len() && names[i] == lower;
        assert(0 <= i < 9);
    }
}

/// The value of a `Date`, `Accept-Datetime`, `If-Modified-Since`,
/// `If-Unmodified-Since`, `Expires`, `Retry-After`, `Last-Modified`,
/// `Set-Cookie` or `User-Agent` header (in any case) is never split: it is
/// one part, the whole value trimmed.
pub proof fn law_single_value_headers_are_kept_whole(name: Seq<char>, value: Seq<char>)
    requires
        names_a_single_value_header(unicode_lowercase(name)),
    ensures
        header_parts(name, value) == seq![trim_of(value)],
{
    lemma_single_value_names(unicode_lowercase(name));
}

/// The value of any other header is split at every comma, each piece
/// trimmed.
pub proof fn law_other_headers_are_split_at_commas(name: Seq<char>, value: Seq<char>)
    requires
        !names_a_single_value_header(unicode_lowercase(name)),
    ensures
        header_parts(name, value) == split_of(value, ',').map_values(|v: Seq<char>| trim_of(v)),
{
    lemma_single_value_names(unicode_lowercase(name));
}

/// The same two laws for a header whose name is known in lower case (as
/// `parse_header` has it for an ASCII name).
pub proof fn law_header_parts_by_lower_case_name(lower: Seq<char>, value: Seq<char>)
    ensures
        names_a_single_value_header(lower) ==> header_parts_for(lower, value) == seq![trim_of(value)],
        !names_a_single_value_header(lower) ==> header_parts_for(lower, value) == split_of(value, ',').map_values(
            |v: Seq<char>| trim_of(v),
        ),
{
    lemma_single_value_names(lower);
}

} // verus!
