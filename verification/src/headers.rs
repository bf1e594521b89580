//! HTTP header values: splitting a value into its parts.
use vstd::prelude::*;

use crate::text::{
    chars_of, split_of, str_equal, str_to_lowercase, trim_chars, trim_of,
    trim_str, unicode_lowercase, all_ascii, ascii_lower,
};

verus! {

/// The names (in lower case) of headers whose value is never split.
pub open spec fn single_value_header_names() -> Seq<Seq<char>> {
    seq![
        "date"@,
        "accept-datetime"@,
        "if-modified-since"@,
        "if-unmodified-since"@,
        "expires"@,
        "retry-after"@,
        "last-modified"@,
        "set-cookie"@,
        "user-agent"@,
    ]
}

/// Whether a lower-cased header name is one whose value is never split.
pub fn is_single_value_header(lower: &str) -> (r: bool)
    ensures
        r == single_value_header_names().contains(lower@),
{
    let names = [
        "date",
        "accept-datetime",
        "if-modified-since",
        "if-unmodified-since",
        "expires",
        "retry-after",
        "last-modified",
        "set-cookie",
        "user-agent",
    ];
    let mut i: usize = 0;
    while i < 9
        invariant
            i <= 9,
            forall|j: int| 0 <= j < 9 ==> #[trigger] names@[j]@ == single_value_header_names()[j],
            forall|j: int| 0 <= j < i ==> single_value_header_names()[j] != lower@,
        decreases 9 - i,
    {
        if str_equal(names[i], lower) {
            assert(single_value_header_names()[i as int] == lower@);
            return true;
        }
        i = i + 1;
    }
    proof {
        if single_value_header_names().contains(lower@) {
            let j = choose|j: int|
                0 <= j < single_value_header_names().len() && single_value_header_names()[j]
                    == lower@;
            assert(single_value_header_names()[j] != lower@);
        }
    }
    false
}

/// The parts `parse_header` gives for a header value.
pub open spec fn header_parts(name: Seq<char>, value: Seq<char>) -> Seq<Seq<char>> {
    header_parts_for(unicode_lowercase(name), value)
}

/// The parts of a header value, for a header whose name in lower case is
/// `lower`: the whole value, trimmed, for a header whose value is never split;
/// else the trimmed pieces between commas.
pub open spec fn header_parts_for(lower: Seq<char>, value: Seq<char>) -> Seq<Seq<char>> {
    if single_value_header_names().contains(lower) {
        seq![trim_of(value)]
    } else {
        split_of(value, ',').map_values(|v: Seq<char>| trim_of(v))
    }
}

/// Tries to parse the header value into multiple values, taking into account headers that should
/// not be split.
pub fn parse_header(name: &str, value: &str) -> (r: Vec<String>)
    ensures
        r@.len() == header_parts(name@, value@).len(),
        forall|i: int| 0 <= i < r@.len() ==> #[trigger] r@[i]@ == header_parts(name@, value@)[i],
        all_ascii(name@) ==> header_parts(name@, value@) == header_parts_for(
            name@.map_values(|c: char| ascii_lower(c)),
            value@,
        ),
{
    let lower = str_to_lowercase(name);
    if is_single_value_header(lower.as_str()) {
        let mut r = Vec::new();
        r.push(trim_str(value));
        r
    } else {
        let v = chars_of(value);
        let mut r: Vec<String> = Vec::new();
        let mut start: usize = 0;
        let mut i: usize = 0;
        while i < v.len()
            invariant
                v@ == value@,
                start <= i <= v.len(),
                split_of(v@.subrange(0, i as int), ',').len() == r@.len() + 1,
                split_of(v@.subrange(0, i as int), ',').last() == v@.subrange(
                    start as int,
                    i as int,
                ),
                forall|j: int|
                    0 <= j < r@.len() ==> #[trigger] r@[j]@ == trim_of(
                        split_of(v@.subrange(0, i as int), ',')[j],
                    ),
            decreases v.len() - i,
        {
            let ghost before = split_of(v@.subrange(0, i as int), ',');
            let ghost after = split_of(v@.subrange(0, i + 1), ',');
            assert(v@.subrange(0, i + 1).drop_last() =~= v@.subrange(0, i as int));
            assert(v@.subrange(0, i + 1).last() == v@[i as int]);
            if v[i] == ',' {
                r.push(trim_chars(&v, start, i));
                start = i + 1;
                assert(after == before.push(Seq::empty()));
                assert(v@.subrange(start as int, i + 1) =~= Seq::<char>::empty());
            } else {
                assert(after == before.update(before.len() - 1, before.last().push(v@[i as int])));
                assert(v@.subrange(start as int, i + 1) =~= v@.subrange(start as int, i as int).push(
                    v@[i as int],
                ));
            }
            i = i + 1;
        }
        r.push(trim_chars(&v, start, v.len()));
        assert(v@.subrange(0, i as int) =~= value@);
        r
    }
}

} // verus!
