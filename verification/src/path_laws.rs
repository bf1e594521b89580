//! Laws relating the ways paths are built, written and parsed.
use vstd::prelude::*;

use crate::path_exp::{
    build_expr_of, escape_key, ident_end, is_identifier_char, is_plain_key, is_plain_key_char,
    join_replacing, join_replacing_expr, numeric_end, parse_from, path_parse,
    path_weight_of, quote_end, scan_identifier, scan_segment, token_expr, token_text, token_weight, weight_fits,
    weight_prefix, DocPathView, PathParse,
    SegmentScan, TokenView,
};
use crate::text::{
    all_ascii_digits, char_alphabetic, char_numeric, decimal, digits_value, is_ascii_digit,
    lemma_decimal_digits, usize_parse,
};

verus! {

/// A field name that survives being written and read back: not empty, and
/// without single quotes or backslashes (which the writer escapes and the
/// reader does not unescape).
pub open spec fn field_round_trips(v: Seq<char>) -> bool {
    &&& v.len() > 0
    &&& forall|i: int| 0 <= i < v.len() ==> #[trigger] v[i] != '\'' && v[i] != '\\'
}

/// Tokens that start with the root marker, have no other root marker, and
/// whose field names round-trip.
pub open spec fn canonical_tokens(ts: Seq<TokenView>) -> bool {
    &&& ts.len() > 0
    &&& ts[0] is Root
    &&& forall|i: int|
        1 <= i < ts.len() ==> !(#[trigger] ts[i] is Root) && (ts[i] is Field
            ==> field_round_trips(ts[i]->Field_0))
}

proof fn lemma_escape_plain(v: Seq<char>)
    requires
        forall|i: int| 0 <= i < v.len() ==> #[trigger] v[i] != '\'' && v[i] != '\\',
    ensures
        escape_key(v) == v,
    decreases v.len(),
{
    if v.len() > 0 {
        let w = v.drop_last();
        assert forall|i: int| 0 <= i < w.len() implies #[trigger] w[i] != '\'' && w[i] != '\\' by {
            assert(w[i] == v[i]);
        }
        lemma_escape_plain(w);
        assert(v[v.len() - 1] != '\'');
        assert(v =~= w.push(v.last()));
    }
}

proof fn lemma_ident_end_run(s: Seq<char>, q: int, e: int)
    requires
        0 <= q <= e <= s.len(),
        forall|k: int| q <= k < e ==> is_identifier_char(#[trigger] s[k]),
        e == s.len() || !is_identifier_char(s[e]),
    ensures
        ident_end(s, q) == e,
    decreases e - q,
{
    if q < e {
        lemma_ident_end_run(s, q + 1, e);
    }
}

proof fn lemma_numeric_end_run(s: Seq<char>, q: int, e: int)
    requires
        0 <= q <= e <= s.len(),
        forall|k: int| q <= k < e ==> char_numeric(#[trigger] s[k]),
        e == s.len() || !char_numeric(s[e]),
    ensures
        numeric_end(s, q) == e,
    decreases e - q,
{
    if q < e {
        lemma_numeric_end_run(s, q + 1, e);
    }
}

proof fn lemma_quote_end_run(s: Seq<char>, q: int, e: int)
    requires
        0 <= q <= e < s.len(),
        forall|k: int| q <= k < e ==> #[trigger] s[k] != '\'',
        s[e] == '\'',
    ensures
        quote_end(s, q) == e,
    decreases e - q,
{
    if q < e {
        lemma_quote_end_run(s, q + 1, e);
    }
}

/// The decimal text of an index reads back as the index.
proof fn lemma_decimal_parses(i: usize)
    ensures
        usize_parse(decimal(i as nat)) == Some(i),
        forall|k: int| 0 <= k < decimal(i as nat).len() ==> is_ascii_digit(#[trigger] decimal(i as nat)[k]),
{
    lemma_decimal_digits(i as nat);
    let d = decimal(i as nat);
    assert(is_ascii_digit(d[0]));
}

/// Reading one step of a written expression gives back the token and moves
/// past its text.
proof fn lemma_scan_written_token(s: Seq<char>, p: int, t: TokenView)
    requires
        0 <= p,
        p + token_expr(t).len() <= s.len(),
        s.subrange(p, p + token_expr(t).len()) == token_expr(t),
        p + token_expr(t).len() == s.len() || s[p + token_expr(t).len()] == '.' || s[p
            + token_expr(t).len()] == '[',
        !(t is Root),
        t is Field ==> field_round_trips(t->Field_0),
    ensures
        scan_segment(s, p) == SegmentScan::Next(p + token_expr(t).len(), t),
{
    let te = token_expr(t);
    let end = p + te.len();
    assert forall|k: int| 0 <= k < te.len() implies s[p + k] == #[trigger] te[k] by {
        assert(s.subrange(p, end)[k] == s[p + k]);
    }
    assert(end < s.len() ==> !is_identifier_char(s[end]) && !char_numeric(s[end]));
    match t {
        TokenView::Star => {
            assert(s[p] == te[0]);
            assert(s[p + 1] == te[1]);
        },
        TokenView::StarIndex => {
            assert(s[p] == te[0]);
            assert(s[p + 1] == te[1]);
            assert(s[p + 2] == te[2]);
        },
        TokenView::Index(i) => {
            let d = decimal(i as nat);
            lemma_decimal_parses(i);
            assert(s[p] == te[0]);
            assert(s[p + 1] == te[1]);
            assert(te[1] == d[0]);
            assert forall|k: int| p + 2 <= k < p + 1 + d.len() implies char_numeric(
                #[trigger] s[k],
            ) by {
                assert(s[k] == te[k - p]);
                assert(te[k - p] == d[k - p - 1]);
            }
            assert(s[p + 1 + d.len()] == te[1 + d.len() as int]);
            lemma_numeric_end_run(s, p + 2, p + 1 + d.len());
            assert(s.subrange(p + 1, p + 1 + d.len()) =~= d) by {
                assert forall|k: int| 0 <= k < d.len() implies s.subrange(p + 1, p + 1 + d.len())[k]
                    == d[k] by {
                    assert(s[p + 1 + k] == te[1 + k]);
                }
            }
        },
        TokenView::Field(v) => {
            if is_plain_key(v) {
                assert(te =~= seq!['.'] + v);
                assert(s[p] == te[0]);
                assert(s[p + 1] == te[1]);
                assert(s[p + 1] == v[0]);
                assert(char_alphabetic(v[0]) || v[0] == '_');
                assert forall|k: int| p + 2 <= k < p + 1 + v.len() implies is_identifier_char(
                    #[trigger] s[k],
                ) by {
                    assert(s[k] == te[k - p]);
                    assert(te[k - p] == v[k - p - 1]);
                    assert(is_plain_key_char(v[k - p - 1]));
                }
                lemma_ident_end_run(s, p + 2, p + 1 + v.len());
                assert(s.subrange(p + 1, p + 1 + v.len()) =~= v) by {
                    assert forall|k: int| 0 <= k < v.len() implies s.subrange(p + 1, p + 1 + v.len())[k]
                        == v[k] by {
                        assert(s[p + 1 + k] == te[1 + k]);
                    }
                }
            } else {
                lemma_escape_plain(v);
                assert(te =~= seq!['[', '\''] + v + seq!['\'', ']']);
                assert(s[p] == te[0]);
                assert(s[p + 1] == te[1]);
                assert forall|k: int| p + 2 <= k < p + 2 + v.len() implies #[trigger] s[k] != '\'' by {
                    assert(s[k] == te[k - p]);
                    assert(te[k - p] == v[k - p - 2]);
                }
                assert(s[p + 2 + v.len()] == te[2 + v.len() as int]);
                assert(s[p + 3 + v.len()] == te[3 + v.len() as int]);
                lemma_quote_end_run(s, p + 2, p + 2 + v.len());
                assert(s.subrange(p + 2, p + 2 + v.len()) =~= v) by {
                    assert forall|k: int| 0 <= k < v.len() implies s.subrange(p + 2, p + 2 + v.len())[k]
                        == v[k] by {
                        assert(s[p + 2 + k] == te[2 + k]);
                    }
                }
            }
        },
        TokenView::Root => {},
    }
}

proof fn lemma_build_prefix(ts: Seq<TokenView>, i: int, j: int)
    requires
        0 <= i <= j <= ts.len(),
    ensures
        build_expr_of(ts.subrange(0, i)).len() <= build_expr_of(ts.subrange(0, j)).len(),
        build_expr_of(ts.subrange(0, j)).subrange(0, build_expr_of(ts.subrange(0, i)).len() as int)
            == build_expr_of(ts.subrange(0, i)),
    decreases j - i,
{
    if i < j {
        lemma_build_prefix(ts, i, j - 1);
        let a = build_expr_of(ts.subrange(0, i));
        let b = build_expr_of(ts.subrange(0, j - 1));
        let c = build_expr_of(ts.subrange(0, j));
        assert(ts.subrange(0, j).drop_last() =~= ts.subrange(0, j - 1));
        assert(c == b + token_expr(ts[j - 1]));
        assert(c.subrange(0, a.len() as int) =~= b.subrange(0, a.len() as int));
    } else {
        assert(build_expr_of(ts.subrange(0, j)).subrange(0, build_expr_of(ts.subrange(0, i)).len() as int)
            =~= build_expr_of(ts.subrange(0, i)));
    }
}

proof fn lemma_token_expr_first(t: TokenView)
    requires
        !(t is Root),
    ensures
        token_expr(t).len() > 0,
        token_expr(t)[0] == '.' || token_expr(t)[0] == '[',
{
    if t is Field {
        let w = t->Field_0;
        if is_plain_key(w) {
            assert(token_expr(t) =~= seq!['.'] + w);
        } else {
            assert(token_expr(t) =~= seq!['[', '\''] + escape_key(w) + seq!['\'', ']']);
        }
    }
}

/// In the expression for `ts`, the text of token `i` stands right after the
/// text of the tokens before it, and is followed by `.` or `[` or the end.
proof fn lemma_token_in_place(ts: Seq<TokenView>, i: int)
    requires
        canonical_tokens(ts),
        1 <= i < ts.len(),
    ensures
        ({
            let s = build_expr_of(ts);
            let p = build_expr_of(ts.subrange(0, i)).len() as int;
            let t = ts[i];
            let end = p + token_expr(t).len();
            &&& end == build_expr_of(ts.subrange(0, i + 1)).len()
            &&& end <= s.len()
            &&& s.subrange(p, end) == token_expr(t)
            &&& (end == s.len() || s[end] == '.' || s[end] == '[')
        }),
{
    let s = build_expr_of(ts);
    let n = ts.len() as int;
    assert(ts.subrange(0, n) =~= ts);
    let p = build_expr_of(ts.subrange(0, i)).len() as int;
    let t = ts[i];
    lemma_build_prefix(ts, i + 1, n);
    let next = build_expr_of(ts.subrange(0, i + 1));
    assert(ts.subrange(0, i + 1).drop_last() =~= ts.subrange(0, i));
    assert(next == build_expr_of(ts.subrange(0, i)) + token_expr(t));
    let end = p + token_expr(t).len();
    assert(s.subrange(p, end) =~= token_expr(t)) by {
        assert forall|k: int| 0 <= k < token_expr(t).len() implies s.subrange(p, end)[k]
            == token_expr(t)[k] by {
            assert(s[p + k] == s.subrange(0, next.len() as int)[p + k]);
            assert(next[p + k] == token_expr(t)[k]);
        }
    }
    if end < s.len() {
        let u = ts[i + 1];
        lemma_build_prefix(ts, i + 2, n);
        let after = build_expr_of(ts.subrange(0, i + 2));
        assert(ts.subrange(0, i + 2).drop_last() =~= ts.subrange(0, i + 1));
        assert(after == next + token_expr(u));
        assert(s[end] == s.subrange(0, after.len() as int)[end]);
        assert(after[end] == token_expr(u)[0]);
        lemma_token_expr_first(u);
    }
}

proof fn lemma_parse_rest(ts: Seq<TokenView>, i: int)
    requires
        canonical_tokens(ts),
        1 <= i <= ts.len(),
    ensures
        parse_from(build_expr_of(ts), build_expr_of(ts.subrange(0, i)).len() as int, ts.subrange(0, i))
            == PathParse::Parsed(ts),
    decreases ts.len() - i,
{
    let s = build_expr_of(ts);
    let n = ts.len() as int;
    lemma_build_prefix(ts, i, n);
    assert(ts.subrange(0, n) =~= ts);
    let p = build_expr_of(ts.subrange(0, i)).len() as int;
    if i == n {
        assert(ts.subrange(0, i) =~= ts);
    } else {
        let t = ts[i];
        lemma_token_in_place(ts, i);
        lemma_token_expr_first(t);
        lemma_scan_written_token(s, p, t);
        assert(ts.subrange(0, i).push(t) =~= ts.subrange(0, i + 1));
        lemma_parse_rest(ts, i + 1);
    }
}

/// The expression written for canonical tokens parses back to those tokens.
pub proof fn law_written_expression_parses_back(ts: Seq<TokenView>)
    requires
        canonical_tokens(ts),
    ensures
        path_parse(build_expr_of(ts)) == PathParse::Parsed(ts),
{
    let s = build_expr_of(ts);
    lemma_build_prefix(ts, 1, ts.len() as int);
    assert(ts.subrange(0, ts.len() as int) =~= ts);
    assert(ts.subrange(0, 1).drop_last() =~= Seq::<TokenView>::empty());
    assert(build_expr_of(Seq::<TokenView>::empty()) =~= Seq::<char>::empty());
    assert(ts.subrange(0, 1).last() == TokenView::Root);
    assert(build_expr_of(ts.subrange(0, 1)) =~= seq!['$']);
    assert(s[0] == s.subrange(0, 1)[0]);
    assert(s[0] == '$');
    assert(ts.subrange(0, 1) =~= seq![TokenView::Root]);
    lemma_parse_rest(ts, 1);
}

/// A path whose expression is the written form of its tokens keeps that
/// property when a token is pushed (as `push`, `push_field`, `push_index`,
/// `push_star`, `push_star_index` and `join` do).
pub proof fn law_push_keeps_written_form(p: DocPathView, t: TokenView)
    requires
        p.expr == build_expr_of(p.tokens),
    ensures
        p.expr + token_expr(t) == build_expr_of(p.tokens.push(t)),
{
    assert(p.tokens.push(t).drop_last() =~= p.tokens);
}

/// A path whose expression is the written form of its tokens keeps that
/// property through `join_index` and `join_field`.
pub proof fn law_join_replacing_keeps_written_form(p: DocPathView, t: TokenView)
    requires
        p.expr == build_expr_of(p.tokens),
    ensures
        join_replacing_expr(p, t) == build_expr_of(join_replacing(p.tokens, t)),
{
    law_push_keeps_written_form(p, t);
}

/// The parent of a path extended by one token has the tokens of the path it
/// was extended from.
pub proof fn law_parent_undoes_push(ts: Seq<TokenView>, t: TokenView)
    requires
        ts.len() >= 1,
    ensures
        ts.push(t).len() > 1,
        ts.push(t).drop_last() == ts,
{
    assert(ts.push(t).drop_last() =~= ts);
}

/// A path weight is positive exactly when every token matches its fragment.
pub proof fn law_weight_positive_iff_all_match(
    ts: Seq<TokenView>,
    frags: Seq<Seq<char>>,
    k: int,
)
    requires
        0 <= k <= ts.len(),
        k <= frags.len(),
    ensures
        (weight_prefix(ts, frags, k) > 0) <==> (forall|i: int|
            0 <= i < k ==> #[trigger] token_weight(frags[i], ts[i]) > 0),
    decreases k,
{
    if k > 0 {
        law_weight_positive_iff_all_match(ts, frags, k - 1);
        let a = weight_prefix(ts, frags, k - 1);
        let b = token_weight(frags[k - 1], ts[k - 1]);
        assert((a * b > 0) <==> (a > 0 && b > 0)) by (nonlinear_arith);
    }
}

/// The weight against fragments only reads the fragments the tokens stand
/// against.
proof fn lemma_weight_prefix_extended(ts: Seq<TokenView>, frags: Seq<Seq<char>>, extra: Seq<Seq<char>>, k: int)
    requires
        0 <= k <= frags.len(),
    ensures
        weight_prefix(ts, frags + extra, k) == weight_prefix(ts, frags, k),
    decreases k,
{
    if k > 0 {
        lemma_weight_prefix_extended(ts, frags, extra, k - 1);
        assert((frags + extra)[k - 1] == frags[k - 1]);
    }
}

/// A path that matches some fragments still matches, with the same weight,
/// when more fragments are appended to them.
pub proof fn law_appending_fragments_keeps_match_and_weight(
    ts: Seq<TokenView>,
    frags: Seq<Seq<char>>,
    extra: Seq<Seq<char>>,
)
    requires
        path_weight_of(ts, frags).0 > 0,
    ensures
        path_weight_of(ts, frags + extra) == path_weight_of(ts, frags),
{
    lemma_weight_prefix_extended(ts, frags, extra, ts.len() as int);
}

/// The texts of the tokens of a path, as `to_vec` gives them.
pub open spec fn token_texts_of(ts: Seq<TokenView>) -> Seq<Seq<char>> {
    ts.map_values(|t: TokenView| token_text(t))
}

/// A path matches the texts of its own tokens, with as many fragments as it
/// has tokens: so `matches_path_exactly` holds of it and its `to_vec`.
pub proof fn law_path_matches_its_own_texts_exactly(ts: Seq<TokenView>)
    ensures
        token_texts_of(ts).len() == ts.len(),
        path_weight_of(ts, token_texts_of(ts)).0 > 0,
{
    let frags = token_texts_of(ts);
    assert forall|i: int| 0 <= i < ts.len() implies #[trigger] token_weight(frags[i], ts[i]) > 0 by {
        match ts[i] {
            TokenView::Index(n) => {
                lemma_decimal_parses(n);
            },
            _ => {},
        }
    }
    law_weight_positive_iff_all_match(ts, frags, ts.len() as int);
}

/// Two to the power `k`.
pub open spec fn two_pow(k: nat) -> nat
    decreases k,
{
    if k == 0 {
        1
    } else {
        2 * two_pow((k - 1) as nat)
    }
}

proof fn lemma_weight_prefix_bound(ts: Seq<TokenView>, frags: Seq<Seq<char>>, k: int)
    requires
        0 <= k,
    ensures
        weight_prefix(ts, frags, k) <= two_pow(k as nat),
    decreases k,
{
    if k > 0 {
        lemma_weight_prefix_bound(ts, frags, k - 1);
        let a = weight_prefix(ts, frags, k - 1);
        let b = token_weight(frags[k - 1], ts[k - 1]);
        let p = two_pow((k - 1) as nat);
        assert(a * b <= p * 2) by (nonlinear_arith)
            requires
                a <= p,
                b <= 2,
                0 <= a,
                0 <= b,
        ;
    }
}

proof fn lemma_two_pow_monotone(j: nat, k: nat)
    requires
        j <= k,
    ensures
        two_pow(j) <= two_pow(k),
    decreases k,
{
    if j < k {
        lemma_two_pow_monotone(j, (k - 1) as nat);
    }
}

/// The weight of a path is the product of the weights of its tokens against
/// the fragments, each 2 (exact match), 1 (wildcard match) or 0; it is at
/// most two to the power of the number of tokens, so for a path of fewer
/// than 32 tokens it always fits in a `usize` (and `path_weight`,
/// `matches_path` and `matches_path_exactly` can be called on any
/// fragments).
pub proof fn law_weight_of_short_paths_fits(ts: Seq<TokenView>, frags: Seq<Seq<char>>)
    requires
        ts.len() < 32,
    ensures
        weight_fits(ts, frags),
        forall|k: int| 0 <= k <= ts.len() ==> #[trigger] weight_prefix(ts, frags, k) <= two_pow(k as nat),
{
    assert(two_pow(31) == 0x8000_0000) by {
        reveal_with_fuel(two_pow, 32);
    }
    assert forall|k: int| 0 <= k <= ts.len() implies #[trigger] weight_prefix(ts, frags, k) <= two_pow(k as nat) by {
        lemma_weight_prefix_bound(ts, frags, k);
    }
    assert forall|k: int| 0 <= k <= ts.len() implies #[trigger] weight_prefix(ts, frags, k) <= usize::MAX by {
        lemma_weight_prefix_bound(ts, frags, k);
        lemma_two_pow_monotone(k as nat, 31);
    }
}

/// A token that can follow the root in a parsed path: not a root marker, and
/// a field name that is not empty and has no single quote.
pub open spec fn parsed_step(t: TokenView) -> bool {
    !(t is Root) && (t is Field ==> (t->Field_0.len() > 0 && forall|i: int|
        0 <= i < t->Field_0.len() ==> #[trigger] t->Field_0[i] != '\''))
}

/// The shape of a non-empty parse result: the root marker first, and only
/// steps after it.
pub open spec fn parsed_shape(ts: Seq<TokenView>) -> bool {
    &&& ts.len() > 0
    &&& ts[0] is Root
    &&& forall|i: int| 1 <= i < ts.len() ==> parsed_step(#[trigger] ts[i])
}

proof fn lemma_ident_end_chars(s: Seq<char>, p: int)
    requires
        0 <= p <= s.len(),
    ensures
        p <= ident_end(s, p) <= s.len(),
        forall|j: int| p <= j < ident_end(s, p) ==> is_identifier_char(#[trigger] s[j]),
    decreases s.len() - p,
{
    if p < s.len() && is_identifier_char(s[p]) {
        lemma_ident_end_chars(s, p + 1);
    }
}

proof fn lemma_quote_end_chars(s: Seq<char>, p: int)
    requires
        0 <= p <= s.len(),
    ensures
        p <= quote_end(s, p) <= s.len(),
        forall|j: int| p <= j < quote_end(s, p) ==> #[trigger] s[j] != '\'',
    decreases s.len() - p,
{
    if p < s.len() && s[p] != '\'' {
        lemma_quote_end_chars(s, p + 1);
    }
}

proof fn lemma_identifier_field(s: Seq<char>, start: int, p: int)
    requires
        0 <= start < p <= s.len(),
        forall|j: int| start <= j < p ==> is_identifier_char(#[trigger] s[j]),
    ensures
        scan_identifier(s, start, p) matches SegmentScan::Next(e, t) ==> parsed_step(t) && start < e,
{
    lemma_ident_end_chars(s, p);
    let e = ident_end(s, p);
    let f = s.subrange(start, e);
    assert forall|i: int| 0 <= i < f.len() implies #[trigger] f[i] != '\'' by {
        assert(is_identifier_char(s[start + i]));
    }
}

/// A step read by `scan_segment` is never a root marker, and a field name it
/// reads is not empty and has no single quote.
proof fn lemma_scan_segment_step(s: Seq<char>, p: int)
    requires
        0 <= p < s.len(),
    ensures
        scan_segment(s, p) matches SegmentScan::Next(q, t) ==> parsed_step(t),
{
    if s[p] == '.' {
        if p + 1 < s.len() && s[p + 1] != '*' && is_identifier_char(s[p + 1]) {
            lemma_identifier_field(s, p + 1, p + 2);
        }
    } else if s[p] == '[' {
        let b = p + 1;
        if b < s.len() && s[b] == '\'' && b + 1 < s.len() {
            lemma_quote_end_chars(s, b + 1);
            let k = quote_end(s, b + 1);
            let f = s.subrange(b + 1, k);
            assert forall|i: int| 0 <= i < f.len() implies #[trigger] f[i] != '\'' by {
                assert(f[i] == s[b + 1 + i]);
            }
        }
    }
}

proof fn lemma_parse_from_shape(s: Seq<char>, p: int, acc: Seq<TokenView>)
    requires
        parsed_shape(acc),
    ensures
        parse_from(s, p, acc) matches PathParse::Parsed(ts) ==> parsed_shape(ts),
    decreases s.len() - p,
{
    if 0 <= p < s.len() {
        lemma_scan_segment_step(s, p);
        match scan_segment(s, p) {
            SegmentScan::Next(q, t) => {
                crate::path_exp::lemma_scan_segment_advances(s, p);
                let next = acc.push(t);
                assert forall|i: int| 1 <= i < next.len() implies parsed_step(#[trigger] next[i]) by {
                    if i < acc.len() {
                        assert(next[i] == acc[i]);
                    }
                }
                lemma_parse_from_shape(s, q, next);
            },
            _ => {},
        }
    }
}

/// The shape of what parsing a path expression gives: nothing exactly for the
/// empty expression; otherwise the root marker first, no other root marker,
/// and field names that are not empty and hold no single quote.
pub proof fn law_parsed_path_shape(s: Seq<char>)
    ensures
        path_parse(s) matches PathParse::Parsed(ts) ==> ((ts.len() == 0 <==> s.len() == 0) && (s.len() > 0
            ==> parsed_shape(ts))),
{
    if s.len() > 0 {
        if s[0] == '$' {
            lemma_parse_from_shape(s, 1, seq![TokenView::Root]);
        } else if char_alphabetic(s[0]) || char_numeric(s[0]) {
            lemma_identifier_field(s, 0, 1);
            match scan_identifier(s, 0, 1) {
                SegmentScan::Next(e, t) => {
                    let acc = seq![TokenView::Root, t];
                    assert forall|i: int| 1 <= i < acc.len() implies parsed_step(#[trigger] acc[i]) by {}
                    lemma_parse_from_shape(s, e, acc);
                },
                _ => {},
            }
        }
    }
}

/// The tokens of a parsed expression, written back as an expression (as
/// `DocPath::from_tokens(..).to_string()` writes them) and parsed again, give
/// the same tokens, wherever no field name holds a backslash (which the
/// writer escapes and the reader keeps).
pub proof fn law_parsed_tokens_round_trip(s: Seq<char>)
    requires
        path_parse(s) matches PathParse::Parsed(ts) && forall|i: int|
            0 <= i < ts.len() && #[trigger] ts[i] is Field ==> forall|j: int|
                0 <= j < ts[i]->Field_0.len() ==> ts[i]->Field_0[j] != '\\',
    ensures
        path_parse(s) matches PathParse::Parsed(ts) && path_parse(build_expr_of(ts)) == PathParse::Parsed(ts),
{
    law_parsed_path_shape(s);
    let ts = path_parse(s)->Parsed_0;
    if s.len() == 0 {
        assert(ts =~= Seq::<TokenView>::empty());
        assert(build_expr_of(ts) =~= Seq::<char>::empty());
    } else {
        assert forall|i: int| 1 <= i < ts.len() implies !(#[trigger] ts[i] is Root) && (ts[i] is Field
            ==> field_round_trips(ts[i]->Field_0)) by {
            assert(parsed_step(ts[i]));
        }
        law_written_expression_parses_back(ts);
    }
}

/// Every numeric character of the expression is an ASCII digit.
pub open spec fn numerics_are_ascii_digits(s: Seq<char>) -> bool {
    forall|i: int| 0 <= i < s.len() && char_numeric(#[trigger] s[i]) ==> is_ascii_digit(s[i])
}

/// Every run of digits just after a `[` has a value that fits in a `usize`.
pub open spec fn bracket_indexes_fit(s: Seq<char>) -> bool {
    forall|p: int|
        0 < p < s.len() && s[p - 1] == '[' && is_ascii_digit(#[trigger] s[p]) ==> digits_value(
            s.subrange(p, numeric_end(s, p)),
        ) <= usize::MAX
}

proof fn lemma_numeric_end_chars(s: Seq<char>, p: int)
    requires
        0 <= p <= s.len(),
    ensures
        p <= numeric_end(s, p) <= s.len(),
        forall|j: int| p <= j < numeric_end(s, p) ==> char_numeric(#[trigger] s[j]),
    decreases s.len() - p,
{
    if p < s.len() && char_numeric(s[p]) {
        lemma_numeric_end_chars(s, p + 1);
    }
}

proof fn lemma_scan_segment_no_abort(s: Seq<char>, p: int)
    requires
        0 <= p < s.len(),
        numerics_are_ascii_digits(s),
        bracket_indexes_fit(s),
    ensures
        !(scan_segment(s, p) is Abort),
{
    if s[p] == '[' && p + 1 < s.len() && s[p + 1] != '\'' && char_numeric(s[p + 1]) {
        let b = p + 1;
        lemma_numeric_end_chars(s, b);
        lemma_numeric_end_chars(s, b + 1);
        let e = numeric_end(s, b);
        let x = s.subrange(b, e);
        assert(is_ascii_digit(s[b]));
        assert forall|i: int| 0 <= i < x.len() implies is_ascii_digit(#[trigger] x[i]) by {
            assert(char_numeric(s[b + i]));
        }
        assert(numeric_end(s, b) == numeric_end(s, b + 1));
        assert(digits_value(x) <= usize::MAX);
        assert(x.len() > 0 && x[0] == s[b] && x[0] != '+');
        assert(all_ascii_digits(x));
        assert(usize_parse(x) is Some);
    }
}

proof fn lemma_parse_from_no_abort(s: Seq<char>, p: int, acc: Seq<TokenView>)
    requires
        numerics_are_ascii_digits(s),
        bracket_indexes_fit(s),
    ensures
        !(parse_from(s, p, acc) is Aborted),
    decreases s.len() - p,
{
    if 0 <= p < s.len() {
        lemma_scan_segment_no_abort(s, p);
        match scan_segment(s, p) {
            SegmentScan::Next(q, t) => {
                crate::path_exp::lemma_scan_segment_advances(s, p);
                lemma_parse_from_no_abort(s, q, acc.push(t));
            },
            _ => {},
        }
    }
}

/// Parsing an expression whose numeric characters are all ASCII digits, and
/// whose indexes in brackets all fit in a `usize`, never meets an index it
/// cannot read: `parse_path_exp` and `DocPath::new` can be called on it, and
/// give a result.
pub proof fn law_parse_returns_for_readable_indexes(s: Seq<char>)
    requires
        numerics_are_ascii_digits(s),
        bracket_indexes_fit(s),
    ensures
        !(path_parse(s) is Aborted),
{
    if s.len() > 0 {
        if s[0] == '$' {
            lemma_parse_from_no_abort(s, 1, seq![TokenView::Root]);
        } else if char_alphabetic(s[0]) || char_numeric(s[0]) {
            match scan_identifier(s, 0, 1) {
                SegmentScan::Next(e, t) => {
                    lemma_parse_from_no_abort(s, e, seq![TokenView::Root, t]);
                },
                _ => {},
            }
        }
    }
}

} // verus!
