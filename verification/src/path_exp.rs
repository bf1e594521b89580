//! Document path expressions (`$.a.b[1]['c d'].*`): tokens, paths built from
//! tokens, and the parser for the textual form.
use vstd::prelude::*;

use crate::text::{
    char_is_alphabetic, char_is_numeric, chars_of, decimal, is_ascii_digit, is_ascii_letter,
    parse_usize, push_char, push_chars, push_str, str_equal, str_to_lowercase,
    char_alphabetic, char_numeric, unicode_lowercase, usize_parse, usize_to_decimal,
};
use vstd::utf8::{encode_scalar, encode_utf8};

verus! {

/// One step of a document path.
#[derive(Debug)]
pub enum PathToken {
    /// Root token `$`
    Root,
    /// Named field token
    Field(String),
    /// Integer index token
    Index(usize),
    /// `*` token
    Star,
    /// `[*]` index token
    StarIndex,
}

/// The mathematical value of a path token.
pub enum TokenView {
    Root,
    Field(Seq<char>),
    Index(usize),
    Star,
    StarIndex,
}

impl View for PathToken {
    type V = TokenView;

    open spec fn view(&self) -> TokenView {
        match self {
            PathToken::Root => TokenView::Root,
            PathToken::Field(s) => TokenView::Field(s@),
            PathToken::Index(i) => TokenView::Index(*i),
            PathToken::Star => TokenView::Star,
            PathToken::StarIndex => TokenView::StarIndex,
        }
    }
}

/// The values of a sequence of tokens.
pub open spec fn tokens_view(ts: Seq<PathToken>) -> Seq<TokenView> {
    ts.map_values(|t: PathToken| t@)
}

impl PathToken {
    /// If this path token is an index
    pub fn is_index(&self) -> (r: bool)
        ensures
            r == (self@ is Index),
    {
        match self {
            PathToken::Index(_) => true,
            _ => false,
        }
    }

    /// A copy of this token.
    pub fn duplicate(&self) -> (r: PathToken)
        ensures
            r@ == self@,
    {
        match self {
            PathToken::Root => PathToken::Root,
            PathToken::Field(s) => PathToken::Field(s.clone()),
            PathToken::Index(i) => PathToken::Index(*i),
            PathToken::Star => PathToken::Star,
            PathToken::StarIndex => PathToken::StarIndex,
        }
    }

    /// The text of this token: `$`, the field name, the index, `*` or `[*]`.
    pub fn to_string(&self) -> (r: String)
        ensures
            r@ == token_text(self@),
    {
        match self {
            PathToken::Root => {
                let mut s = String::new();
                push_char(&mut s, '$');
                assert(s@ =~= seq!['$']);
                s
            },
            PathToken::Field(n) => n.clone(),
            PathToken::Index(i) => usize_to_decimal(*i),
            PathToken::Star => {
                let mut s = String::new();
                push_char(&mut s, '*');
                assert(s@ =~= seq!['*']);
                s
            },
            PathToken::StarIndex => {
                let mut s = String::new();
                push_char(&mut s, '[');
                push_char(&mut s, '*');
                push_char(&mut s, ']');
                assert(s@ =~= seq!['[', '*', ']']);
                s
            },
        }
    }
}

impl PartialEq for PathToken {
    fn eq(&self, other: &Self) -> (r: bool) {
        match (self, other) {
            (PathToken::Root, PathToken::Root) => true,
            (PathToken::Field(a), PathToken::Field(b)) => a.eq(b),
            (PathToken::Index(a), PathToken::Index(b)) => *a == *b,
            (PathToken::Star, PathToken::Star) => true,
            (PathToken::StarIndex, PathToken::StarIndex) => true,
            _ => false,
        }
    }
}

impl vstd::std_specs::cmp::PartialEqSpecImpl for PathToken {
    open spec fn obeys_eq_spec() -> bool {
        true
    }

    open spec fn eq_spec(&self, other: &PathToken) -> bool {
        self@ == other@
    }
}

impl Eq for PathToken {
}

/// The text `PathToken::to_string` gives for a token.
pub open spec fn token_text(t: TokenView) -> Seq<char> {
    match t {
        TokenView::Root => seq!['$'],
        TokenView::Field(n) => n,
        TokenView::Index(i) => decimal(i as nat),
        TokenView::Star => seq!['*'],
        TokenView::StarIndex => seq!['[', '*', ']'],
    }
}

// ---------------------------------------------------------------------------
// Writing expressions

/// A character allowed after the first in a key written with `.` syntax.
pub open spec fn is_plain_key_char(c: char) -> bool {
    c == '_' || is_ascii_letter(c) || is_ascii_digit(c)
}

/// Keys matching `^[_A-Za-z][_A-Za-z0-9]*$` are written with `.` syntax.
pub open spec fn is_plain_key(key: Seq<char>) -> bool {
    &&& key.len() > 0
    &&& (key[0] == '_' || is_ascii_letter(key[0]))
    &&& forall|i: int| 1 <= i < key.len() ==> is_plain_key_char(#[trigger] key[i])
}

/// A backslash is put before each backslash and single quote of a key.
pub open spec fn escape_key(key: Seq<char>) -> Seq<char>
    decreases key.len(),
{
    if key.len() == 0 {
        Seq::empty()
    } else {
        let c = key.last();
        escape_key(key.drop_last()) + if c == '\\' || c == '\'' {
            seq!['\\', c]
        } else {
            seq![c]
        }
    }
}

/// How an object key is written in a path expression: `.key` for plain keys,
/// `['key']` with escapes otherwise.
pub open spec fn obj_key_text(key: Seq<char>) -> Seq<char> {
    if is_plain_key(key) {
        seq!['.'] + key
    } else {
        seq!['[', '\''] + escape_key(key) + seq!['\'', ']']
    }
}

/// How a token is written in a path expression.
pub open spec fn token_expr(t: TokenView) -> Seq<char> {
    match t {
        TokenView::Root => seq!['$'],
        TokenView::Field(v) => obj_key_text(v),
        TokenView::Index(i) => seq!['['] + decimal(i as nat) + seq![']'],
        TokenView::Star => seq!['.', '*'],
        TokenView::StarIndex => seq!['[', '*', ']'],
    }
}

/// The expression written for a sequence of tokens.
pub open spec fn build_expr_of(ts: Seq<TokenView>) -> Seq<char>
    decreases ts.len(),
{
    if ts.len() == 0 {
        Seq::empty()
    } else {
        build_expr_of(ts.drop_last()) + token_expr(ts.last())
    }
}

fn is_plain_key_exec(key: &Vec<char>) -> (r: bool)
    ensures
        r == is_plain_key(key@),
{
    if key.len() == 0 {
        return false;
    }
    let c0 = key[0];
    if !(c0 == '_' || ('a' <= c0 && c0 <= 'z') || ('A' <= c0 && c0 <= 'Z')) {
        return false;
    }
    let mut i: usize = 1;
    while i < key.len()
        invariant
            1 <= i <= key.len(),
            forall|j: int| 1 <= j < i ==> is_plain_key_char(#[trigger] key@[j]),
        decreases key.len() - i,
    {
        let c = key[i];
        if !(c == '_' || ('a' <= c && c <= 'z') || ('A' <= c && c <= 'Z') || ('0' <= c && c <= '9')) {
            assert(!is_plain_key_char(key@[i as int]));
            return false;
        }
        i = i + 1;
    }
    true
}

/// Appends the text of an object key (`.key` or `['key']`) to `out`.
fn write_obj_key_for_path(out: &mut String, key: &str)
    ensures
        final(out)@ == old(out)@ + obj_key_text(key@),
{
    let chars = chars_of(key);
    if is_plain_key_exec(&chars) {
        push_char(out, '.');
        push_chars(out, &chars, 0, chars.len());
        assert(chars@.subrange(0, chars@.len() as int) =~= key@);
        assert(final(out)@ =~= old(out)@ + obj_key_text(key@)) by {
            assert(obj_key_text(key@) =~= seq!['.'] + key@);
        }
    } else {
        push_char(out, '[');
        push_char(out, '\'');
        let ghost start = out@;
        let mut i: usize = 0;
        while i < chars.len()
            invariant
                i <= chars.len(),
                chars@ == key@,
                out@ == start + escape_key(chars@.subrange(0, i as int)),
            decreases chars.len() - i,
        {
            let c = chars[i];
            if c == '\\' || c == '\'' {
                push_char(out, '\\');
            }
            push_char(out, c);
            i = i + 1;
            proof {
                let pre = chars@.subrange(0, i as int);
                assert(pre.drop_last() =~= chars@.subrange(0, i - 1));
                assert(pre.last() == c);
                assert(out@ =~= start + escape_key(pre));
            }
        }
        push_char(out, '\'');
        push_char(out, ']');
        assert(chars@.subrange(0, chars@.len() as int) =~= key@);
        assert(final(out)@ =~= old(out)@ + obj_key_text(key@));
    }
}

/// Appends the text of a token to `out`.
fn write_token(out: &mut String, token: &PathToken)
    ensures
        final(out)@ == old(out)@ + token_expr(token@),
{
    match token {
        PathToken::Root => {
            push_char(out, '$');
            assert(final(out)@ =~= old(out)@ + token_expr(token@));
        },
        PathToken::Field(v) => {
            write_obj_key_for_path(out, v.as_str());
        },
        PathToken::Index(i) => {
            push_char(out, '[');
            let d = usize_to_decimal(*i);
            push_str(out, d.as_str());
            push_char(out, ']');
            assert(final(out)@ =~= old(out)@ + token_expr(token@));
        },
        PathToken::Star => {
            push_char(out, '.');
            push_char(out, '*');
            assert(final(out)@ =~= old(out)@ + token_expr(token@));
        },
        PathToken::StarIndex => {
            push_char(out, '[');
            push_char(out, '*');
            push_char(out, ']');
            assert(final(out)@ =~= old(out)@ + token_expr(token@));
        },
    }
}

/// The expression for a list of tokens.
fn build_expr_from(tokens: &Vec<PathToken>) -> (r: String)
    ensures
        r@ == build_expr_of(tokens_view(tokens@)),
{
    let mut buffer = String::new();
    let mut i: usize = 0;
    while i < tokens.len()
        invariant
            i <= tokens.len(),
            buffer@ == build_expr_of(tokens_view(tokens@.subrange(0, i as int))),
        decreases tokens.len() - i,
    {
        write_token(&mut buffer, &tokens[i]);
        i = i + 1;
        proof {
            let pre = tokens_view(tokens@.subrange(0, i as int));
            assert(pre.drop_last() =~= tokens_view(tokens@.subrange(0, i - 1)));
            assert(pre.last() == tokens@[i - 1]@);
        }
    }
    assert(tokens@.subrange(0, i as int) =~= tokens@);
    buffer
}

// ---------------------------------------------------------------------------
// Parsing expressions

/// Characters allowed in an identifier after `.`.
pub open spec fn is_identifier_char(c: char) -> bool {
    char_alphabetic(c) || char_numeric(c) || c == '_' || c == '-' || c == ':' || c == '#' || c
        == '@'
}

/// The end of the run of identifier characters starting at `p`.
pub open spec fn ident_end(s: Seq<char>, p: int) -> int
    decreases s.len() - p,
{
    if 0 <= p < s.len() && is_identifier_char(s[p]) {
        ident_end(s, p + 1)
    } else {
        p
    }
}

/// The end of the run of numeric characters starting at `p`.
pub open spec fn numeric_end(s: Seq<char>, p: int) -> int
    decreases s.len() - p,
{
    if 0 <= p < s.len() && char_numeric(s[p]) {
        numeric_end(s, p + 1)
    } else {
        p
    }
}

/// The position of the first single quote at or after `p`, or the length.
pub open spec fn quote_end(s: Seq<char>, p: int) -> int
    decreases s.len() - p,
{
    if 0 <= p < s.len() && s[p] != '\'' {
        quote_end(s, p + 1)
    } else {
        p
    }
}

/// `a`, the path, `b` and a decimal index.
pub open spec fn msg_at(a: Seq<char>, path: Seq<char>, b: Seq<char>, i: int) -> Seq<char> {
    a + path + b + decimal(i as nat)
}

/// `a`, a character, `b`, the path, `d` and a decimal index.
pub open spec fn msg_char_at(
    a: Seq<char>,
    c: char,
    b: Seq<char>,
    path: Seq<char>,
    d: Seq<char>,
    i: int,
) -> Seq<char> {
    a + seq![c] + b + path + d + decimal(i as nat)
}

/// The outcome of reading one step of a path expression.
pub enum SegmentScan {
    /// The step ends before the given position and gives the token.
    Next(int, TokenView),
    /// The expression is rejected with the message.
    Fail(Seq<char>),
    /// An index does not fit in a `usize` or holds a numeric character that is
    /// not an ASCII digit: parsing it panics.
    Abort,
}

/// The outcome of parsing a whole path expression.
pub enum PathParse {
    Parsed(Seq<TokenView>),
    Failed(Seq<char>),
    Aborted,
}

/// identifier -> identifier-char+ ; the first character, at `start`, is
/// already known and the rest starts at `p`.
pub open spec fn scan_identifier(s: Seq<char>, start: int, p: int) -> SegmentScan {
    let e = ident_end(s, p);
    if e < s.len() && !(s[e] == '.' || s[e] == '\'' || s[e] == '[') {
        SegmentScan::Fail(
            msg_char_at(
                "\""@,
                s[e],
                "\" is not allowed in an identifier in path expression \""@,
                s,
                "\" at index "@,
                e,
            ),
        )
    } else {
        SegmentScan::Next(e, TokenView::Field(s.subrange(start, e)))
    }
}

/// path_identifier -> identifier | `*` ; `p` is just after the `.`.
pub open spec fn scan_path_identifier(s: Seq<char>, p: int) -> SegmentScan {
    if p < s.len() {
        if s[p] == '*' {
            SegmentScan::Next(p + 1, TokenView::Star)
        } else if is_identifier_char(s[p]) {
            scan_identifier(s, p, p + 1)
        } else {
            SegmentScan::Fail(
                msg_at(
                    "Expected either a \"*\" or path identifier in path expression \""@,
                    s,
                    "\" at index "@,
                    p,
                ),
            )
        }
    } else {
        SegmentScan::Fail(
            msg_at("Expected a path after \".\" in path expression \""@, s, "\" at index "@, p - 1),
        )
    }
}

/// string_path -> [^']+ `'` ; `p` is just after the opening quote.
pub open spec fn scan_string_path(s: Seq<char>, p: int) -> SegmentScan {
    if p < s.len() {
        let k = quote_end(s, p);
        if k < s.len() {
            if k == p {
                SegmentScan::Fail(
                    msg_at(
                        "Empty strings are not allowed in path expression \""@,
                        s,
                        "\" at index "@,
                        p,
                    ),
                )
            } else {
                SegmentScan::Next(k + 1, TokenView::Field(s.subrange(p, k)))
            }
        } else {
            SegmentScan::Fail(
                msg_at(
                    "Unterminated string in path expression \""@,
                    s,
                    "\" at index "@,
                    s.len() - 1,
                ),
            )
        }
    } else {
        SegmentScan::Fail(
            msg_at("Unterminated string in path expression \""@, s, "\" at index "@, p - 1),
        )
    }
}

/// index_path -> numeric+ ; the character at `p` is numeric.
pub open spec fn scan_index_path(s: Seq<char>, p: int) -> SegmentScan {
    let e = numeric_end(s, p + 1);
    if e < s.len() && s[e] != ']' {
        SegmentScan::Fail(
            msg_char_at(
                "Indexes can only consist of numbers or a \"*\", found \""@,
                s[e],
                "\" instead in path expression \""@,
                s,
                "\" at index "@,
                e,
            ),
        )
    } else {
        match usize_parse(s.subrange(p, e)) {
            Some(v) => SegmentScan::Next(e, TokenView::Index(v)),
            None => SegmentScan::Abort,
        }
    }
}

/// bracket_path -> (string_path | index | `*`) `]` ; `p` is just after the `[`.
pub open spec fn scan_bracket_path(s: Seq<char>, p: int) -> SegmentScan {
    if p < s.len() {
        let c = s[p];
        let inner = if c == '\'' {
            scan_string_path(s, p + 1)
        } else if char_numeric(c) {
            scan_index_path(s, p)
        } else if c == '*' {
            SegmentScan::Next(p + 1, TokenView::StarIndex)
        } else if c == ']' {
            SegmentScan::Fail(
                msg_at(
                    "Empty bracket expressions are not allowed in path expression \""@,
                    s,
                    "\" at index "@,
                    p,
                ),
            )
        } else {
            SegmentScan::Fail(
                msg_char_at(
                    "Indexes can only consist of numbers or a \"*\", found \""@,
                    c,
                    "\" instead in path expression \""@,
                    s,
                    "\" at index "@,
                    p,
                ),
            )
        };
        match inner {
            SegmentScan::Next(r, t) => if r < s.len() {
                if s[r] != ']' {
                    SegmentScan::Fail(
                        msg_char_at(
                            "Unterminated brackets, found \""@,
                            s[r],
                            "\" instead of \"]\" in path expression \""@,
                            s,
                            "\" at index "@,
                            r,
                        ),
                    )
                } else {
                    SegmentScan::Next(r + 1, t)
                }
            } else {
                SegmentScan::Fail(
                    msg_at(
                        "Unterminated brackets in path expression \""@,
                        s,
                        "\" at index "@,
                        encode_utf8(s).len() - 1,
                    ),
                )
            },
            other => other,
        }
    } else {
        SegmentScan::Fail(
            msg_at(
                "Expected a \"'\" (single qoute) or a digit in path expression \""@,
                s,
                "\" after index "@,
                p - 1,
            ),
        )
    }
}

/// One step: `.` path_identifier or `[` bracket_path, starting at `p`.
pub open spec fn scan_segment(s: Seq<char>, p: int) -> SegmentScan {
    if s[p] == '.' {
        scan_path_identifier(s, p + 1)
    } else if s[p] == '[' {
        scan_bracket_path(s, p + 1)
    } else {
        SegmentScan::Fail(
            msg_char_at(
                "Expected a \".\" or \"[\" instead of \""@,
                s[p],
                "\" in path expression \""@,
                s,
                "\" at index "@,
                p,
            ),
        )
    }
}

/// path_exp -> (dot-path | bracket-path)* from position `p`, after the tokens `acc`.
pub open spec fn parse_from(s: Seq<char>, p: int, acc: Seq<TokenView>) -> PathParse
    decreases s.len() - p,
{
    if p < 0 || p >= s.len() {
        PathParse::Parsed(acc)
    } else {
        match scan_segment(s, p) {
            SegmentScan::Next(q, t) => {
                proof {
                    lemma_scan_segment_advances(s, p);
                }
                parse_from(s, q, acc.push(t))
            },
            SegmentScan::Fail(m) => PathParse::Failed(m),
            SegmentScan::Abort => PathParse::Aborted,
        }
    }
}

/// What `parse_path_exp` does with a whole expression: `$` path_exp, an
/// identifier (with an implied root) then path_exp, or nothing.
pub open spec fn path_parse(s: Seq<char>) -> PathParse {
    if s.len() == 0 {
        PathParse::Parsed(Seq::empty())
    } else if s[0] == '$' {
        parse_from(s, 1, seq![TokenView::Root])
    } else if char_alphabetic(s[0]) || char_numeric(s[0]) {
        match scan_identifier(s, 0, 1) {
            SegmentScan::Next(e, t) => parse_from(s, e, seq![TokenView::Root, t]),
            SegmentScan::Fail(m) => PathParse::Failed(m),
            SegmentScan::Abort => PathParse::Aborted,
        }
    } else {
        PathParse::Failed(
            "Path expression \""@ + s + "\" does not start with a root marker \"$\""@,
        )
    }
}

pub proof fn lemma_ident_end_bounds(s: Seq<char>, p: int)
    requires
        0 <= p <= s.len(),
    ensures
        p <= ident_end(s, p) <= s.len(),
    decreases s.len() - p,
{
    if p < s.len() && is_identifier_char(s[p]) {
        lemma_ident_end_bounds(s, p + 1);
    }
}

pub proof fn lemma_numeric_end_bounds(s: Seq<char>, p: int)
    requires
        0 <= p <= s.len(),
    ensures
        p <= numeric_end(s, p) <= s.len(),
    decreases s.len() - p,
{
    if p < s.len() && char_numeric(s[p]) {
        lemma_numeric_end_bounds(s, p + 1);
    }
}

pub proof fn lemma_quote_end_bounds(s: Seq<char>, p: int)
    requires
        0 <= p <= s.len(),
    ensures
        p <= quote_end(s, p) <= s.len(),
        quote_end(s, p) < s.len() ==> s[quote_end(s, p)] == '\'',
        forall|k: int| p <= k < quote_end(s, p) ==> s[k] != '\'',
    decreases s.len() - p,
{
    if p < s.len() && s[p] != '\'' {
        lemma_quote_end_bounds(s, p + 1);
    }
}

/// A step that succeeds moves forward and stays within the expression.
pub proof fn lemma_scan_segment_advances(s: Seq<char>, p: int)
    requires
        0 <= p < s.len(),
    ensures
        scan_segment(s, p) matches SegmentScan::Next(q, _) ==> p < q <= s.len(),
{
    if p + 2 <= s.len() {
        lemma_ident_end_bounds(s, p + 2);
        lemma_quote_end_bounds(s, p + 2);
    }
    if p + 3 <= s.len() {
        lemma_numeric_end_bounds(s, p + 2);
    }
}

// Executable parser

enum Scanned {
    Next(usize, PathToken),
    Fail(String),
    Abort,
}

spec fn scanned_view(r: Scanned) -> SegmentScan {
    match r {
        Scanned::Next(q, t) => SegmentScan::Next(q as int, t@),
        Scanned::Fail(m) => SegmentScan::Fail(m@),
        Scanned::Abort => SegmentScan::Abort,
    }
}

fn is_identifier_char_exec(c: char) -> (r: bool)
    ensures
        r == is_identifier_char(c),
{
    char_is_alphabetic(c) || char_is_numeric(c) || c == '_' || c == '-' || c == ':' || c == '#'
        || c == '@'
}

fn build_msg_at(a: &str, s: &Vec<char>, b: &str, i: usize) -> (m: String)
    ensures
        m@ == msg_at(a@, s@, b@, i as int),
{
    let mut m = String::new();
    push_str(&mut m, a);
    push_chars(&mut m, s, 0, s.len());
    push_str(&mut m, b);
    let d = usize_to_decimal(i);
    push_str(&mut m, d.as_str());
    assert(s@.subrange(0, s@.len() as int) =~= s@);
    assert(m@ =~= msg_at(a@, s@, b@, i as int));
    m
}

fn build_msg_char_at(a: &str, c: char, b: &str, s: &Vec<char>, d: &str, i: usize) -> (m: String)
    ensures
        m@ == msg_char_at(a@, c, b@, s@, d@, i as int),
{
    let mut m = String::new();
    push_str(&mut m, a);
    push_char(&mut m, c);
    push_str(&mut m, b);
    push_chars(&mut m, s, 0, s.len());
    push_str(&mut m, d);
    let n = usize_to_decimal(i);
    push_str(&mut m, n.as_str());
    assert(s@.subrange(0, s@.len() as int) =~= s@);
    assert(m@ =~= msg_char_at(a@, c, b@, s@, d@, i as int));
    m
}

fn exec_ident_end(s: &Vec<char>, p: usize) -> (e: usize)
    requires
        p <= s.len(),
    ensures
        e as int == ident_end(s@, p as int),
        p <= e <= s.len(),
{
    let mut e = p;
    while e < s.len() && is_identifier_char_exec(s[e])
        invariant
            p <= e <= s.len(),
            ident_end(s@, e as int) == ident_end(s@, p as int),
        decreases s.len() - e,
    {
        e = e + 1;
    }
    e
}

fn exec_numeric_end(s: &Vec<char>, p: usize) -> (e: usize)
    requires
        p <= s.len(),
    ensures
        e as int == numeric_end(s@, p as int),
        p <= e <= s.len(),
{
    let mut e = p;
    while e < s.len() && char_is_numeric(s[e])
        invariant
            p <= e <= s.len(),
            numeric_end(s@, e as int) == numeric_end(s@, p as int),
        decreases s.len() - e,
    {
        e = e + 1;
    }
    e
}

fn exec_quote_end(s: &Vec<char>, p: usize) -> (e: usize)
    requires
        p <= s.len(),
    ensures
        e as int == quote_end(s@, p as int),
        p <= e <= s.len(),
{
    let mut e = p;
    while e < s.len() && s[e] != '\''
        invariant
            p <= e <= s.len(),
            quote_end(s@, e as int) == quote_end(s@, p as int),
        decreases s.len() - e,
    {
        e = e + 1;
    }
    e
}

fn exec_scan_identifier(s: &Vec<char>, start: usize, p: usize) -> (r: Scanned)
    requires
        start < p <= s.len(),
    ensures
        scanned_view(r) == scan_identifier(s@, start as int, p as int),
{
    let e = exec_ident_end(s, p);
    if e < s.len() && !(s[e] == '.' || s[e] == '\'' || s[e] == '[') {
        Scanned::Fail(
            build_msg_char_at(
                "\"",
                s[e],
                "\" is not allowed in an identifier in path expression \"",
                s,
                "\" at index ",
                e,
            ),
        )
    } else {
        let mut id = String::new();
        push_chars(&mut id, s, start, e);
        assert(id@ =~= s@.subrange(start as int, e as int));
        Scanned::Next(e, PathToken::Field(id))
    }
}

fn exec_scan_path_identifier(s: &Vec<char>, p: usize) -> (r: Scanned)
    requires
        1 <= p <= s.len(),
    ensures
        scanned_view(r) == scan_path_identifier(s@, p as int),
{
    if p < s.len() {
        if s[p] == '*' {
            Scanned::Next(p + 1, PathToken::Star)
        } else if is_identifier_char_exec(s[p]) {
            exec_scan_identifier(s, p, p + 1)
        } else {
            Scanned::Fail(
                build_msg_at(
                    "Expected either a \"*\" or path identifier in path expression \"",
                    s,
                    "\" at index ",
                    p,
                ),
            )
        }
    } else {
        Scanned::Fail(
            build_msg_at("Expected a path after \".\" in path expression \"", s, "\" at index ", p - 1),
        )
    }
}

fn exec_scan_string_path(s: &Vec<char>, p: usize) -> (r: Scanned)
    requires
        1 <= p <= s.len(),
    ensures
        scanned_view(r) == scan_string_path(s@, p as int),
{
    if p < s.len() {
        let k = exec_quote_end(s, p);
        if k < s.len() {
            if k == p {
                Scanned::Fail(
                    build_msg_at(
                        "Empty strings are not allowed in path expression \"",
                        s,
                        "\" at index ",
                        p,
                    ),
                )
            } else {
                let mut id = String::new();
                push_chars(&mut id, s, p, k);
                assert(id@ =~= s@.subrange(p as int, k as int));
                Scanned::Next(k + 1, PathToken::Field(id))
            }
        } else {
            Scanned::Fail(
                build_msg_at(
                    "Unterminated string in path expression \"",
                    s,
                    "\" at index ",
                    s.len() - 1,
                ),
            )
        }
    } else {
        Scanned::Fail(
            build_msg_at("Unterminated string in path expression \"", s, "\" at index ", p - 1),
        )
    }
}

fn exec_scan_index_path(s: &Vec<char>, p: usize) -> (r: Scanned)
    requires
        p < s.len(),
    ensures
        scanned_view(r) == scan_index_path(s@, p as int),
{
    let e = exec_numeric_end(s, p + 1);
    if e < s.len() && s[e] != ']' {
        Scanned::Fail(
            build_msg_char_at(
                "Indexes can only consist of numbers or a \"*\", found \"",
                s[e],
                "\" instead in path expression \"",
                s,
                "\" at index ",
                e,
            ),
        )
    } else {
        let mut digits: Vec<char> = Vec::new();
        let mut i = p;
        while i < e
            invariant
                p <= i <= e <= s.len(),
                digits@ == s@.subrange(p as int, i as int),
            decreases e - i,
        {
            digits.push(s[i]);
            i = i + 1;
            assert(digits@ =~= s@.subrange(p as int, i as int));
        }
        match parse_usize(&digits) {
            Some(v) => Scanned::Next(e, PathToken::Index(v)),
            None => Scanned::Abort,
        }
    }
}

fn exec_scan_bracket_path(s: &Vec<char>, byte_len: usize, p: usize) -> (r: Scanned)
    requires
        1 <= p <= s.len(),
        byte_len == encode_utf8(s@).len(),
    ensures
        scanned_view(r) == scan_bracket_path(s@, p as int),
{
    if p < s.len() {
        let c = s[p];
        let inner = if c == '\'' {
            exec_scan_string_path(s, p + 1)
        } else if char_is_numeric(c) {
            exec_scan_index_path(s, p)
        } else if c == '*' {
            Scanned::Next(p + 1, PathToken::StarIndex)
        } else if c == ']' {
            Scanned::Fail(
                build_msg_at(
                    "Empty bracket expressions are not allowed in path expression \"",
                    s,
                    "\" at index ",
                    p,
                ),
            )
        } else {
            Scanned::Fail(
                build_msg_char_at(
                    "Indexes can only consist of numbers or a \"*\", found \"",
                    c,
                    "\" instead in path expression \"",
                    s,
                    "\" at index ",
                    p,
                ),
            )
        };
        match inner {
            Scanned::Next(r, t) => {
                if r < s.len() {
                    if s[r] != ']' {
                        Scanned::Fail(
                            build_msg_char_at(
                                "Unterminated brackets, found \"",
                                s[r],
                                "\" instead of \"]\" in path expression \"",
                                s,
                                "\" at index ",
                                r,
                            ),
                        )
                    } else {
                        Scanned::Next(r + 1, t)
                    }
                } else {
                    assert(encode_utf8(s@) =~= encode_scalar(s@[0] as u32) + encode_utf8(
                        s@.drop_first(),
                    ));
                    Scanned::Fail(
                        build_msg_at(
                            "Unterminated brackets in path expression \"",
                            s,
                            "\" at index ",
                            byte_len - 1,
                        ),
                    )
                }
            },
            other => other,
        }
    } else {
        Scanned::Fail(
            build_msg_at(
                "Expected a \"'\" (single qoute) or a digit in path expression \"",
                s,
                "\" after index ",
                p - 1,
            ),
        )
    }
}

fn exec_scan_segment(s: &Vec<char>, byte_len: usize, p: usize) -> (r: Scanned)
    requires
        p < s.len(),
        byte_len == encode_utf8(s@).len(),
    ensures
        scanned_view(r) == scan_segment(s@, p as int),
{
    if s[p] == '.' {
        exec_scan_path_identifier(s, p + 1)
    } else if s[p] == '[' {
        exec_scan_bracket_path(s, byte_len, p + 1)
    } else {
        Scanned::Fail(
            build_msg_char_at(
                "Expected a \".\" or \"[\" instead of \"",
                s[p],
                "\" in path expression \"",
                s,
                "\" at index ",
                p,
            ),
        )
    }
}

/// The executable counterpart of `path_parse`, reporting the panicking case.
fn parse_tokens(path: &str) -> (r: Result<Vec<PathToken>, Option<String>>)
    requires
        encode_utf8(path@).len() <= usize::MAX,
    ensures
        match path_parse(path@) {
            PathParse::Parsed(ts) => r matches Ok(v) && tokens_view(v@) == ts,
            PathParse::Failed(m) => r matches Err(Some(e)) && e@ == m,
            PathParse::Aborted => r matches Err(None),
        },
{
    let s = chars_of(path);
    let byte_len = path.len();
    let mut tokens: Vec<PathToken> = Vec::new();
    if s.len() == 0 {
        assert(tokens_view(tokens@) =~= Seq::<TokenView>::empty());
        return Ok(tokens);
    }
    let mut p: usize;
    if s[0] == '$' {
        tokens.push(PathToken::Root);
        p = 1;
    } else if char_is_alphabetic(s[0]) || char_is_numeric(s[0]) {
        tokens.push(PathToken::Root);
        match exec_scan_identifier(&s, 0, 1) {
            Scanned::Next(e, t) => {
                proof {
                    lemma_ident_end_bounds(s@, 1);
                }
                tokens.push(t);
                p = e;
            },
            Scanned::Fail(m) => {
                return Err(Some(m));
            },
            Scanned::Abort => {
                return Err(None);
            },
        }
    } else {
        let mut m = String::new();
        push_str(&mut m, "Path expression \"");
        push_chars(&mut m, &s, 0, s.len());
        push_str(&mut m, "\" does not start with a root marker \"$\"");
        assert(s@.subrange(0, s@.len() as int) =~= s@);
        return Err(Some(m));
    }
    assert(path_parse(path@) == parse_from(s@, p as int, tokens_view(tokens@))) by {
        if s@[0] == '$' {
            assert(tokens_view(tokens@) =~= seq![TokenView::Root]);
        } else {
            assert(tokens_view(tokens@) =~= seq![TokenView::Root, tokens@[1]@]);
        }
    }
    while p < s.len()
        invariant
            p <= s.len(),
            s@ == path@,
            byte_len == encode_utf8(s@).len(),
            path_parse(path@) == parse_from(s@, p as int, tokens_view(tokens@)),
        decreases s.len() - p,
    {
        proof {
            lemma_scan_segment_advances(s@, p as int);
        }
        match exec_scan_segment(&s, byte_len, p) {
            Scanned::Next(q, t) => {
                let ghost before = tokens_view(tokens@);
                tokens.push(t);
                assert(tokens_view(tokens@) =~= before.push(t@));
                p = q;
            },
            Scanned::Fail(m) => {
                return Err(Some(m));
            },
            Scanned::Abort => {
                return Err(None);
            },
        }
    }
    Ok(tokens)
}

/// Parses a path expression into its tokens.
///
/// An index that does not fit in a `usize`, or that holds a numeric character
/// other than an ASCII digit, makes the expression unparseable: such inputs
/// are excluded here (see `parse_path_exp_checked`).
pub fn parse_path_exp(path: &str) -> (r: Result<Vec<PathToken>, String>)
    requires
        encode_utf8(path@).len() <= usize::MAX,
        !(path_parse(path@) is Aborted),
    ensures
        match path_parse(path@) {
            PathParse::Parsed(ts) => r matches Ok(v) && tokens_view(v@) == ts,
            PathParse::Failed(m) => r matches Err(e) && e@ == m,
            PathParse::Aborted => false,
        },
{
    match parse_tokens(path) {
        Ok(v) => Ok(v),
        Err(Some(m)) => Err(m),
        Err(None) => Err(String::new()),
    }
}

/// Whether parsing the expression would meet an index it cannot read.
pub fn path_exp_aborts(path: &str) -> (r: bool)
    requires
        encode_utf8(path@).len() <= usize::MAX,
    ensures
        r == (path_parse(path@) is Aborted),
{
    match parse_tokens(path) {
        Err(None) => true,
        _ => false,
    }
}

/// Parses a path expression, or gives `None` for an expression whose index
/// cannot be read (where `parse_path_exp` does not apply).
pub fn parse_path_exp_checked(path: &str) -> (r: Option<Result<Vec<PathToken>, String>>)
    requires
        encode_utf8(path@).len() <= usize::MAX,
    ensures
        match path_parse(path@) {
            PathParse::Parsed(ts) => r matches Some(Ok(v)) && tokens_view(v@) == ts,
            PathParse::Failed(m) => r matches Some(Err(e)) && e@ == m,
            PathParse::Aborted => r is None,
        },
{
    if path_exp_aborts(path) {
        None
    } else {
        Some(parse_path_exp(path))
    }
}

// ---------------------------------------------------------------------------
// Document paths

/// A path into a document: its tokens and its textual expression.
#[derive(Debug)]
pub struct DocPath {
    path_tokens: Vec<PathToken>,
    expr: String,
}

/// The mathematical value of a document path.
pub struct DocPathView {
    pub tokens: Seq<TokenView>,
    pub expr: Seq<char>,
}

impl View for DocPath {
    type V = DocPathView;

    closed spec fn view(&self) -> DocPathView {
        DocPathView { tokens: tokens_view(self.path_tokens@), expr: self.expr@ }
    }
}

/// How much a path fragment matches a token: 2 for an exact match, 1 for a
/// wildcard match and 0 for no match.
pub open spec fn token_weight(frag: Seq<char>, t: TokenView) -> nat {
    match t {
        TokenView::Root => if frag == seq!['$'] {
            2
        } else {
            0
        },
        TokenView::Field(name) => if frag == name {
            2
        } else {
            0
        },
        TokenView::Index(i) => match usize_parse(frag) {
            Some(j) => if i == j {
                2
            } else {
                0
            },
            None => 0,
        },
        TokenView::StarIndex => if frag == seq!['[', '*', ']'] || usize_parse(frag) is Some {
            1
        } else {
            0
        },
        TokenView::Star => 1,
    }
}

/// The product of the weights of the first `k` tokens against the first `k`
/// fragments.
pub open spec fn weight_prefix(ts: Seq<TokenView>, frags: Seq<Seq<char>>, k: int) -> nat
    decreases k,
{
    if k <= 0 {
        1
    } else {
        weight_prefix(ts, frags, k - 1) * token_weight(frags[k - 1], ts[k - 1])
    }
}

/// The weight pair `path_weight` gives: the product of the token weights when
/// the path has at least as many fragments as there are tokens, else 0; and
/// the number of tokens.
pub open spec fn path_weight_of(ts: Seq<TokenView>, frags: Seq<Seq<char>>) -> (nat, nat) {
    if frags.len() >= ts.len() {
        (weight_prefix(ts, frags, ts.len() as int), ts.len())
    } else {
        (0, ts.len())
    }
}

/// The weight products along the way stay within a `usize`.
pub open spec fn weight_fits(ts: Seq<TokenView>, frags: Seq<Seq<char>>) -> bool {
    frags.len() >= ts.len() ==> forall|k: int|
        0 <= k <= ts.len() ==> #[trigger] weight_prefix(ts, frags, k) <= usize::MAX
}

/// The views of a list of path fragments.
pub open spec fn frags_view(path: Seq<&str>) -> Seq<Seq<char>> {
    path.map_values(|f: &str| f@)
}

/// The name in the first `Field` token.
pub open spec fn first_field_of(ts: Seq<TokenView>) -> Option<Seq<char>>
    decreases ts.len(),
{
    if ts.len() == 0 {
        None
    } else if ts[0] is Field {
        Some(ts[0]->Field_0)
    } else {
        first_field_of(ts.drop_first())
    }
}

/// The name in the last `Field` token.
pub open spec fn last_field_of(ts: Seq<TokenView>) -> Option<Seq<char>>
    decreases ts.len(),
{
    if ts.len() == 0 {
        None
    } else if ts.last() is Field {
        Some(ts.last()->Field_0)
    } else {
        last_field_of(ts.drop_last())
    }
}

/// The token that `DocPath::join` adds for a part.
pub open spec fn join_token(part: Seq<char>) -> TokenView {
    if part == seq!['*'] {
        TokenView::Star
    } else if part == seq!['[', '*', ']'] {
        TokenView::StarIndex
    } else if usize_parse(part) is Some {
        TokenView::Index(usize_parse(part)->Some_0)
    } else {
        TokenView::Field(part)
    }
}

/// The tokens after adding `t` with replacement of a trailing wildcard, as
/// `join_index` and `join_field` do.
pub open spec fn join_replacing(ts: Seq<TokenView>, t: TokenView) -> Seq<TokenView> {
    if ts.len() > 0 && (ts.last() is Star || ts.last() is StarIndex) {
        ts.update(ts.len() - 1, t)
    } else {
        ts.push(t)
    }
}

/// The expression after `join_index` or `join_field`.
pub open spec fn join_replacing_expr(p: DocPathView, t: TokenView) -> Seq<char> {
    if p.tokens.len() > 0 && (p.tokens.last() is Star || p.tokens.last() is StarIndex) {
        build_expr_of(p.tokens.update(p.tokens.len() - 1, t))
    } else {
        p.expr + token_expr(t)
    }
}

/// The tokens pushed by `push_path`: all but the root markers.
pub open spec fn non_root_tokens(ts: Seq<TokenView>) -> Seq<TokenView> {
    ts.filter(|t: TokenView| !(t is Root))
}

/// A field name as a JSON pointer reference token: `~` becomes `~0` and `/`
/// becomes `~1`.
pub open spec fn pointer_escape(v: Seq<char>) -> Seq<char>
    decreases v.len(),
{
    if v.len() == 0 {
        Seq::empty()
    } else {
        let c = v.last();
        pointer_escape(v.drop_last()) + if c == '~' {
            seq!['~', '0']
        } else if c == '/' {
            seq!['~', '1']
        } else {
            seq![c]
        }
    }
}

/// Whether a token cannot be written as a JSON pointer (it is a wildcard).
pub open spec fn is_wildcard_token(t: TokenView) -> bool {
    t is Star || t is StarIndex
}

/// The JSON pointer for a list of tokens without wildcards.
pub open spec fn json_pointer_of(ts: Seq<TokenView>) -> Seq<char>
    decreases ts.len(),
{
    if ts.len() == 0 {
        Seq::empty()
    } else {
        json_pointer_of(ts.drop_last()) + match ts.last() {
            TokenView::Root => Seq::empty(),
            TokenView::Field(v) => seq!['/'] + pointer_escape(v),
            TokenView::Index(i) => seq!['/'] + decimal(i as nat),
            _ => Seq::empty(),
        }
    }
}

/// The tokens with every field name lower-cased.
pub open spec fn lower_tokens(ts: Seq<TokenView>) -> Seq<TokenView> {
    ts.map_values(
        |t: TokenView|
            match t {
                TokenView::Field(f) => TokenView::Field(unicode_lowercase(f)),
                _ => t,
            },
    )
}

pub proof fn lemma_tokens_view_push(ts: Seq<PathToken>, t: PathToken)
    ensures
        tokens_view(ts.push(t)) == tokens_view(ts).push(t@),
{
    assert(tokens_view(ts.push(t)) =~= tokens_view(ts).push(t@));
}

fn is_wildcard_exec(t: &PathToken) -> (r: bool)
    ensures
        r == is_wildcard_token(t@),
{
    match t {
        PathToken::Star => true,
        PathToken::StarIndex => true,
        _ => false,
    }
}

fn copy_tokens(v: &Vec<PathToken>) -> (r: Vec<PathToken>)
    ensures
        tokens_view(r@) == tokens_view(v@),
        r@.len() == v@.len(),
{
    let mut r: Vec<PathToken> = Vec::new();
    let mut i: usize = 0;
    while i < v.len()
        invariant
            i <= v.len(),
            tokens_view(r@) == tokens_view(v@.subrange(0, i as int)),
        decreases v.len() - i,
    {
        let t = v[i].duplicate();
        proof {
            lemma_tokens_view_push(r@, t);
        }
        r.push(t);
        i = i + 1;
        assert(tokens_view(v@.subrange(0, i as int)) =~= tokens_view(v@.subrange(0, i - 1)).push(
            v@[i - 1]@,
        ));
    }
    assert(v@.subrange(0, i as int) =~= v@);
    r
}

impl DocPath {
    /// Construct a new document path from the provided string path
    pub fn new(expr: &str) -> (r: Result<DocPath, String>)
        requires
            encode_utf8(expr@).len() <= usize::MAX,
            !(path_parse(expr@) is Aborted),
        ensures
            match path_parse(expr@) {
                PathParse::Parsed(ts) => r matches Ok(p) && p@.tokens == ts && p@.expr == expr@,
                PathParse::Failed(m) => r matches Err(e) && e@ == m,
                PathParse::Aborted => false,
            },
    {
        match parse_path_exp(expr) {
            Ok(path_tokens) => Ok(DocPath { path_tokens, expr: expr.to_owned() }),
            Err(e) => Err(e),
        }
    }

    /// Infallible construction for when the expression is statically known,
    /// intended for unit tests. Only expressions that parse are accepted.
    pub fn new_unwrap(expr: &str) -> (r: DocPath)
        requires
            encode_utf8(expr@).len() <= usize::MAX,
            path_parse(expr@) is Parsed,
        ensures
            r@.tokens == path_parse(expr@)->Parsed_0,
            r@.expr == expr@,
    {
        match Self::new(expr) {
            Ok(p) => p,
            Err(_) => DocPath::empty(),
        }
    }

    /// Construct a new DocPath with an empty expression.
    ///
    /// Warning: do not call any of the `push_*` methods on this DocPath,
    /// as that would create an expression with invalid syntax
    /// (because it would be missing the Root token).
    pub fn empty() -> (r: DocPath)
        ensures
            r@.tokens == Seq::<TokenView>::empty(),
            r@.expr == Seq::<char>::empty(),
    {
        let r = DocPath { path_tokens: Vec::new(), expr: String::new() };
        assert(tokens_view(r.path_tokens@) =~= Seq::<TokenView>::empty());
        r
    }

    /// Construct a new DocPath with the Root token.
    pub fn root() -> (r: DocPath)
        ensures
            r@.tokens == seq![TokenView::Root],
            r@.expr == seq!['$'],
    {
        let mut path_tokens = Vec::new();
        path_tokens.push(PathToken::Root);
        let mut expr = String::new();
        push_char(&mut expr, '$');
        let r = DocPath { path_tokens, expr };
        assert(tokens_view(r.path_tokens@) =~= seq![TokenView::Root]);
        assert(r.expr@ =~= seq!['$']);
        r
    }

    /// Construct a new DocPath from a list of tokens
    pub fn from_tokens(tokens: Vec<PathToken>) -> (r: DocPath)
        ensures
            r@.tokens == tokens_view(tokens@),
            r@.expr == build_expr_of(tokens_view(tokens@)),
    {
        let expr = build_expr_from(&tokens);
        DocPath { path_tokens: tokens, expr }
    }

    /// Return the list of tokens that comprise this path.
    pub fn tokens(&self) -> (r: &Vec<PathToken>)
        ensures
            tokens_view(r@) == self@.tokens,
    {
        &self.path_tokens
    }

    /// Return the length, in parsed tokens.
    pub fn len(&self) -> (r: usize)
        ensures
            r == self@.tokens.len(),
    {
        self.path_tokens.len()
    }

    /// Returns the last item in the path. The path must not be empty.
    pub fn last(&self) -> (r: Option<PathToken>)
        requires
            self@.tokens.len() > 0,
        ensures
            r matches Some(t) && t@ == self@.tokens.last(),
    {
        Some(self.path_tokens[self.path_tokens.len() - 1].duplicate())
    }

    /// Extract the string contents of the first Field token.
    /// For use with Header and Query DocPaths.
    pub fn first_field(&self) -> (r: Option<&str>)
        ensures
            match first_field_of(self@.tokens) {
                Some(f) => r matches Some(s) && s@ == f,
                None => r is None,
            },
    {
        let mut i: usize = 0;
        assert(self@.tokens.subrange(0, self@.tokens.len() as int) =~= self@.tokens);
        while i < self.path_tokens.len()
            invariant
                i <= self.path_tokens.len(),
                first_field_of(self@.tokens) == first_field_of(self@.tokens.subrange(
                    i as int,
                    self@.tokens.len() as int,
                )),
            decreases self.path_tokens.len() - i,
        {
            proof {
                let rest = self@.tokens.subrange(i as int, self@.tokens.len() as int);
                assert(rest.drop_first() =~= self@.tokens.subrange(i + 1, self@.tokens.len() as int));
                assert(rest[0] == self.path_tokens@[i as int]@);
            }
            if let PathToken::Field(field) = &self.path_tokens[i] {
                return Some(field.as_str());
            }
            i = i + 1;
        }
        None
    }

    /// Extract the string contents of the last Field token.
    pub fn last_field(&self) -> (r: Option<&str>)
        ensures
            match last_field_of(self@.tokens) {
                Some(f) => r matches Some(s) && s@ == f,
                None => r is None,
            },
    {
        let mut i: usize = self.path_tokens.len();
        assert(self@.tokens.subrange(0, i as int) =~= self@.tokens);
        while i > 0
            invariant
                i <= self.path_tokens.len(),
                last_field_of(self@.tokens) == last_field_of(self@.tokens.subrange(0, i as int)),
            decreases i,
        {
            proof {
                let pre = self@.tokens.subrange(0, i as int);
                assert(pre.drop_last() =~= self@.tokens.subrange(0, i - 1));
                assert(pre.last() == self.path_tokens@[i - 1]@);
            }
            if let PathToken::Field(field) = &self.path_tokens[i - 1] {
                return Some(field.as_str());
            }
            i = i - 1;
        }
        None
    }

    /// If this path is the root path (it has only one element, the root token `$`).
    pub fn is_root(&self) -> (r: bool)
        ensures
            r == (self@.tokens == seq![TokenView::Root]),
    {
        let r = self.path_tokens.len() == 1 && match &self.path_tokens[0] {
            PathToken::Root => true,
            _ => false,
        };
        proof {
            if r {
                assert(self@.tokens =~= seq![TokenView::Root]);
            }
            if self@.tokens =~= seq![TokenView::Root] {
                assert(self@.tokens[0] == self.path_tokens@[0]@);
            }
        }
        r
    }

    /// The path is a wildcard path if it ends in a star (`*`)
    pub fn is_wildcard(&self) -> (r: bool)
        ensures
            r == (self@.tokens.len() > 0 && self@.tokens.last() is Star),
    {
        self.path_tokens.len() > 0 && match &self.path_tokens[self.path_tokens.len() - 1] {
            PathToken::Star => true,
            _ => false,
        }
    }

    /// Calculates the path weight for this path expression and a given path.
    /// Returns a tuple of the calculated weight and the number of path tokens matched.
    pub fn path_weight(&self, path: &[&str]) -> (r: (usize, usize))
        requires
            weight_fits(self@.tokens, frags_view(path@)),
        ensures
            r.0 == path_weight_of(self@.tokens, frags_view(path@)).0,
            r.1 == path_weight_of(self@.tokens, frags_view(path@)).1,
    {
        let n = self.path_tokens.len();
        if path.len() >= n {
            let mut acc: usize = 1;
            let mut i: usize = 0;
            while i < n
                invariant
                    n == self@.tokens.len(),
                    path@.len() >= n,
                    i <= n,
                    weight_fits(self@.tokens, frags_view(path@)),
                    acc == weight_prefix(self@.tokens, frags_view(path@), i as int),
                decreases n - i,
            {
                let m = matches_token(path[i], &self.path_tokens[i]);
                proof {
                    assert(frags_view(path@)[i as int] == path@[i as int]@);
                    assert(weight_prefix(self@.tokens, frags_view(path@), i + 1) <= usize::MAX);
                }
                acc = acc * m;
                i = i + 1;
            }
            (acc, n)
        } else {
            (0, n)
        }
    }

    /// If this path matches the given path. It will match if the calculated path weight is greater
    /// than zero (which means at least one token matched).
    pub fn matches_path(&self, path: &[&str]) -> (r: bool)
        requires
            weight_fits(self@.tokens, frags_view(path@)),
        ensures
            r == (path_weight_of(self@.tokens, frags_view(path@)).0 > 0),
    {
        self.path_weight(path).0 > 0
    }

    /// If the path matches the given path (the calculated path weight is greater than zero) and
    /// both paths have the same length.
    pub fn matches_path_exactly(&self, path: &[&str]) -> (r: bool)
        requires
            weight_fits(self@.tokens, frags_view(path@)),
        ensures
            r == (self@.tokens.len() == path@.len() && path_weight_of(
                self@.tokens,
                frags_view(path@),
            ).0 > 0),
    {
        self.len() == path.len() && self.matches_path(path)
    }

    /// A copy of this path.
    pub fn duplicate(&self) -> (r: DocPath)
        ensures
            r@ == self@,
    {
        DocPath { path_tokens: copy_tokens(&self.path_tokens), expr: self.expr.clone() }
    }

    /// Creates a new path by cloning this one and pushing the string onto the end
    pub fn join(&self, part: &str) -> (r: DocPath)
        ensures
            r@.tokens == self@.tokens.push(join_token(part@)),
            r@.expr == self@.expr + token_expr(join_token(part@)),
    {
        let mut path = self.duplicate();
        let chars = chars_of(part);
        proof {
            reveal_strlit("*");
            reveal_strlit("[*]");
            assert("*"@ =~= seq!['*']);
            assert("[*]"@ =~= seq!['[', '*', ']']);
        }
        if str_equal(part, "*") {
            path.push_star();
        } else if str_equal(part, "[*]") {
            path.push_star_index();
        } else if let Some(index) = parse_usize(&chars) {
            path.push_index(index);
        } else {
            path.push_field(part);
        }
        path
    }

    /// Creates a new path by cloning this one and joining the index onto the end. Paths that end
    /// with `*` will have the `*` replaced with the index.
    pub fn join_index(&self, index: usize) -> (r: DocPath)
        ensures
            r@.tokens == join_replacing(self@.tokens, TokenView::Index(index)),
            r@.expr == join_replacing_expr(self@, TokenView::Index(index)),
    {
        let mut path = self.duplicate();
        let n = self.path_tokens.len();
        assert(tokens_view(path.path_tokens@).len() == path.path_tokens@.len());
        assert(tokens_view(self.path_tokens@).len() == self.path_tokens@.len());
        if n > 0 && is_wildcard_exec(&self.path_tokens[n - 1]) {
            path.path_tokens.set(n - 1, PathToken::Index(index));
            assert(tokens_view(path.path_tokens@) =~= self@.tokens.update(
                n - 1,
                TokenView::Index(index),
            ));
            path.expr = path.build_expr();
        } else {
            path.push_index(index);
        }
        path
    }

    /// Creates a new path by cloning this one and joining the field onto the end. Paths that end
    /// with `*` will have the `*` replaced with the field.
    pub fn join_field(&self, name: &str) -> (r: DocPath)
        ensures
            r@.tokens == join_replacing(self@.tokens, TokenView::Field(name@)),
            r@.expr == join_replacing_expr(self@, TokenView::Field(name@)),
    {
        let mut path = self.duplicate();
        let n = self.path_tokens.len();
        assert(tokens_view(path.path_tokens@).len() == path.path_tokens@.len());
        assert(tokens_view(self.path_tokens@).len() == self.path_tokens@.len());
        if n > 0 && is_wildcard_exec(&self.path_tokens[n - 1]) {
            path.path_tokens.set(n - 1, PathToken::Field(name.to_owned()));
            assert(tokens_view(path.path_tokens@) =~= self@.tokens.update(
                n - 1,
                TokenView::Field(name@),
            ));
            path.expr = path.build_expr();
        } else {
            path.push_field(name);
        }
        path
    }

    /// Mutates this path by pushing a field value onto the end.
    pub fn push_field(&mut self, field: &str) -> (r: &mut Self)
        ensures
            (*r)@.tokens == old(self)@.tokens.push(TokenView::Field(field@)),
            (*r)@.expr == old(self)@.expr + obj_key_text(field@),
            *final(self) == *final(r),
    {
        write_obj_key_for_path(&mut self.expr, field);
        let t = PathToken::Field(field.to_owned());
        proof {
            lemma_tokens_view_push(self.path_tokens@, t);
        }
        self.path_tokens.push(t);
        self
    }

    /// Mutates this path by pushing an index value onto the end.
    pub fn push_index(&mut self, index: usize) -> (r: &mut Self)
        ensures
            (*r)@.tokens == old(self)@.tokens.push(TokenView::Index(index)),
            (*r)@.expr == old(self)@.expr + token_expr(TokenView::Index(index)),
            *final(self) == *final(r),
    {
        let t = PathToken::Index(index);
        proof {
            lemma_tokens_view_push(self.path_tokens@, t);
        }
        self.path_tokens.push(t);
        write_token(&mut self.expr, &PathToken::Index(index));
        self
    }

    /// Mutates this path by pushing a star value onto the end.
    pub fn push_star(&mut self) -> (r: &mut Self)
        ensures
            (*r)@.tokens == old(self)@.tokens.push(TokenView::Star),
            (*r)@.expr == old(self)@.expr + seq!['.', '*'],
            *final(self) == *final(r),
    {
        proof {
            lemma_tokens_view_push(self.path_tokens@, PathToken::Star);
        }
        self.path_tokens.push(PathToken::Star);
        write_token(&mut self.expr, &PathToken::Star);
        self
    }

    /// Mutates this path by pushing a star index value onto the end.
    pub fn push_star_index(&mut self) -> (r: &mut Self)
        ensures
            (*r)@.tokens == old(self)@.tokens.push(TokenView::StarIndex),
            (*r)@.expr == old(self)@.expr + seq!['[', '*', ']'],
            *final(self) == *final(r),
    {
        proof {
            lemma_tokens_view_push(self.path_tokens@, PathToken::StarIndex);
        }
        self.path_tokens.push(PathToken::StarIndex);
        write_token(&mut self.expr, &PathToken::StarIndex);
        self
    }

    /// Mutates this path by pushing a path token onto the end.
    pub fn push(&mut self, path_token: PathToken) -> (r: &mut Self)
        ensures
            (*r)@.tokens == old(self)@.tokens.push(path_token@),
            (*r)@.expr == old(self)@.expr + token_expr(path_token@),
            *final(self) == *final(r),
    {
        write_token(&mut self.expr, &path_token);
        proof {
            lemma_tokens_view_push(self.path_tokens@, path_token);
        }
        self.path_tokens.push(path_token);
        self
    }

    /// Mutates this path by pushing another path onto the end. Will drop the root marker from the
    /// other path
    pub fn push_path(&mut self, path: &DocPath) -> (r: &mut Self)
        ensures
            (*r)@.tokens == old(self)@.tokens + non_root_tokens(path@.tokens),
            (*r)@.expr == old(self)@.expr + build_expr_of(non_root_tokens(path@.tokens)),
            *final(self) == *final(r),
    {
        let mut i: usize = 0;
        while i < path.path_tokens.len()
            invariant
                i <= path.path_tokens.len(),
                self@.tokens == old(self)@.tokens + non_root_tokens(
                    path@.tokens.subrange(0, i as int),
                ),
                self@.expr == old(self)@.expr + build_expr_of(
                    non_root_tokens(path@.tokens.subrange(0, i as int)),
                ),
            decreases path.path_tokens.len() - i,
        {
            let token = &path.path_tokens[i];
            let ghost pre = path@.tokens.subrange(0, i as int);
            let ghost next = path@.tokens.subrange(0, i + 1);
            assert(next =~= pre.push(token@));
            proof {
                lemma_filter_push(pre, token@);
            }
            match token {
                PathToken::Root => {},
                _ => {
                    let ghost before = self@;
                    self.push(token.duplicate());
                    proof {
                        lemma_build_expr_push(non_root_tokens(pre), token@);
                        assert(self@.tokens =~= old(self)@.tokens + non_root_tokens(next));
                    }
                },
            }
            i = i + 1;
        }
        assert(path@.tokens.subrange(0, i as int) =~= path@.tokens);
        self
    }

    /// Convert this path to a vector of strings
    pub fn to_vec(&self) -> (r: Vec<String>)
        ensures
            r@.len() == self@.tokens.len(),
            forall|i: int| 0 <= i < r@.len() ==> #[trigger] r@[i]@ == token_text(self@.tokens[i]),
    {
        let mut r: Vec<String> = Vec::new();
        let mut i: usize = 0;
        while i < self.path_tokens.len()
            invariant
                i <= self.path_tokens.len(),
                r@.len() == i,
                forall|j: int| 0 <= j < i ==> #[trigger] r@[j]@ == token_text(self@.tokens[j]),
            decreases self.path_tokens.len() - i,
        {
            r.push(self.path_tokens[i].to_string());
            i = i + 1;
        }
        r
    }

    /// Return the parent path from this one
    pub fn parent(&self) -> (r: Option<DocPath>)
        ensures
            self@.tokens.len() <= 1 ==> r is None,
            self@.tokens.len() > 1 ==> (r matches Some(p) && p@.tokens == self@.tokens.drop_last()
                && p@.expr == build_expr_of(self@.tokens.drop_last())),
    {
        if self.path_tokens.len() <= 1 {
            None
        } else {
            let mut vec = copy_tokens(&self.path_tokens);
            let ghost before = vec@;
            vec.truncate(vec.len() - 1);
            assert(tokens_view(vec@) =~= self@.tokens.drop_last()) by {
                assert(vec@ =~= before.subrange(0, before.len() - 1));
            }
            Some(DocPath::from_tokens(vec))
        }
    }

    /// The expression written for this path's tokens.
    pub fn build_expr(&self) -> (r: String)
        ensures
            r@ == build_expr_of(self@.tokens),
    {
        build_expr_from(&self.path_tokens)
    }

    /// Returns a copy of this path will all parts lower case
    pub fn to_lower_case(&self) -> (r: DocPath)
        ensures
            r@.tokens == lower_tokens(self@.tokens),
            r@.expr == unicode_lowercase(self@.expr),
    {
        let mut path_tokens: Vec<PathToken> = Vec::new();
        let mut i: usize = 0;
        while i < self.path_tokens.len()
            invariant
                i <= self.path_tokens.len(),
                tokens_view(path_tokens@) == lower_tokens(self@.tokens.subrange(0, i as int)),
            decreases self.path_tokens.len() - i,
        {
            let t = match &self.path_tokens[i] {
                PathToken::Field(f) => PathToken::Field(str_to_lowercase(f.as_str())),
                other => other.duplicate(),
            };
            proof {
                lemma_tokens_view_push(path_tokens@, t);
            }
            path_tokens.push(t);
            i = i + 1;
            assert(tokens_view(path_tokens@) =~= lower_tokens(self@.tokens.subrange(0, i as int)));
        }
        assert(self@.tokens.subrange(0, i as int) =~= self@.tokens);
        DocPath { path_tokens, expr: str_to_lowercase(self.expr.as_str()) }
    }

    /// Converts this path into a JSON pointer [RFC6901](https://datatracker.ietf.org/doc/html/rfc6901).
    /// Wildcards cannot be written as a pointer.
    pub fn as_json_pointer(&self) -> (r: Result<String, String>)
        ensures
            (exists|i: int| 0 <= i < self@.tokens.len() && is_wildcard_token(
                #[trigger] self@.tokens[i],
            )) ==> (r matches Err(e) && e@ == "* can not be converted to a JSON pointer"@),
            (forall|i: int| 0 <= i < self@.tokens.len() ==> !is_wildcard_token(
                #[trigger] self@.tokens[i],
            )) ==> (r matches Ok(s) && s@ == json_pointer_of(self@.tokens)),
    {
        let mut buffer = String::new();
        let mut i: usize = 0;
        while i < self.path_tokens.len()
            invariant
                i <= self.path_tokens.len(),
                forall|j: int| 0 <= j < i ==> !is_wildcard_token(#[trigger] self@.tokens[j]),
                buffer@ == json_pointer_of(self@.tokens.subrange(0, i as int)),
            decreases self.path_tokens.len() - i,
        {
            let ghost pre = self@.tokens.subrange(0, i + 1);
            assert(pre.drop_last() =~= self@.tokens.subrange(0, i as int));
            match &self.path_tokens[i] {
                PathToken::Root => {
                    assert(buffer@ =~= json_pointer_of(pre));
                },
                PathToken::Field(v) => {
                    push_char(&mut buffer, '/');
                    let chars = chars_of(v.as_str());
                    let ghost start = buffer@;
                    let mut k: usize = 0;
                    while k < chars.len()
                        invariant
                            k <= chars.len(),
                            buffer@ == start + pointer_escape(chars@.subrange(0, k as int)),
                        decreases chars.len() - k,
                    {
                        let c = chars[k];
                        if c == '~' {
                            push_char(&mut buffer, '~');
                            push_char(&mut buffer, '0');
                        } else if c == '/' {
                            push_char(&mut buffer, '~');
                            push_char(&mut buffer, '1');
                        } else {
                            push_char(&mut buffer, c);
                        }
                        k = k + 1;
                        proof {
                            let cur = chars@.subrange(0, k as int);
                            assert(cur.drop_last() =~= chars@.subrange(0, k - 1));
                            assert(buffer@ =~= start + pointer_escape(cur));
                        }
                    }
                    assert(chars@.subrange(0, k as int) =~= v@);
                    assert(buffer@ =~= json_pointer_of(pre));
                },
                PathToken::Index(n) => {
                    push_char(&mut buffer, '/');
                    let d = usize_to_decimal(*n);
                    push_str(&mut buffer, d.as_str());
                    assert(buffer@ =~= json_pointer_of(pre));
                },
                PathToken::Star => {
                    return Err("* can not be converted to a JSON pointer".to_owned());
                },
                PathToken::StarIndex => {
                    return Err("* can not be converted to a JSON pointer".to_owned());
                },
            }
            i = i + 1;
        }
        assert(self@.tokens.subrange(0, i as int) =~= self@.tokens);
        Ok(buffer)
    }

    /// The expression of this path.
    pub fn to_string(&self) -> (r: String)
        ensures
            r@ == self@.expr,
    {
        self.expr.clone()
    }
}

impl PartialEq for DocPath {
    fn eq(&self, other: &Self) -> (r: bool) {
        self.expr.eq(&other.expr)
    }
}

impl vstd::std_specs::cmp::PartialEqSpecImpl for DocPath {
    open spec fn obeys_eq_spec() -> bool {
        true
    }

    /// Two paths are equal when their expressions are.
    open spec fn eq_spec(&self, other: &DocPath) -> bool {
        self@.expr == other@.expr
    }
}

impl Eq for DocPath {
}

/// The text of an object key as it is written in a path expression.
pub fn obj_key_for_path(key: &str) -> (r: String)
    ensures
        r@ == obj_key_text(key@),
{
    let mut out = String::new();
    write_obj_key_for_path(&mut out, key);
    out
}

/// How much a path fragment matches a token: 2 for an exact match, 1 for a
/// wildcard match and 0 for no match.
pub fn matches_token(path_fragment: &str, path_token: &PathToken) -> (r: usize)
    ensures
        r == token_weight(path_fragment@, path_token@),
{
    proof {
        reveal_strlit("$");
        reveal_strlit("[*]");
        assert("$"@ =~= seq!['$']);
        assert("[*]"@ =~= seq!['[', '*', ']']);
    }
    match path_token {
        PathToken::Root => if str_equal(path_fragment, "$") {
            2
        } else {
            0
        },
        PathToken::Field(name) => if str_equal(path_fragment, name.as_str()) {
            2
        } else {
            0
        },
        PathToken::Index(index) => match parse_usize(&chars_of(path_fragment)) {
            Some(i) => if *index == i {
                2
            } else {
                0
            },
            None => 0,
        },
        PathToken::StarIndex => if str_equal(path_fragment, "[*]") {
            1
        } else {
            match parse_usize(&chars_of(path_fragment)) {
                Some(_) => 1,
                None => 0,
            }
        },
        PathToken::Star => 1,
    }
}

pub proof fn lemma_filter_push(ts: Seq<TokenView>, t: TokenView)
    ensures
        non_root_tokens(ts.push(t)) == if t is Root {
            non_root_tokens(ts)
        } else {
            non_root_tokens(ts).push(t)
        },
{
    reveal_with_fuel(Seq::<_>::filter, 1);
    assert(ts.push(t).drop_last() =~= ts);
}

pub proof fn lemma_build_expr_push(ts: Seq<TokenView>, t: TokenView)
    ensures
        build_expr_of(ts.push(t)) == build_expr_of(ts) + token_expr(t),
{
    assert(ts.push(t).drop_last() =~= ts);
}

} // verus!
