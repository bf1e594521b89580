//! The tokens of matching rule definition expressions and the lexer that
//! splits an expression into them.
//!
//! Positions are character positions in the source; spans handed to error
//! reports are the matching UTF-8 byte offsets.
use vstd::prelude::*;
use crate::text::{
    byte_len, byte_offset, bytes_before, chars_of, digit_value, digits_value, is_ascii_digit,
    is_ascii_letter, is_whitespace_exec, push_chars, trim_start_of,
};

verus! {

/// A token of a matching rule definition expression.
#[derive(Debug, Copy, Clone, PartialEq, Eq, Structural)]
pub enum MatcherDefinitionToken {
    Matching,
    NotEmpty,
    EachKey,
    EachValue,
    AtLeast,
    AtMost,
    LeftBracket,
    RightBracket,
    Comma,
    String,
    Id,
    Int(i64),
    Num(usize),
    Decimal,
    DecimalPart,
    Boolean,
    Null,
    Dollar,
}

/// The characters skipped between tokens.
pub open spec fn is_lex_space(c: char) -> bool {
    c == ' ' || c == '\t' || c == '\n' || c == '\x0C'
}

/// The first position from `i` on that is not a skipped space.
pub open spec fn skip_spaces(s: Seq<char>, i: int) -> int
    decreases s.len() - i,
{
    if 0 <= i < s.len() && is_lex_space(s[i]) {
        skip_spaces(s, i + 1)
    } else {
        i
    }
}

/// The end of the run of ASCII letters starting at `i`.
pub open spec fn letters_end(s: Seq<char>, i: int) -> int
    decreases s.len() - i,
{
    if 0 <= i < s.len() && is_ascii_letter(s[i]) {
        letters_end(s, i + 1)
    } else {
        i
    }
}

/// The end of the run of ASCII digits starting at `i`.
pub open spec fn digits_end(s: Seq<char>, i: int) -> int
    decreases s.len() - i,
{
    if 0 <= i < s.len() && is_ascii_digit(s[i]) {
        digits_end(s, i + 1)
    } else {
        i
    }
}

/// The closing quote of a quoted string, searching from `k`: the first quote
/// not preceded by a backslash; failing that, the last quote seen (`last`).
pub open spec fn string_close(s: Seq<char>, k: int, last: Option<int>) -> Option<int>
    decreases s.len() - k,
{
    if k < 1 || k >= s.len() {
        last
    } else if s[k] == '\'' {
        if s[k - 1] != '\\' {
            Some(k)
        } else {
            string_close(s, k + 1, Some(k))
        }
    } else {
        string_close(s, k + 1, last)
    }
}

/// The token of a run of letters: a keyword, a boolean, `null`, or an identifier.
pub open spec fn word_token(w: Seq<char>) -> MatcherDefinitionToken {
    if w == "matching"@ {
        MatcherDefinitionToken::Matching
    } else if w == "notEmpty"@ {
        MatcherDefinitionToken::NotEmpty
    } else if w == "eachKey"@ {
        MatcherDefinitionToken::EachKey
    } else if w == "eachValue"@ {
        MatcherDefinitionToken::EachValue
    } else if w == "atLeast"@ {
        MatcherDefinitionToken::AtLeast
    } else if w == "atMost"@ {
        MatcherDefinitionToken::AtMost
    } else if w == "true"@ || w == "false"@ {
        MatcherDefinitionToken::Boolean
    } else if w == "null"@ {
        MatcherDefinitionToken::Null
    } else {
        MatcherDefinitionToken::Id
    }
}

/// One step of the lexer: the token found from position `pos` on (none at the
/// end of the input, an error where no token matches), with its start and end.
pub struct LexStep {
    pub token: Option<Result<MatcherDefinitionToken, ()>>,
    pub start: int,
    pub end: int,
}

pub open spec fn step_of(t: MatcherDefinitionToken, start: int, end: int) -> LexStep {
    LexStep { token: Some(Ok(t)), start, end }
}

pub open spec fn error_step(start: int, end: int) -> LexStep {
    LexStep { token: Some(Err(())), start, end }
}

/// A run of digits `s[i..j]` as a `Num` token: its value when it fits in a
/// `usize`, an error otherwise.
pub open spec fn num_step(s: Seq<char>, i: int, j: int) -> LexStep {
    let n = digits_value(s.subrange(i, j));
    if n <= usize::MAX {
        step_of(MatcherDefinitionToken::Num(n as usize), i, j)
    } else {
        error_step(i, j)
    }
}

/// A minus sign followed by the digits `s[i + 1..j]` as an `Int` token: its
/// value when it fits in an `i64`, an error otherwise.
pub open spec fn int_step(s: Seq<char>, i: int, j: int) -> LexStep {
    let n = digits_value(s.subrange(i + 1, j));
    if n <= 0x8000_0000_0000_0000 {
        step_of(MatcherDefinitionToken::Int((0 - n) as i64), i, j)
    } else {
        error_step(i, j)
    }
}

/// The token that starts at position `i`, which holds a character that is not
/// a skipped space.
pub open spec fn token_at(s: Seq<char>, i: int) -> LexStep {
    let c = s[i];
    let n = s.len() as int;
    if c == '(' {
        step_of(MatcherDefinitionToken::LeftBracket, i, i + 1)
    } else if c == ')' {
        step_of(MatcherDefinitionToken::RightBracket, i, i + 1)
    } else if c == ',' {
        step_of(MatcherDefinitionToken::Comma, i, i + 1)
    } else if c == '$' {
        step_of(MatcherDefinitionToken::Dollar, i, i + 1)
    } else if c == '\'' {
        match string_close(s, i + 1, None) {
            Some(q) => step_of(MatcherDefinitionToken::String, i, q + 1),
            None => error_step(i, n),
        }
    } else if is_ascii_letter(c) {
        let j = letters_end(s, i);
        step_of(word_token(s.subrange(i, j)), i, j)
    } else if is_ascii_digit(c) {
        if i + 2 < n && s[i + 1] == '.' && is_ascii_digit(s[i + 2]) {
            step_of(MatcherDefinitionToken::Decimal, i, digits_end(s, i + 2))
        } else {
            num_step(s, i, digits_end(s, i))
        }
    } else if c == '-' {
        if i + 1 < n && is_ascii_digit(s[i + 1]) {
            if i + 3 < n && s[i + 2] == '.' && is_ascii_digit(s[i + 3]) {
                step_of(MatcherDefinitionToken::Decimal, i, digits_end(s, i + 3))
            } else {
                int_step(s, i, digits_end(s, i + 1))
            }
        } else {
            error_step(i, i + 1)
        }
    } else if c == '.' {
        if i + 1 < n && is_ascii_digit(s[i + 1]) {
            step_of(MatcherDefinitionToken::DecimalPart, i, digits_end(s, i + 1))
        } else {
            error_step(i, i + 1)
        }
    } else {
        error_step(i, i + 1)
    }
}

/// The lexer step from position `pos`: spaces are skipped, then a token is
/// read; at the end of the input there is none, with an empty span there.
pub open spec fn lex_step(s: Seq<char>, pos: int) -> LexStep {
    let i = skip_spaces(s, pos);
    if i >= s.len() {
        LexStep { token: None, start: i, end: i }
    } else {
        token_at(s, i)
    }
}

/// The state of a lexer: its source and the span of the current token.
pub struct LexState {
    pub src: Seq<char>,
    pub start: int,
    pub end: int,
}

pub open spec fn lex_state_wf(st: LexState) -> bool {
    0 <= st.start <= st.end <= st.src.len()
}

/// The lexer state after reading the next token, and that token.
pub open spec fn lex_next(st: LexState) -> (LexState, Option<Result<MatcherDefinitionToken, ()>>) {
    let step = lex_step(st.src, st.end);
    (LexState { src: st.src, start: step.start, end: step.end }, step.token)
}

/// The text of the current token.
pub open spec fn lex_slice(st: LexState) -> Seq<char> {
    st.src.subrange(st.start, st.end)
}

/// The text after the current token.
pub open spec fn lex_remainder(st: LexState) -> Seq<char> {
    st.src.subrange(st.end, st.src.len() as int)
}

/// The byte offsets of the span of the current token.
pub open spec fn byte_span(st: LexState) -> (int, int) {
    (bytes_before(st.src, st.start) as int, bytes_before(st.src, st.end) as int)
}

/// Whether the text after the current token starts with a dot.
pub open spec fn followed_by_dot(st: LexState) -> bool {
    0 <= st.end < st.src.len() && st.src[st.end] == '.'
}

/// Whether `s` starts with `p`.
pub open spec fn has_prefix(s: Seq<char>, p: Seq<char>) -> bool {
    p.len() <= s.len() && s.subrange(0, p.len() as int) == p
}

/// A lexer over the characters of a matching rule definition expression.
pub struct DefinitionLexer {
    chars: Vec<char>,
    start: usize,
    end: usize,
}

impl View for DefinitionLexer {
    type V = LexState;

    closed spec fn view(&self) -> LexState {
        LexState { src: self.chars@, start: self.start as int, end: self.end as int }
    }
}


fn skip_spaces_from(chars: &Vec<char>, pos: usize) -> (r: usize)
    requires
        pos <= chars.len(),
    ensures
        r == skip_spaces(chars@, pos as int),
        pos <= r <= chars.len(),
        r < chars.len() ==> !is_lex_space(chars@[r as int]),
{
    let mut i = pos;
    while i < chars.len() && (chars[i] == ' ' || chars[i] == '\t' || chars[i] == '\n' || chars[i] == '\x0C')
        invariant
            pos <= i <= chars.len(),
            skip_spaces(chars@, pos as int) == skip_spaces(chars@, i as int),
        decreases chars.len() - i,
    {
        i = i + 1;
    }
    i
}

fn letters_end_from(chars: &Vec<char>, pos: usize) -> (r: usize)
    requires
        pos <= chars.len(),
    ensures
        r == letters_end(chars@, pos as int),
        pos <= r <= chars.len(),
        pos < chars.len() && is_ascii_letter(chars@[pos as int]) ==> pos < r,
{
    let mut i = pos;
    while i < chars.len() && (('a' <= chars[i] && chars[i] <= 'z') || ('A' <= chars[i] && chars[i] <= 'Z'))
        invariant
            pos <= i <= chars.len(),
            letters_end(chars@, pos as int) == letters_end(chars@, i as int),
        decreases chars.len() - i,
    {
        i = i + 1;
    }
    i
}

fn digits_end_from(chars: &Vec<char>, pos: usize) -> (r: usize)
    requires
        pos <= chars.len(),
    ensures
        r == digits_end(chars@, pos as int),
        pos <= r <= chars.len(),
        pos < chars.len() && is_ascii_digit(chars@[pos as int]) ==> pos < r,
        forall|k: int| pos <= k < r ==> is_ascii_digit(#[trigger] chars@[k]),
{
    let mut i = pos;
    while i < chars.len() && '0' <= chars[i] && chars[i] <= '9'
        invariant
            pos <= i <= chars.len(),
            digits_end(chars@, pos as int) == digits_end(chars@, i as int),
            forall|k: int| pos <= k < i ==> is_ascii_digit(#[trigger] chars@[k]),
        decreases chars.len() - i,
    {
        i = i + 1;
    }
    i
}

fn string_close_from(chars: &Vec<char>, k: usize) -> (r: Option<usize>)
    requires
        1 <= k <= chars.len(),
    ensures
        match r {
            Some(q) => string_close(chars@, k as int, None) == Some(q as int) && k <= q < chars.len(),
            None => string_close(chars@, k as int, None) is None,
        },
{
    let mut i = k;
    let mut last: Option<usize> = None;
    while i < chars.len()
        invariant
            1 <= k <= i <= chars.len(),
            string_close(chars@, k as int, None) == string_close(
                chars@,
                i as int,
                match last {
                    Some(q) => Some(q as int),
                    None => None,
                },
            ),
            match last {
                Some(q) => k <= q < i,
                None => true,
            },
        decreases chars.len() - i,
    {
        if chars[i] == '\'' {
            if chars[i - 1] != '\\' {
                return Some(i);
            }
            last = Some(i);
        }
        i = i + 1;
    }
    last
}

/// Whether `chars[from..to]` spells the given word.
fn range_equals(chars: &Vec<char>, from: usize, to: usize, word: &str) -> (r: bool)
    requires
        from <= to <= chars.len(),
    ensures
        r == (chars@.subrange(from as int, to as int) == word@),
{
    let w = chars_of(word);
    if to - from != w.len() {
        return false;
    }
    let mut i: usize = 0;
    while i < w.len()
        invariant
            from <= to <= chars.len(),
            to - from == w.len(),
            w@ == word@,
            i <= w.len(),
            chars@.subrange(from as int, from + i) == w@.subrange(0, i as int),
        decreases w.len() - i,
    {
        if chars[from + i] != w[i] {
            assert(chars@.subrange(from as int, to as int)[i as int] != w@[i as int]);
            return false;
        }
        assert(chars@.subrange(from as int, from + i + 1) =~= chars@.subrange(from as int, from + i).push(chars@[from + i]));
        assert(w@.subrange(0, i + 1) =~= w@.subrange(0, i as int).push(w@[i as int]));
        i = i + 1;
    }
    assert(w@.subrange(0, i as int) =~= w@);
    true
}

fn word_token_of(chars: &Vec<char>, from: usize, to: usize) -> (r: MatcherDefinitionToken)
    requires
        from <= to <= chars.len(),
    ensures
        r == word_token(chars@.subrange(from as int, to as int)),
{
    if range_equals(chars, from, to, "matching") {
        MatcherDefinitionToken::Matching
    } else if range_equals(chars, from, to, "notEmpty") {
        MatcherDefinitionToken::NotEmpty
    } else if range_equals(chars, from, to, "eachKey") {
        MatcherDefinitionToken::EachKey
    } else if range_equals(chars, from, to, "eachValue") {
        MatcherDefinitionToken::EachValue
    } else if range_equals(chars, from, to, "atLeast") {
        MatcherDefinitionToken::AtLeast
    } else if range_equals(chars, from, to, "atMost") {
        MatcherDefinitionToken::AtMost
    } else if range_equals(chars, from, to, "true") || range_equals(chars, from, to, "false") {
        MatcherDefinitionToken::Boolean
    } else if range_equals(chars, from, to, "null") {
        MatcherDefinitionToken::Null
    } else {
        MatcherDefinitionToken::Id
    }
}

/// The value of the digits `chars[from..to]`, when it fits in a `u64`.
fn digits_u64(chars: &Vec<char>, from: usize, to: usize) -> (r: Option<u64>)
    requires
        from <= to <= chars.len(),
        forall|k: int| from <= k < to ==> is_ascii_digit(#[trigger] chars@[k]),
    ensures
        match r {
            Some(n) => n == digits_value(chars@.subrange(from as int, to as int)),
            None => digits_value(chars@.subrange(from as int, to as int)) > u64::MAX,
        },
{
    let mut value: u64 = 0;
    let mut i = from;
    proof {
        assert(chars@.subrange(from as int, from as int) =~= Seq::<char>::empty());
    }
    while i < to
        invariant
            from <= i <= to <= chars.len(),
            forall|k: int| from <= k < to ==> is_ascii_digit(#[trigger] chars@[k]),
            value as nat == digits_value(chars@.subrange(from as int, i as int)),
        decreases to - i,
    {
        let c = chars[i];
        assert(is_ascii_digit(chars@[i as int]));
        let d = (c as u32 - '0' as u32) as u64;
        let ghost next = chars@.subrange(from as int, i + 1);
        assert(next.drop_last() =~= chars@.subrange(from as int, i as int));
        assert(next.last() == c);
        if value > (u64::MAX - d) / 10 {
            proof {
                assert(value * 10 + d > u64::MAX) by (nonlinear_arith)
                    requires value > (u64::MAX - d) / 10, d < 10;
                lemma_digits_prefix_le(chars@.subrange(from as int, to as int), (i + 1 - from) as int);
                assert(chars@.subrange(from as int, to as int).subrange(0, (i + 1 - from) as int) =~= next);
            }
            return None;
        }
        proof {
            assert(value * 10 + d <= u64::MAX) by (nonlinear_arith)
                requires value <= (u64::MAX - d) / 10, d < 10;
        }
        value = value * 10 + d;
        i = i + 1;
    }
    Some(value)
}

/// A digit string's value is at least that of each of its prefixes.
proof fn lemma_digits_prefix_le(s: Seq<char>, k: int)
    requires
        0 <= k <= s.len(),
        forall|i: int| 0 <= i < s.len() ==> is_ascii_digit(#[trigger] s[i]),
    ensures
        digits_value(s.subrange(0, k)) <= digits_value(s),
    decreases s.len() - k,
{
    if k < s.len() {
        lemma_digits_prefix_le(s, k + 1);
        assert(s.subrange(0, k + 1).drop_last() =~= s.subrange(0, k));
        let a = digits_value(s.subrange(0, k));
        let b = digits_value(s.subrange(0, k + 1));
        assert(b == a * 10 + digit_value(s.subrange(0, k + 1).last()));
        assert(a <= b) by (nonlinear_arith)
            requires b == a * 10 + digit_value(s.subrange(0, k + 1).last());
    } else {
        assert(s.subrange(0, k) =~= s);
    }
}

fn is_digit_at(chars: &Vec<char>, i: usize) -> (r: bool)
    ensures
        r == (i < chars.len() && is_ascii_digit(chars@[i as int])),
{
    i < chars.len() && '0' <= chars[i] && chars[i] <= '9'
}

/// The token starting at position `i`.
fn token_from(chars: &Vec<char>, i: usize) -> (r: (Result<MatcherDefinitionToken, ()>, usize, usize))
    requires
        i < chars.len(),
        !is_lex_space(chars@[i as int]),
    ensures
        token_at(chars@, i as int) == step_of_triple(r),
        i < r.2 <= chars.len(),
        r.1 == i,
{
    let n = chars.len();
    let c = chars[i];
    if c == '(' {
        (Ok(MatcherDefinitionToken::LeftBracket), i, i + 1)
    } else if c == ')' {
        (Ok(MatcherDefinitionToken::RightBracket), i, i + 1)
    } else if c == ',' {
        (Ok(MatcherDefinitionToken::Comma), i, i + 1)
    } else if c == '$' {
        (Ok(MatcherDefinitionToken::Dollar), i, i + 1)
    } else if c == '\'' {
        match string_close_from(chars, i + 1) {
            Some(q) => (Ok(MatcherDefinitionToken::String), i, q + 1),
            None => (Err(()), i, n),
        }
    } else if ('a' <= c && c <= 'z') || ('A' <= c && c <= 'Z') {
        let j = letters_end_from(chars, i);
        (Ok(word_token_of(chars, i, j)), i, j)
    } else if '0' <= c && c <= '9' {
        if n - i > 2 && chars[i + 1] == '.' && is_digit_at(chars, i + 2) {
            let j = digits_end_from(chars, i + 2);
            (Ok(MatcherDefinitionToken::Decimal), i, j)
        } else {
            let j = digits_end_from(chars, i);
            match digits_u64(chars, i, j) {
                Some(v) => {
                    if v <= usize::MAX as u64 {
                        (Ok(MatcherDefinitionToken::Num(v as usize)), i, j)
                    } else {
                        (Err(()), i, j)
                    }
                },
                None => (Err(()), i, j),
            }
        }
    } else if c == '-' {
        if is_digit_at(chars, i + 1) {
            if n - i > 3 && chars[i + 2] == '.' && is_digit_at(chars, i + 3) {
                let j = digits_end_from(chars, i + 3);
                (Ok(MatcherDefinitionToken::Decimal), i, j)
            } else {
                let j = digits_end_from(chars, i + 1);
                match digits_u64(chars, i + 1, j) {
                    Some(v) => {
                        if v < 0x8000_0000_0000_0000u64 {
                            (Ok(MatcherDefinitionToken::Int(0 - (v as i64))), i, j)
                        } else if v == 0x8000_0000_0000_0000u64 {
                            (Ok(MatcherDefinitionToken::Int(i64::MIN)), i, j)
                        } else {
                            (Err(()), i, j)
                        }
                    },
                    None => (Err(()), i, j),
                }
            }
        } else {
            (Err(()), i, i + 1)
        }
    } else if c == '.' {
        if is_digit_at(chars, i + 1) {
            let j = digits_end_from(chars, i + 1);
            (Ok(MatcherDefinitionToken::DecimalPart), i, j)
        } else {
            (Err(()), i, i + 1)
        }
    } else {
        (Err(()), i, i + 1)
    }
}

pub open spec fn step_of_triple(r: (Result<MatcherDefinitionToken, ()>, usize, usize)) -> LexStep {
    LexStep { token: Some(r.0), start: r.1 as int, end: r.2 as int }
}

impl MatcherDefinitionToken {
    /// A lexer over the given matching rule definition expression, before its
    /// first token.
    pub fn lexer(source: &str) -> (lex: DefinitionLexer)
        ensures
            lex@ == (LexState { src: source@, start: 0, end: 0 }),
            lex_state_wf(lex@),
    {
        DefinitionLexer { chars: chars_of(source), start: 0, end: 0 }
    }
}

impl DefinitionLexer {
    /// Reads the next token: `None` at the end of the input, an error where
    /// no token matches.
    pub fn next(&mut self) -> (r: Option<Result<MatcherDefinitionToken, ()>>)
        requires
            lex_state_wf(old(self)@),
        ensures
            lex_state_wf(final(self)@),
            (final(self)@, r) == lex_next(old(self)@),
            r is Some ==> final(self)@.end > old(self)@.end,
            old(self)@.end <= final(self)@.start,
            final(self)@.src == old(self)@.src,
    {
        let i = skip_spaces_from(&self.chars, self.end);
        if i >= self.chars.len() {
            self.start = i;
            self.end = i;
            None
        } else {
            let (t, s, e) = token_from(&self.chars, i);
            self.start = s;
            self.end = e;
            Some(t)
        }
    }

    /// The text of the current token.
    pub fn slice(&self) -> (r: String)
        requires
            lex_state_wf(self@),
        ensures
            r@ == lex_slice(self@),
    {
        let mut r = String::new();
        push_chars(&mut r, &self.chars, self.start, self.end);
        r
    }

    /// The text after the current token.
    pub fn remainder(&self) -> (r: String)
        requires
            lex_state_wf(self@),
        ensures
            r@ == lex_remainder(self@),
    {
        let mut r = String::new();
        push_chars(&mut r, &self.chars, self.end, self.chars.len());
        r
    }

    /// Whether the current token's text is `word`.
    pub fn slice_is(&self, word: &str) -> (r: bool)
        requires
            lex_state_wf(self@),
        ensures
            r == (lex_slice(self@) == word@),
    {
        range_equals(&self.chars, self.start, self.end, word)
    }

    /// Whether the text after the current token starts with a dot.
    pub fn next_is_dot(&self) -> (r: bool)
        requires
            lex_state_wf(self@),
        ensures
            r == followed_by_dot(self@),
    {
        self.end < self.chars.len() && self.chars[self.end] == '.'
    }

    /// Whether the text after the current token, past leading whitespace,
    /// starts with `word`.
    pub fn remainder_starts_with(&self, word: &str) -> (r: bool)
        requires
            lex_state_wf(self@),
        ensures
            r == has_prefix(trim_start_of(lex_remainder(self@)), word@),
    {
        let n = self.chars.len();
        let mut i = self.end;
        while i < n && is_whitespace_exec(self.chars[i])
            invariant
                n == self.chars.len(),
                self.end <= i <= n,
                trim_start_of(lex_remainder(self@)) == trim_start_of(self.chars@.subrange(i as int, n as int)),
            decreases n - i,
        {
            assert(self.chars@.subrange(i as int, n as int).drop_first() =~= self.chars@.subrange(i + 1, n as int));
            i = i + 1;
        }
        let ghost rest = self.chars@.subrange(i as int, n as int);
        assert(trim_start_of(rest) == rest);
        let w = chars_of(word);
        if n - i < w.len() {
            return false;
        }
        let r = range_equals(&self.chars, i, i + w.len(), word);
        assert(rest.subrange(0, w.len() as int) =~= self.chars@.subrange(i as int, i + w.len()));
        r
    }

    /// The byte offsets of the span of the current token.
    pub fn span(&self) -> (r: (usize, usize))
        requires
            lex_state_wf(self@),
            byte_len(self@.src) <= usize::MAX,
        ensures
            r.0 == byte_span(self@).0,
            r.1 == byte_span(self@).1,
    {
        (byte_offset(&self.chars, self.start), byte_offset(&self.chars, self.end))
    }
}


proof fn lemma_skip_spaces_bounds(s: Seq<char>, i: int)
    requires
        0 <= i <= s.len(),
    ensures
        i <= skip_spaces(s, i) <= s.len(),
    decreases s.len() - i,
{
    if i < s.len() && is_lex_space(s[i]) {
        lemma_skip_spaces_bounds(s, i + 1);
    }
}

proof fn lemma_letters_end_bounds(s: Seq<char>, i: int)
    requires
        0 <= i <= s.len(),
    ensures
        i <= letters_end(s, i) <= s.len(),
        i < s.len() && is_ascii_letter(s[i]) ==> i < letters_end(s, i),
    decreases s.len() - i,
{
    if i < s.len() && is_ascii_letter(s[i]) {
        lemma_letters_end_bounds(s, i + 1);
    }
}

proof fn lemma_digits_end_bounds(s: Seq<char>, i: int)
    requires
        0 <= i <= s.len(),
    ensures
        i <= digits_end(s, i) <= s.len(),
        i < s.len() && is_ascii_digit(s[i]) ==> i < digits_end(s, i),
    decreases s.len() - i,
{
    if i < s.len() && is_ascii_digit(s[i]) {
        lemma_digits_end_bounds(s, i + 1);
    }
}

proof fn lemma_string_close_bounds(s: Seq<char>, k: int, last: Option<int>, lo: int)
    requires
        1 <= lo <= k,
        last matches Some(q) ==> lo <= q < s.len(),
    ensures
        string_close(s, k, last) matches Some(q) ==> lo <= q < s.len(),
    decreases s.len() - k,
{
    if k < s.len() {
        if s[k] == '\'' {
            if s[k - 1] == '\\' {
                lemma_string_close_bounds(s, k + 1, Some(k), lo);
            }
        } else {
            lemma_string_close_bounds(s, k + 1, last, lo);
        }
    }
}

/// Reading a token never moves the lexer back, stays within the source, and
/// moves it forward whenever a token (or an error) is read.
pub proof fn lemma_lex_next_progress(st: LexState)
    requires
        lex_state_wf(st),
    ensures
        lex_state_wf(lex_next(st).0),
        lex_next(st).0.src == st.src,
        st.end <= lex_next(st).0.start,
        lex_next(st).1 is Some ==> st.end < lex_next(st).0.end,
        lex_next(st).1 is None ==> lex_next(st).0.end == st.src.len(),
{
    let s = st.src;
    lemma_skip_spaces_bounds(s, st.end);
    let i = skip_spaces(s, st.end);
    if i < s.len() {
        lemma_letters_end_bounds(s, i);
        lemma_digits_end_bounds(s, i);
        if i + 1 <= s.len() {
            lemma_digits_end_bounds(s, i + 1);
        }
        if i + 2 <= s.len() {
            lemma_digits_end_bounds(s, i + 2);
        }
        if i + 3 <= s.len() {
            lemma_digits_end_bounds(s, i + 3);
        }
        lemma_string_close_bounds(s, i + 1, None, i + 1);
    }
}


/// Reading a token from a position within the source never moves back and
/// moves forward, within the source, whenever a token or an error is read.
pub proof fn lemma_lex_next_advances(st: LexState)
    requires
        0 <= st.end,
    ensures
        st.end <= lex_next(st).0.end,
        lex_next(st).1 is Some ==> st.end < lex_next(st).0.end <= st.src.len(),
{
    if st.end <= st.src.len() {
        lemma_lex_next_progress(LexState { src: st.src, start: st.end, end: st.end });
    }
}

} // verus!
