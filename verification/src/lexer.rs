//! The tokenizer: a maximal-munch scanner over the characters of one line of
//! source text, with the two-token lookahead the parser needs.
//!
//! The mathematical scanner (`lex_all`) fixes the token grammar: keywords win
//! over identifiers of the same spelling, longer operators win over their
//! prefixes, a number is a maximal run of decimal digits, and a string
//! literal is the longest double-quoted match, where a backslash escapes the
//! next character and a doubled quote stays inside the string. Whitespace
//! separates tokens; the first slice no pattern matches stops the scan with a
//! lexical failure at that position.

use crate::num::num_of_decimal;
use crate::token::{Token, TokenV};
use vstd::prelude::*;

verus! {

/// A lexical failure: no token pattern matches at `pos`, where `ch` stands.
#[derive(Debug, Clone, Copy, PartialEq)]
pub struct LexError {
    pub pos: usize,
    pub ch: char,
}

/// The mathematical shape of a lexical failure.
pub struct LexErrV {
    pub pos: int,
    pub ch: char,
}

impl View for LexError {
    type V = LexErrV;

    open spec fn view(&self) -> LexErrV {
        LexErrV { pos: self.pos as int, ch: self.ch }
    }
}

/// What the token stream hands out: a token, or the lexical failure that cut
/// the stream short.
pub type TokenResult = Result<Token, LexError>;

/// Whitespace, skipped between tokens.
pub open spec fn is_space(c: char) -> bool {
    c == ' ' || c == '\t' || c == '\n' || c == '\r' || c == '\u{b}' || c == '\u{c}'
}

/// A decimal digit.
pub open spec fn is_digit(c: char) -> bool {
    '0' <= c && c <= '9'
}

/// A character that may open an identifier.
pub open spec fn is_ident_start(c: char) -> bool {
    ('a' <= c && c <= 'z') || ('A' <= c && c <= 'Z') || c == '_' || c == '$'
}

/// A character that may continue an identifier.
pub open spec fn is_ident_char(c: char) -> bool {
    is_ident_start(c) || is_digit(c)
}

/// The end of the maximal run of decimal digits from `i`.
pub open spec fn digit_run_end(s: Seq<char>, i: int) -> int
    decreases s.len() - i when 0 <= i <= s.len()
{
    if i < s.len() && is_digit(s[i]) {
        digit_run_end(s, i + 1)
    } else {
        i
    }
}

/// The end of the maximal run of identifier characters from `i`.
pub open spec fn ident_run_end(s: Seq<char>, i: int) -> int
    decreases s.len() - i when 0 <= i <= s.len()
{
    if i < s.len() && is_ident_char(s[i]) {
        ident_run_end(s, i + 1)
    } else {
        i
    }
}

pub proof fn lemma_digit_run(s: Seq<char>, i: int)
    requires
        0 <= i <= s.len(),
    ensures
        i <= digit_run_end(s, i) <= s.len(),
        forall|k: int| i <= k < digit_run_end(s, i) ==> is_digit(s[k]),
        digit_run_end(s, i) < s.len() ==> !is_digit(s[digit_run_end(s, i)]),
    decreases s.len() - i,
{
    if i < s.len() && is_digit(s[i]) {
        lemma_digit_run(s, i + 1);
    }
}

pub proof fn lemma_ident_run(s: Seq<char>, i: int)
    requires
        0 <= i <= s.len(),
    ensures
        i <= ident_run_end(s, i) <= s.len(),
        forall|k: int| i <= k < ident_run_end(s, i) ==> is_ident_char(s[k]),
        ident_run_end(s, i) < s.len() ==> !is_ident_char(s[ident_run_end(s, i)]),
    decreases s.len() - i,
{
    if i < s.len() && is_ident_char(s[i]) {
        lemma_ident_run(s, i + 1);
    }
}

/// Longest-match scan of a string literal's inside, from position `i` (just
/// past the opening quote), in the normal state. `last` is the position just
/// after the latest quote that could have closed the literal. A backslash
/// escapes the next character; a doubled quote could close the literal there
/// or continue it, and the longest overall match wins — so the scan records
/// the close and goes on. The result is the position just after the closing
/// quote of the longest match, or `None` when no match closes at all.
pub open spec fn str_scan(s: Seq<char>, i: int, last: Option<int>) -> Option<int>
    decreases s.len() - i when 0 <= i <= s.len()
{
    if i >= s.len() {
        last
    } else if s[i] == '"' {
        if i + 1 < s.len() && s[i + 1] == '"' {
            str_scan(s, i + 2, Some(i + 1))
        } else {
            Some(i + 1)
        }
    } else if s[i] == '\\' {
        if i + 1 < s.len() {
            str_scan(s, i + 2, last)
        } else {
            last
        }
    } else {
        str_scan(s, i + 1, last)
    }
}

pub proof fn lemma_str_scan(s: Seq<char>, i: int, last: Option<int>)
    requires
        0 <= i <= s.len(),
        match last {
            Some(a) => 0 <= a <= s.len(),
            None => true,
        },
    ensures
        match str_scan(s, i, last) {
            Some(j) => 0 <= j <= s.len() && (last == Some(j) || j > i),
            None => true,
        },
    decreases s.len() - i,
{
    if i >= s.len() {
    } else if s[i] == '"' {
        if i + 1 < s.len() && s[i + 1] == '"' {
            lemma_str_scan(s, i + 2, Some(i + 1));
        }
    } else if s[i] == '\\' {
        if i + 1 < s.len() {
            lemma_str_scan(s, i + 2, last);
        }
    } else {
        lemma_str_scan(s, i + 1, last);
    }
}

/// The token a word stands for: a keyword, a boolean or nil literal when it
/// is spelt like one, else an identifier.
pub open spec fn keyword_or_ident(w: Seq<char>) -> TokenV {
    if w == seq!['a', 'n', 'd'] {
        TokenV::And
    } else if w == seq!['o', 'r'] {
        TokenV::Or
    } else if w == seq!['n', 'o', 't'] {
        TokenV::Not
    } else if w == seq!['n', 'i', 'l'] {
        TokenV::Nil
    } else if w == seq!['t', 'r', 'u', 'e'] {
        TokenV::Bool(true)
    } else if w == seq!['f', 'a', 'l', 's', 'e'] {
        TokenV::Bool(false)
    } else if w == seq!['f', 'n'] {
        TokenV::Fn
    } else if w == seq!['i', 'f'] {
        TokenV::If
    } else if w == seq!['t', 'h', 'e', 'n'] {
        TokenV::Then
    } else if w == seq!['e', 'l', 's', 'e'] {
        TokenV::Else
    } else if w == seq!['w', 'h', 'e', 'n'] {
        TokenV::When
    } else if w == seq!['d', 'o'] {
        TokenV::Do
    } else if w == seq!['e', 'n', 'd'] {
        TokenV::End
    } else {
        TokenV::Identifier(w)
    }
}

/// One scan step: the token that starts at `i`, the position that stops the
/// scan, or the end of the input.
pub enum LexStep {
    Tok(TokenV, int),
    Fail(int, char),
    Done,
}

/// The token at position `i` of the input, `i` holding neither whitespace nor
/// the end: longest match, keywords over identifiers.
pub open spec fn token_at(s: Seq<char>, i: int) -> LexStep {
    let c = s[i];
    if is_digit(c) {
        LexStep::Tok(TokenV::Number(num_of_decimal(s.subrange(i, digit_run_end(s, i)))),
            digit_run_end(s, i))
    } else if is_ident_start(c) {
        LexStep::Tok(keyword_or_ident(s.subrange(i, ident_run_end(s, i))), ident_run_end(s, i))
    } else if c == '"' {
        match str_scan(s, i + 1, None) {
            Some(j) => LexStep::Tok(TokenV::Str(s.subrange(i, j)), j),
            None => LexStep::Fail(i, c),
        }
    } else if c == '-' {
        if i + 1 < s.len() && s[i + 1] == '>' {
            LexStep::Tok(TokenV::RThinArr, i + 2)
        } else {
            LexStep::Tok(TokenV::Minus, i + 1)
        }
    } else if c == '=' {
        if i + 1 < s.len() && s[i + 1] == '=' {
            LexStep::Tok(TokenV::EqualEqual, i + 2)
        } else {
            LexStep::Tok(TokenV::Equal, i + 1)
        }
    } else if c == '!' {
        if i + 1 < s.len() && s[i + 1] == '=' {
            LexStep::Tok(TokenV::BangEqual, i + 2)
        } else {
            LexStep::Fail(i, c)
        }
    } else if c == '<' {
        if i + 1 < s.len() && s[i + 1] == '=' {
            LexStep::Tok(TokenV::LessEqual, i + 2)
        } else {
            LexStep::Tok(TokenV::Less, i + 1)
        }
    } else if c == '>' {
        if i + 1 < s.len() && s[i + 1] == '=' {
            LexStep::Tok(TokenV::GreaterEqual, i + 2)
        } else {
            LexStep::Tok(TokenV::Greater, i + 1)
        }
    } else if c == ',' {
        LexStep::Tok(TokenV::Comma, i + 1)
    } else if c == '(' {
        LexStep::Tok(TokenV::LRoundParen, i + 1)
    } else if c == ')' {
        LexStep::Tok(TokenV::RRoundParen, i + 1)
    } else if c == '+' {
        LexStep::Tok(TokenV::Plus, i + 1)
    } else if c == '*' {
        LexStep::Tok(TokenV::Star, i + 1)
    } else if c == '/' {
        LexStep::Tok(TokenV::Slash, i + 1)
    } else {
        LexStep::Fail(i, c)
    }
}

/// The next token from position `i` on: whitespace is skipped first.
pub open spec fn next_token_spec(s: Seq<char>, i: int) -> LexStep
    decreases s.len() - i when 0 <= i <= s.len()
{
    if i >= s.len() {
        LexStep::Done
    } else if is_space(s[i]) {
        next_token_spec(s, i + 1)
    } else {
        token_at(s, i)
    }
}

/// The whole token stream of an input: every token before the first failure,
/// and the failure itself if there is one.
pub open spec fn lex_all(s: Seq<char>, i: int) -> (Seq<TokenV>, Option<LexErrV>)
    decreases s.len() - i when 0 <= i <= s.len()
{
    match next_token_spec(s, i) {
        LexStep::Done => (Seq::empty(), None),
        LexStep::Fail(p, c) => (Seq::empty(), Some(LexErrV { pos: p, ch: c })),
        LexStep::Tok(t, j) => if i < j <= s.len() {
            let (rest, e) = lex_all(s, j);
            (seq![t] + rest, e)
        } else {
            (Seq::empty(), None)
        },
    }
}

/// The views of a token list, pointwise.
pub open spec fn view_tokens(s: Seq<Token>) -> Seq<TokenV> {
    Seq::new(s.len(), |i: int| s[i]@)
}

/// Relies on `str::chars` (std): the characters of the string, in order.
#[verifier::external_body]
fn str_to_chars(s: &str) -> (r: Vec<char>)
    ensures
        r@ == s@,
{
    s.chars().collect()
}

/// Relies on `String`'s `FromIterator<char>` (std): collecting characters in
/// order yields the string of exactly those characters.
#[verifier::external_body]
fn chars_to_string(v: &Vec<char>) -> (r: String)
    ensures
        r@ == v@,
{
    v.iter().collect()
}

fn ch_is_space(c: char) -> (b: bool)
    ensures
        b == is_space(c),
{
    c == ' ' || c == '\t' || c == '\n' || c == '\r' || c == '\u{b}' || c == '\u{c}'
}

fn ch_is_digit(c: char) -> (b: bool)
    ensures
        b == is_digit(c),
{
    c >= '0' && c <= '9'
}

fn ch_is_ident_start(c: char) -> (b: bool)
    ensures
        b == is_ident_start(c),
{
    (c >= 'a' && c <= 'z') || (c >= 'A' && c <= 'Z') || c == '_' || c == '$'
}

fn ch_is_ident_char(c: char) -> (b: bool)
    ensures
        b == is_ident_char(c),
{
    ch_is_ident_start(c) || ch_is_digit(c)
}

/// The characters `s[i..j]` as a fresh list.
fn copy_range(s: &Vec<char>, i: usize, j: usize) -> (r: Vec<char>)
    requires
        i <= j <= s@.len(),
    ensures
        r@ == s@.subrange(i as int, j as int),
{
    let mut out: Vec<char> = Vec::new();
    let mut k: usize = i;
    proof {
        assert(out@ =~= s@.subrange(i as int, i as int));
    }
    while k < j
        invariant
            i <= k <= j <= s@.len(),
            out@ == s@.subrange(i as int, k as int),
        decreases j - k,
    {
        out.push(s[k]);
        proof {
            assert(out@ =~= s@.subrange(i as int, k + 1 as int));
        }
        k = k + 1;
    }
    out
}

/// Walk to the end of the maximal digit run from `i`.
fn scan_digits(s: &Vec<char>, i: usize) -> (j: usize)
    requires
        i <= s@.len(),
    ensures
        j as int == digit_run_end(s@, i as int),
        i <= j <= s@.len(),
{
    let mut k: usize = i;
    while k < s.len() && ch_is_digit(s[k])
        invariant
            i <= k <= s@.len(),
            digit_run_end(s@, i as int) == digit_run_end(s@, k as int),
        decreases s@.len() - k,
    {
        k = k + 1;
    }
    proof {
        lemma_digit_run(s@, i as int);
    }
    k
}

/// Walk to the end of the maximal identifier run from `i`.
fn scan_ident(s: &Vec<char>, i: usize) -> (j: usize)
    requires
        i <= s@.len(),
    ensures
        j as int == ident_run_end(s@, i as int),
        i <= j <= s@.len(),
{
    let mut k: usize = i;
    while k < s.len() && ch_is_ident_char(s[k])
        invariant
            i <= k <= s@.len(),
            ident_run_end(s@, i as int) == ident_run_end(s@, k as int),
        decreases s@.len() - k,
    {
        k = k + 1;
    }
    proof {
        lemma_ident_run(s@, i as int);
    }
    k
}

/// Longest-match scan of a string literal's inside, from just past the
/// opening quote; executable side of `str_scan`.
fn scan_string(s: &Vec<char>, start: usize) -> (r: Option<usize>)
    requires
        start <= s@.len(),
    ensures
        match r {
            Some(j) => str_scan(s@, start as int, None) == Some(j as int) && j <= s@.len(),
            None => str_scan(s@, start as int, None) is None,
        },
{
    let mut k: usize = start;
    let mut last: Option<usize> = None;
    loop
        invariant
            k <= s@.len(),
            match last {
                Some(a) => a <= s@.len(),
                None => true,
            },
            str_scan(s@, start as int, None) == str_scan(
                s@,
                k as int,
                match last {
                    Some(a) => Some(a as int),
                    None => None,
                },
            ),
        decreases s@.len() - k,
    {
        if k >= s.len() {
            return last;
        }
        let c = s[k];
        if c == '"' {
            if k + 1 < s.len() && s[k + 1] == '"' {
                last = Some(k + 1);
                k = k + 2;
            } else {
                return Some(k + 1);
            }
        } else if c == '\\' {
            if k + 1 < s.len() {
                k = k + 2;
            } else {
                return last;
            }
        } else {
            k = k + 1;
        }
    }
}

/// Keyword, boolean and nil spellings win over the identifier pattern;
/// executable side of `keyword_or_ident`.
fn classify_word(w: &Vec<char>) -> (t: Token)
    ensures
        t@ == keyword_or_ident(w@),
{
    let n = w.len();
    if n == 2 {
        if w[0] == 'o' && w[1] == 'r' {
            proof {
                assert(w@ =~= seq!['o', 'r']);
            }
            return Token::Or;
        }
        if w[0] == 'f' && w[1] == 'n' {
            proof {
                assert(w@ =~= seq!['f', 'n']);
            }
            return Token::Fn;
        }
        if w[0] == 'i' && w[1] == 'f' {
            proof {
                assert(w@ =~= seq!['i', 'f']);
            }
            return Token::If;
        }
        if w[0] == 'd' && w[1] == 'o' {
            proof {
                assert(w@ =~= seq!['d', 'o']);
            }
            return Token::Do;
        }
    } else if n == 3 {
        if w[0] == 'a' && w[1] == 'n' && w[2] == 'd' {
            proof {
                assert(w@ =~= seq!['a', 'n', 'd']);
            }
            return Token::And;
        }
        if w[0] == 'n' && w[1] == 'o' && w[2] == 't' {
            proof {
                assert(w@ =~= seq!['n', 'o', 't']);
            }
            return Token::Not;
        }
        if w[0] == 'n' && w[1] == 'i' && w[2] == 'l' {
            proof {
                assert(w@ =~= seq!['n', 'i', 'l']);
            }
            return Token::Nil;
        }
        if w[0] == 'e' && w[1] == 'n' && w[2] == 'd' {
            proof {
                assert(w@ =~= seq!['e', 'n', 'd']);
            }
            return Token::End;
        }
    } else if n == 4 {
        if w[0] == 't' && w[1] == 'r' && w[2] == 'u' && w[3] == 'e' {
            proof {
                assert(w@ =~= seq!['t', 'r', 'u', 'e']);
            }
            return Token::Bool(true);
        }
        if w[0] == 't' && w[1] == 'h' && w[2] == 'e' && w[3] == 'n' {
            proof {
                assert(w@ =~= seq!['t', 'h', 'e', 'n']);
            }
            return Token::Then;
        }
        if w[0] == 'e' && w[1] == 'l' && w[2] == 's' && w[3] == 'e' {
            proof {
                assert(w@ =~= seq!['e', 'l', 's', 'e']);
            }
            return Token::Else;
        }
        if w[0] == 'w' && w[1] == 'h' && w[2] == 'e' && w[3] == 'n' {
            proof {
                assert(w@ =~= seq!['w', 'h', 'e', 'n']);
            }
            return Token::When;
        }
    } else if n == 5 {
        if w[0] == 'f' && w[1] == 'a' && w[2] == 'l' && w[3] == 's' && w[4] == 'e' {
            proof {
                assert(w@ =~= seq!['f', 'a', 'l', 's', 'e']);
            }
            return Token::Bool(false);
        }
    }
    Token::Identifier(chars_to_string(w))
}

/// The token starting at `i`, the lexical failure there, or the end of the
/// input; executable side of `next_token_spec`.
fn next_token_from(s: &Vec<char>, i: usize) -> (r: Result<Option<(Token, usize)>, LexError>)
    requires
        i <= s@.len(),
    ensures
        match r {
            Ok(None) => next_token_spec(s@, i as int) is Done,
            Ok(Some((t, j))) => next_token_spec(s@, i as int) == LexStep::Tok(t@, j as int) && i
                < j <= s@.len(),
            Err(e) => next_token_spec(s@, i as int) == LexStep::Fail(e@.pos, e@.ch),
        },
{
    let mut k: usize = i;
    while k < s.len() && ch_is_space(s[k])
        invariant
            i <= k <= s@.len(),
            next_token_spec(s@, i as int) == next_token_spec(s@, k as int),
        decreases s@.len() - k,
    {
        k = k + 1;
    }
    if k == s.len() {
        return Ok(None);
    }
    let c = s[k];
    if ch_is_digit(c) {
        let j = scan_digits(s, k);
        proof {
            lemma_digit_run(s@, k as int);
        }
        let digits = copy_range(s, k, j);
        let bits = crate::num::exec_num_of_decimal(&digits);
        return Ok(Some((Token::Number(bits), j)));
    }
    if ch_is_ident_start(c) {
        let j = scan_ident(s, k);
        proof {
            lemma_ident_run(s@, k as int);
        }
        let word = copy_range(s, k, j);
        let t = classify_word(&word);
        return Ok(Some((t, j)));
    }
    if c == '"' {
        proof {
            lemma_str_scan(s@, k + 1 as int, None);
        }
        match scan_string(s, k + 1) {
            Some(j) => {
                let raw = copy_range(s, k, j);
                return Ok(Some((Token::Str(chars_to_string(&raw)), j)));
            },
            None => {
                return Err(LexError { pos: k, ch: c });
            },
        }
    }
    if c == '-' {
        if k + 1 < s.len() && s[k + 1] == '>' {
            return Ok(Some((Token::RThinArr, k + 2)));
        }
        return Ok(Some((Token::Minus, k + 1)));
    }
    if c == '=' {
        if k + 1 < s.len() && s[k + 1] == '=' {
            return Ok(Some((Token::EqualEqual, k + 2)));
        }
        return Ok(Some((Token::Equal, k + 1)));
    }
    if c == '!' {
        if k + 1 < s.len() && s[k + 1] == '=' {
            return Ok(Some((Token::BangEqual, k + 2)));
        }
        return Err(LexError { pos: k, ch: c });
    }
    if c == '<' {
        if k + 1 < s.len() && s[k + 1] == '=' {
            return Ok(Some((Token::LessEqual, k + 2)));
        }
        return Ok(Some((Token::Less, k + 1)));
    }
    if c == '>' {
        if k + 1 < s.len() && s[k + 1] == '=' {
            return Ok(Some((Token::GreaterEqual, k + 2)));
        }
        return Ok(Some((Token::Greater, k + 1)));
    }
    if c == ',' {
        return Ok(Some((Token::Comma, k + 1)));
    }
    if c == '(' {
        return Ok(Some((Token::LRoundParen, k + 1)));
    }
    if c == ')' {
        return Ok(Some((Token::RRoundParen, k + 1)));
    }
    if c == '+' {
        return Ok(Some((Token::Plus, k + 1)));
    }
    if c == '*' {
        return Ok(Some((Token::Star, k + 1)));
    }
    if c == '/' {
        return Ok(Some((Token::Slash, k + 1)));
    }
    Err(LexError { pos: k, ch: c })
}

/// Scan a whole input: every token before the first failure, and the failure
/// itself if one cut the scan short; executable side of `lex_all`.
fn tokenize(s: &Vec<char>) -> (r: (Vec<Token>, Option<LexError>))
    ensures
        view_tokens(r.0@) == lex_all(s@, 0).0,
        match r.1 {
            Some(e) => lex_all(s@, 0).1 == Some(e@),
            None => lex_all(s@, 0).1 is None,
        },
{
    let mut out: Vec<Token> = Vec::new();
    let mut i: usize = 0;
    proof {
        assert(view_tokens(out@) =~= Seq::<TokenV>::empty());
        assert(view_tokens(out@) + lex_all(s@, 0).0 =~= lex_all(s@, 0).0);
    }
    loop
        invariant
            i <= s@.len(),
            view_tokens(out@) + lex_all(s@, i as int).0 == lex_all(s@, 0).0,
            lex_all(s@, i as int).1 == lex_all(s@, 0).1,
        decreases s@.len() - i,
    {
        match next_token_from(s, i) {
            Ok(None) => {
                proof {
                    assert(view_tokens(out@) + lex_all(s@, i as int).0 =~= view_tokens(out@));
                }
                return (out, None);
            },
            Ok(Some((t, j))) => {
                let ghost prev = out@;
                out.push(t);
                proof {
                    assert(view_tokens(out@) =~= view_tokens(prev) + seq![t@]);
                    assert((view_tokens(prev) + seq![t@]) + lex_all(s@, j as int).0
                        =~= view_tokens(prev) + (seq![t@] + lex_all(s@, j as int).0));
                }
                i = j;
            },
            Err(e) => {
                proof {
                    assert(view_tokens(out@) + lex_all(s@, i as int).0 =~= view_tokens(out@));
                }
                return (out, Some(e));
            },
        }
    }
}

/// The mathematical shape of the token stream: the tokens before the first
/// failure, the failure if any, and how far the stream has been consumed.
pub struct LexerV {
    pub toks: Seq<TokenV>,
    pub err: Option<LexErrV>,
    pub pos: int,
}

/// What peeking `off` tokens ahead yields: a token, the failure that ends
/// the stream, or nothing past the end.
pub open spec fn stream_peek(v: LexerV, off: int) -> Option<Result<TokenV, LexErrV>> {
    if v.pos + off < v.toks.len() {
        Some(Ok(v.toks[v.pos + off]))
    } else {
        match v.err {
            Some(e) => Some(Err(e)),
            None => None,
        }
    }
}

/// The view of a peeked token.
pub open spec fn view_peeked(r: Option<TokenResult>) -> Option<Result<TokenV, LexErrV>> {
    match r {
        None => None,
        Some(Ok(t)) => Some(Ok(t@)),
        Some(Err(e)) => Some(Err(e@)),
    }
}

/// The token stream over one line of source text, with the two tokens of
/// lookahead the parser needs. The input is scanned up front; the stream
/// then hands its tokens out one at a time, ending with the lexical failure
/// if the scan hit one.
pub struct Lexer {
    tokens: Vec<Token>,
    err: Option<LexError>,
    pos: usize,
}

impl View for Lexer {
    type V = LexerV;

    closed spec fn view(&self) -> LexerV {
        LexerV {
            toks: view_tokens(self.tokens@),
            err: match self.err {
                Some(e) => Some(e@),
                None => None,
            },
            pos: self.pos as int,
        }
    }
}

impl Lexer {
    /// The stream has not been consumed past its end.
    pub closed spec fn wf(&self) -> bool {
        self.pos <= self.tokens.len()
    }

    /// Scan one line of source text into a fresh stream.
    pub fn new(source: &str) -> (l: Lexer)
        ensures
            l.wf(),
            l@.pos == 0,
            l@.toks == lex_all(source@, 0).0,
            l@.err == lex_all(source@, 0).1,
    {
        let chars = str_to_chars(source);
        let (tokens, err) = tokenize(&chars);
        Lexer { tokens, err, pos: 0 }
    }

    /// The next token, without consuming it.
    pub fn peek_token(&mut self) -> (r: Option<TokenResult>)
        requires
            old(self).wf(),
        ensures
            final(self).wf(),
            *final(self) == *old(self),
            view_peeked(r) == stream_peek(old(self)@, 0),
    {
        if self.pos < self.tokens.len() {
            Some(Ok(self.tokens[self.pos].clone()))
        } else {
            match &self.err {
                Some(e) => Some(Err(*e)),
                None => None,
            }
        }
    }

    /// The token after the next one, without consuming anything.
    pub fn peek_two_token(&mut self) -> (r: Option<TokenResult>)
        requires
            old(self).wf(),
        ensures
            final(self).wf(),
            *final(self) == *old(self),
            view_peeked(r) == stream_peek(old(self)@, 1),
    {
        if self.tokens.len() - self.pos >= 2 {
            Some(Ok(self.tokens[self.pos + 1].clone()))
        } else {
            match &self.err {
                Some(e) => Some(Err(*e)),
                None => None,
            }
        }
    }

    /// The next token when there is one and it is no failure.
    pub fn peek_token_flatten(&mut self) -> (r: Option<Token>)
        requires
            old(self).wf(),
        ensures
            final(self).wf(),
            *final(self) == *old(self),
            match r {
                Some(t) => stream_peek(old(self)@, 0) == Some(
                    Ok::<TokenV, LexErrV>(t@),
                ),
                None => !(stream_peek(old(self)@, 0) matches Some(Ok(_))),
            },
    {
        match self.peek_token() {
            Some(Ok(t)) => Some(t),
            _ => None,
        }
    }

    /// The token after the next one when there is one and it is no failure.
    pub fn peek_two_token_flatten(&mut self) -> (r: Option<Token>)
        requires
            old(self).wf(),
        ensures
            final(self).wf(),
            *final(self) == *old(self),
            match r {
                Some(t) => stream_peek(old(self)@, 1) == Some(
                    Ok::<TokenV, LexErrV>(t@),
                ),
                None => !(stream_peek(old(self)@, 1) matches Some(Ok(_))),
            },
    {
        match self.peek_two_token() {
            Some(Ok(t)) => Some(t),
            _ => None,
        }
    }

    /// Consume and return the next token; at the end of the stream, the
    /// failure that cut it short, if any.
    pub fn next_token(&mut self) -> (r: Option<TokenResult>)
        requires
            old(self).wf(),
        ensures
            final(self).wf(),
            view_peeked(r) == stream_peek(old(self)@, 0),
            final(self)@.toks == old(self)@.toks,
            final(self)@.err == old(self)@.err,
            final(self)@.pos == if old(self)@.pos < old(self)@.toks.len() {
                old(self)@.pos + 1
            } else {
                old(self)@.pos
            },
    {
        if self.pos < self.tokens.len() {
            let t = self.tokens[self.pos].clone();
            self.pos = self.pos + 1;
            Some(Ok(t))
        } else {
            match &self.err {
                Some(e) => Some(Err(*e)),
                None => None,
            }
        }
    }
}

} // verus!
