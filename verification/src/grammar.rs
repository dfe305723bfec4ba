//! The shared lexical rules, stated once as a mathematical model.
//!
//! [`lexed`] maps a source text (a sequence of characters) to the token
//! sequence it denotes, or to the first fatal lexical error.  Every scanning
//! strategy in this crate is proved to return exactly this function of its
//! input, which is what makes the strategies interchangeable.

use vstd::prelude::*;
use vstd::string::StrSliceExecFns;

use crate::token::ErrorModel;
use crate::token::ItemModel;
use crate::token::LexError;
use crate::token::Token;
use crate::token::TokenModel;

verus! {

/// Whitespace: space, tab, carriage return, newline.
pub open spec fn is_space(c: char) -> bool {
    c == ' ' || c == '\t' || c == '\r' || c == '\n'
}

/// An identifier character: an ASCII letter.
pub open spec fn is_letter(c: char) -> bool {
    ('a' <= c && c <= 'z') || ('A' <= c && c <= 'Z')
}

/// A decimal digit.
pub open spec fn is_digit(c: char) -> bool {
    '0' <= c && c <= '9'
}

/// A single-character operator.
pub open spec fn is_op_char(c: char) -> bool {
    c == '+' || c == '-' || c == '*' || c == '/' || c == '=' || c == '(' || c == ')'
}

/// The token kind of a single-character operator.
pub open spec fn op_item(c: char) -> ItemModel {
    if c == '+' {
        ItemModel::Plus
    } else if c == '-' {
        ItemModel::Minus
    } else if c == '*' {
        ItemModel::Multiply
    } else if c == '/' {
        ItemModel::Divide
    } else if c == '=' {
        ItemModel::Equal
    } else if c == '(' {
        ItemModel::LParen
    } else {
        ItemModel::RParen
    }
}

/// The character classes over which the scanners take greedy, maximal runs.
pub enum RunClass {
    /// Whitespace characters.
    Space,
    /// ASCII letters (an identifier).
    Letter,
    /// Decimal digits (an integer literal).
    Digit,
    /// Everything but a newline (the body of a line comment).
    NotNewline,
    /// Everything but a quote or a newline (the inside of a quoted string).
    QuoteInner,
}

/// Whether `c` belongs to the class `k`.
pub open spec fn in_class(c: char, k: RunClass) -> bool {
    match k {
        RunClass::Space => is_space(c),
        RunClass::Letter => is_letter(c),
        RunClass::Digit => is_digit(c),
        RunClass::NotNewline => c != '\n',
        RunClass::QuoteInner => c != '"' && c != '\n',
    }
}

/// The first position at or after `i` whose character is not in class `k`
/// (or the end of the text): the end of the greedy run that starts at `i`.
pub open spec fn run_end(s: Seq<char>, i: int, k: RunClass) -> int
    decreases s.len() - i
    when 0 <= i <= s.len()
{
    if i < s.len() && in_class(s[i], k) {
        run_end(s, i + 1, k)
    } else {
        i
    }
}

/// The basic facts about a greedy run: it stays within the text, every
/// character inside it is in the class, and the character that ends it
/// (if any) is not.
pub proof fn lemma_run_end(s: Seq<char>, i: int, k: RunClass)
    requires
        0 <= i <= s.len(),
    ensures
        i <= run_end(s, i, k) <= s.len(),
        forall|j: int| i <= j < run_end(s, i, k) ==> in_class(s[j], k),
        run_end(s, i, k) < s.len() ==> !in_class(s[run_end(s, i, k)], k),
    decreases s.len() - i,
{
    if i < s.len() && in_class(s[i], k) {
        lemma_run_end(s, i + 1, k);
    }
}

/// A run over a nonempty class prefix advances by at least one character.
pub proof fn lemma_run_end_advances(s: Seq<char>, i: int, k: RunClass)
    requires
        0 <= i < s.len(),
        in_class(s[i], k),
    ensures
        i + 1 <= run_end(s, i, k) <= s.len(),
        run_end(s, i, k) == run_end(s, i + 1, k),
{
    lemma_run_end(s, i + 1, k);
}

/// The characterization of `run_end`: any position bounding a full run of
/// class characters, and itself out of the class, is the run's end.
pub proof fn lemma_run_end_is(s: Seq<char>, i: int, k: RunClass, j: int)
    requires
        0 <= i <= j <= s.len(),
        forall|m: int| i <= m < j ==> in_class(s[m], k),
        j < s.len() ==> !in_class(s[j], k),
    ensures
        run_end(s, i, k) == j,
    decreases j - i,
{
    if i < j {
        assert(in_class(s[i], k));
        lemma_run_end_is(s, i + 1, k, j);
    }
}

/// The numeric value of a digit character.
pub open spec fn digit_val(c: char) -> int {
    c as int - '0' as int
}

/// The value of a digit run, most significant digit first.
pub open spec fn digits_val(s: Seq<char>) -> int
    decreases s.len(),
{
    if s.len() == 0 {
        0
    } else {
        digits_val(s.drop_last()) * 10 + digit_val(s.last())
    }
}

/// The value of a digit run is never negative.
pub proof fn lemma_digits_val_nonneg(s: Seq<char>)
    requires
        forall|m: int| 0 <= m < s.len() ==> is_digit(s[m]),
    ensures
        0 <= digits_val(s),
    decreases s.len(),
{
    if s.len() > 0 {
        lemma_digits_val_nonneg(s.drop_last());
    }
}

/// Prepend one token to a scan result, passing an error through unchanged.
pub open spec fn with_token(
    t: TokenModel,
    rest: Result<Seq<TokenModel>, ErrorModel>,
) -> Result<Seq<TokenModel>, ErrorModel> {
    match rest {
        Ok(ts) => Ok(seq![t] + ts),
        Err(e) => Err(e),
    }
}

/// Build a token model.
pub open spec fn make_token(item: ItemModel, offset: int, length: int) -> TokenModel {
    TokenModel { item, offset, length }
}

/// The token sequence denoted by the source text `s` from position `i` on,
/// or the first fatal lexical error at or after `i`.
///
/// The rules, in the priority order every strategy obeys: whitespace is
/// skipped; `//` opens a line comment, skipped up to (not including) the
/// next newline, and takes priority over `Divide`; a single-character
/// operator is a token of length one; a maximal ASCII-letter run is an
/// identifier; a maximal digit run is an integer literal, a reported
/// overflow if its value exceeds `i32::MAX`; a quote opens a string that
/// must close on the same line, whose token carries and spans only the
/// inner text; any other character is unknown.
pub open spec fn lex_from(s: Seq<char>, i: int) -> Result<Seq<TokenModel>, ErrorModel>
    decreases s.len() - i
    when 0 <= i
    via lex_from_dec
{
    if s.len() <= i {
        Ok(Seq::empty())
    } else {
        let c = s[i];
        if is_space(c) {
            lex_from(s, i + 1)
        } else if c == '/' && i + 1 < s.len() && s[i + 1] == '/' {
            lex_from(s, run_end(s, i + 2, RunClass::NotNewline))
        } else if is_op_char(c) {
            with_token(make_token(op_item(c), i, 1), lex_from(s, i + 1))
        } else if is_letter(c) {
            let j = run_end(s, i, RunClass::Letter);
            with_token(make_token(ItemModel::Ident(s.subrange(i, j)), i, j - i), lex_from(s, j))
        } else if is_digit(c) {
            let j = run_end(s, i, RunClass::Digit);
            let v = digits_val(s.subrange(i, j));
            if v > i32::MAX as int {
                Err(ErrorModel::Overflow(i))
            } else {
                with_token(make_token(ItemModel::Integer(v), i, j - i), lex_from(s, j))
            }
        } else if c == '"' {
            let j = run_end(s, i + 1, RunClass::QuoteInner);
            if j < s.len() && s[j] == '"' {
                with_token(
                    make_token(ItemModel::Quote(s.subrange(i + 1, j)), i + 1, j - i - 1),
                    lex_from(s, j + 1),
                )
            } else {
                Err(ErrorModel::UnterminatedString(i))
            }
        } else {
            Err(ErrorModel::UnknownToken(c, i))
        }
    }
}

#[via_fn]
proof fn lex_from_dec(s: Seq<char>, i: int) {
    if 0 <= i < s.len() {
        let c = s[i];
        if c == '/' && i + 1 < s.len() && s[i + 1] == '/' {
            lemma_run_end(s, i + 2, RunClass::NotNewline);
        }
        if is_letter(c) {
            lemma_run_end_advances(s, i, RunClass::Letter);
        }
        if is_digit(c) {
            lemma_run_end_advances(s, i, RunClass::Digit);
        }
        if c == '"' && i + 1 <= s.len() {
            lemma_run_end(s, i + 1, RunClass::QuoteInner);
        }
    }
}

/// The token sequence denoted by the whole source text, or its first error.
pub open spec fn lexed(s: Seq<char>) -> Result<Seq<TokenModel>, ErrorModel> {
    lex_from(s, 0)
}

/// The models of a sequence of produced tokens.
pub open spec fn views_of(ts: Seq<Token>) -> Seq<TokenModel> {
    ts.map_values(|t: Token| t@)
}

/// Prepend an already-produced token prefix to the result of the remaining
/// scan, passing an error through unchanged.
pub open spec fn prefixed(
    p: Seq<TokenModel>,
    rest: Result<Seq<TokenModel>, ErrorModel>,
) -> Result<Seq<TokenModel>, ErrorModel> {
    match rest {
        Ok(ts) => Ok(p + ts),
        Err(e) => Err(e),
    }
}

pub proof fn lemma_prefixed_empty(rest: Result<Seq<TokenModel>, ErrorModel>)
    ensures
        prefixed(Seq::empty(), rest) == rest,
{
    match rest {
        Ok(ts) => {
            assert(Seq::empty() + ts =~= ts);
        },
        Err(_) => {},
    }
}

pub proof fn lemma_prefixed_nil(p: Seq<TokenModel>)
    ensures
        prefixed(p, Ok(Seq::empty())) == Ok::<Seq<TokenModel>, ErrorModel>(p),
{
    assert(p + Seq::empty() =~= p);
}

/// Moving a token from the head of the remaining scan to the tail of the
/// produced prefix does not change the overall result.
pub proof fn lemma_prefixed_token(
    p: Seq<TokenModel>,
    t: TokenModel,
    rest: Result<Seq<TokenModel>, ErrorModel>,
)
    ensures
        prefixed(p, with_token(t, rest)) == prefixed(p.push(t), rest),
{
    match rest {
        Ok(ts) => {
            assert(p + (seq![t] + ts) =~= p.push(t) + ts);
        },
        Err(_) => {},
    }
}

pub proof fn lemma_views_of_push(ts: Seq<Token>, t: Token)
    ensures
        views_of(ts.push(t)) == views_of(ts).push(t@),
{
    assert(views_of(ts.push(t)) =~= views_of(ts).push(t@));
}

/// Skipping a whitespace run one character at a time reaches its end.
pub proof fn lemma_lex_from_spaces(s: Seq<char>, i: int)
    requires
        0 <= i <= s.len(),
    ensures
        lex_from(s, i) == lex_from(s, run_end(s, i, RunClass::Space)),
    decreases s.len() - i,
{
    if i < s.len() && is_space(s[i]) {
        lemma_lex_from_spaces(s, i + 1);
    }
}

/// The token-producing rules of the pattern-based scanners, in the
/// priority order in which they are tried.
#[derive(Debug, Clone, Copy, PartialEq, Eq)]
pub enum Rule {
    Plus,
    Minus,
    Multiply,
    Divide,
    Equal,
    LParen,
    RParen,
    Integer,
    Ident,
    Quote,
}

/// The operator character recognized by an operator rule; meaningless for
/// the `Integer`, `Ident` and `Quote` rules.
pub open spec fn rule_char(r: Rule) -> char {
    match r {
        Rule::Plus => '+',
        Rule::Minus => '-',
        Rule::Multiply => '*',
        Rule::Divide => '/',
        Rule::Equal => '=',
        Rule::LParen => '(',
        Rule::RParen => ')',
        _ => ' ',
    }
}

/// What an anchored single-character pattern matches at position `i`:
/// exactly one character, when it is the literal `c`.
pub open spec fn literal_match(c: char, s: Seq<char>, i: int) -> Option<int> {
    if 0 <= i < s.len() && s[i] == c {
        Some(1)
    } else {
        None
    }
}

/// What the anchored digit-run pattern matches at position `i`: the
/// maximal digit run, when the position holds a digit.
pub open spec fn integer_match(s: Seq<char>, i: int) -> Option<int> {
    if 0 <= i < s.len() && is_digit(s[i]) {
        Some(run_end(s, i, RunClass::Digit) - i)
    } else {
        None
    }
}

/// What the anchored letter-run pattern matches at position `i`: the
/// maximal ASCII-letter run, when the position holds a letter.
pub open spec fn ident_match(s: Seq<char>, i: int) -> Option<int> {
    if 0 <= i < s.len() && is_letter(s[i]) {
        Some(run_end(s, i, RunClass::Letter) - i)
    } else {
        None
    }
}

/// What the anchored quoted-string pattern matches at position `i`: the
/// whole literal including both quotes, when the position holds a quote
/// that closes before the next newline or the end of input.
pub open spec fn quote_match(s: Seq<char>, i: int) -> Option<int> {
    if 0 <= i < s.len() && s[i] == '"' {
        let j = run_end(s, i + 1, RunClass::QuoteInner);
        if j < s.len() && s[j] == '"' {
            Some(j + 1 - i)
        } else {
            None
        }
    } else {
        None
    }
}

/// What the anchored whitespace-or-comment pattern matches at position
/// `i`: a maximal whitespace run, or a `//` comment up to (not including)
/// the next newline.
pub open spec fn non_token_match(s: Seq<char>, i: int) -> Option<int> {
    if 0 <= i < s.len() && is_space(s[i]) {
        Some(run_end(s, i, RunClass::Space) - i)
    } else if 0 <= i && i + 1 < s.len() && s[i] == '/' && s[i + 1] == '/' {
        Some(run_end(s, i + 2, RunClass::NotNewline) - i)
    } else {
        None
    }
}

/// What the pattern of rule `r` matches at position `i`.
pub open spec fn rule_match(r: Rule, s: Seq<char>, i: int) -> Option<int> {
    match r {
        Rule::Integer => integer_match(s, i),
        Rule::Ident => ident_match(s, i),
        Rule::Quote => quote_match(s, i),
        _ => literal_match(rule_char(r), s, i),
    }
}

/// The model of an optional match length.
pub open spec fn len_model(r: Option<usize>) -> Option<int> {
    match r {
        Some(n) => Some(n as int),
        None => None,
    }
}

/// Whether `c` is a whitespace character.
pub fn space(c: char) -> (b: bool)
    ensures
        b == is_space(c),
{
    c == ' ' || c == '\t' || c == '\r' || c == '\n'
}

/// Whether `c` is an ASCII letter.
pub fn letter(c: char) -> (b: bool)
    ensures
        b == is_letter(c),
{
    let u = c as u32;
    (97 <= u && u <= 122) || (65 <= u && u <= 90)
}

/// Whether `c` is a decimal digit.
pub fn digit(c: char) -> (b: bool)
    ensures
        b == is_digit(c),
{
    let u = c as u32;
    48 <= u && u <= 57
}

/// Collect the characters of a source text, so that a scanner can walk it
/// by character position.
pub fn chars_of(src: &str) -> (r: Vec<char>)
    ensures
        r@ == src@,
{
    let n = src.unicode_len();
    let mut r: Vec<char> = Vec::new();
    let mut i: usize = 0;
    while i < n
        invariant
            n == src@.len(),
            i <= n,
            r@ == src@.subrange(0, i as int),
        decreases n - i,
    {
        r.push(src.get_char(i));
        proof {
            assert(src@.subrange(0, i + 1) =~= src@.subrange(0, i as int).push(src@[i as int]));
        }
        i += 1;
    }
    proof {
        assert(src@.subrange(0, n as int) =~= src@);
    }
    r
}

/// Parse the digit run `chars[lo..hi]` into a 32-bit signed integer,
/// reporting an overflow at `lo` when the value does not fit.
pub fn parse_digits(chars: &Vec<char>, lo: usize, hi: usize) -> (r: Result<i32, LexError>)
    requires
        lo <= hi <= chars@.len(),
        forall|m: int| lo <= m < hi ==> is_digit(chars@[m]),
    ensures
        ({
            let v = digits_val(chars@.subrange(lo as int, hi as int));
            match r {
                Ok(x) => v <= i32::MAX as int && x as int == v,
                Err(e) => v > i32::MAX as int && e == LexError::Overflow(lo),
            }
        }),
{
    let mut value: u64 = 0;
    let mut over: bool = false;
    let mut m: usize = lo;
    while m < hi
        invariant
            lo <= m <= hi <= chars@.len(),
            forall|q: int| lo <= q < hi ==> is_digit(chars@[q]),
            !over ==> value <= i32::MAX as u64 && value as int == digits_val(
                chars@.subrange(lo as int, m as int),
            ),
            over ==> digits_val(chars@.subrange(lo as int, m as int)) > i32::MAX as int,
        decreases hi - m,
    {
        let c = chars[m];
        let d: u64 = (c as u32 - 48) as u64;
        proof {
            assert(is_digit(chars@[m as int]));
            assert(chars@.subrange(lo as int, m + 1).drop_last() =~= chars@.subrange(
                lo as int,
                m as int,
            ));
            assert(digits_val(chars@.subrange(lo as int, m + 1)) == digits_val(
                chars@.subrange(lo as int, m as int),
            ) * 10 + digit_val(chars@[m as int]));
        }
        if over {
            proof {
                lemma_digits_val_nonneg(chars@.subrange(lo as int, m as int));
            }
        } else {
            let next: u64 = value * 10 + d;
            if next > i32::MAX as u64 {
                over = true;
            } else {
                value = next;
            }
        }
        m += 1;
    }
    if over {
        Err(LexError::Overflow(lo))
    } else {
        Ok(value as i32)
    }
}

} // verus!
