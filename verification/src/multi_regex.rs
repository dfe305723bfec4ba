//! The multi-pattern scanning strategy: an ordered table of per-token-kind
//! patterns, tried in sequence at each cursor position; the first match
//! wins.  The whitespace/comment skip pattern is tried before the table,
//! so a `//` comment takes priority over the `Divide` rule.  The pattern
//! engine is the `regex` crate, reached through the trusted wrappers at
//! the bottom of this module; everything around them is verified against
//! [`crate::grammar::lexed`].

use regex::Regex;
use vstd::prelude::*;
use vstd::string::StrSliceExecFns;

use crate::grammar::Rule;
use crate::grammar::RunClass;
use crate::grammar::chars_of;
use crate::grammar::ident_match;
use crate::grammar::integer_match;
use crate::grammar::is_digit;
use crate::grammar::is_letter;
use crate::grammar::is_space;
use crate::grammar::len_model;
use crate::grammar::lemma_lex_from_spaces;
use crate::grammar::lemma_prefixed_empty;
use crate::grammar::lemma_prefixed_nil;
use crate::grammar::lemma_prefixed_token;
use crate::grammar::lemma_run_end;
use crate::grammar::lemma_views_of_push;
use crate::grammar::lex_from;
use crate::grammar::lexed;
use crate::grammar::literal_match;
use crate::grammar::non_token_match;
use crate::grammar::op_item;
use crate::grammar::parse_digits;
use crate::grammar::prefixed;
use crate::grammar::quote_match;
use crate::grammar::rule_match;
use crate::grammar::views_of;
use crate::token::ErrorModel;
use crate::token::Item;
use crate::token::LexError;
use crate::token::Span;
use crate::token::Token;
use crate::token::TokenModel;

verus! {

/// The table order: operators first, then the integer, identifier and
/// quoted-string rules.
pub open spec fn rules_spec() -> Seq<Rule> {
    seq![
        Rule::Plus,
        Rule::Minus,
        Rule::Multiply,
        Rule::Divide,
        Rule::Equal,
        Rule::LParen,
        Rule::RParen,
        Rule::Integer,
        Rule::Ident,
        Rule::Quote,
    ]
}

/// A table-driven scanner over one source buffer.
pub struct Lexer<'a> {
    src: &'a str,
    src_vec: Vec<char>,
    src_len: usize,
    rules: Vec<Rule>,
}

impl<'a> View for Lexer<'a> {
    type V = Seq<char>;

    closed spec fn view(&self) -> Seq<char> {
        self.src@
    }
}

impl<'a> Lexer<'a> {
    /// The scanner's character buffer and cached length agree with its
    /// source text, and its rule table is the canonical one.
    pub closed spec fn wf(&self) -> bool {
        self.src_vec@ == self.src@ && self.src_len == self.src@.len() && self.rules@
            == rules_spec()
    }

    /// Build a scanner over `src`, with the rule table in priority order.
    pub fn new(src: &'a str) -> (r: Lexer<'a>)
        ensures
            r.wf(),
            r@ == src@,
    {
        let src_vec = chars_of(src);
        let src_len = src_vec.len();
        let mut rules: Vec<Rule> = Vec::new();
        rules.push(Rule::Plus);
        rules.push(Rule::Minus);
        rules.push(Rule::Multiply);
        rules.push(Rule::Divide);
        rules.push(Rule::Equal);
        rules.push(Rule::LParen);
        rules.push(Rule::RParen);
        rules.push(Rule::Integer);
        rules.push(Rule::Ident);
        rules.push(Rule::Quote);
        proof {
            assert(rules@ =~= rules_spec());
        }
        Lexer { src, src_vec, src_len, rules }
    }

    /// Scan the whole source, returning its tokens in source order, or the
    /// first fatal lexical error.
    pub fn lex(&self) -> (r: Result<Vec<Token>, LexError>)
        requires
            self.wf(),
        ensures
            match r {
                Ok(toks) => lexed(self@) == Ok::<Seq<TokenModel>, ErrorModel>(views_of(toks@)),
                Err(e) => lexed(self@) == Err::<Seq<TokenModel>, ErrorModel>(e@),
            },
    {
        let mut tokens: Vec<Token> = Vec::new();
        let mut pointer: usize = 0;
        proof {
            lemma_prefixed_empty(lex_from(self@, 0));
            assert(views_of(tokens@) =~= Seq::<TokenModel>::empty());
        }
        while pointer < self.src_len
            invariant
                self.wf(),
                pointer <= self.src_len,
                lexed(self@) == prefixed(views_of(tokens@), lex_from(self@, pointer as int)),
            decreases self.src_len - pointer,
        {
            let ghost s = self@;
            let ghost p = pointer as int;
            if let Some(n) = re_non_token(&self.src_vec, pointer) {
                proof {
                    if is_space(s[p]) {
                        lemma_run_end(s, p, RunClass::Space);
                        lemma_lex_from_spaces(s, p);
                    } else {
                        lemma_run_end(s, p + 2, RunClass::NotNewline);
                    }
                }
                pointer += n;
            } else {
                let mut k: usize = 0;
                let mut found: Option<(Rule, usize)> = None;
                while k < self.rules.len() && found.is_none()
                    invariant
                        self.wf(),
                        s == self@,
                        p == pointer as int,
                        pointer < self.src_len,
                        k <= self.rules@.len(),
                        non_token_match(s, p) is None,
                        found is None ==> forall|m: int|
                            0 <= m < k ==> rule_match(self.rules@[m], s, p) is None,
                        found matches Some((rl, n)) ==> rule_match(rl, s, p) == Some(n as int),
                    decreases self.rules@.len() - k + (if found is None {
                        1int
                    } else {
                        0int
                    }),
                {
                    let rl = self.rules[k];
                    let m = match rl {
                        Rule::Plus => re_literal('+', &self.src_vec, pointer),
                        Rule::Minus => re_literal('-', &self.src_vec, pointer),
                        Rule::Multiply => re_literal('*', &self.src_vec, pointer),
                        Rule::Equal => re_literal('=', &self.src_vec, pointer),
                        Rule::Divide => re_literal('/', &self.src_vec, pointer),
                        Rule::LParen => re_literal('(', &self.src_vec, pointer),
                        Rule::RParen => re_literal(')', &self.src_vec, pointer),
                        Rule::Integer => re_integer(&self.src_vec, pointer),
                        Rule::Ident => re_ident(&self.src_vec, pointer),
                        Rule::Quote => re_quote(&self.src_vec, pointer),
                    };
                    assert(len_model(m) == rule_match(rl, s, p));
                    match m {
                        Some(n) => {
                            found = Some((rl, n));
                        },
                        None => {
                            k += 1;
                        },
                    }
                }
                match found {
                    Some((rl, n)) => {
                        match rl {
                            Rule::Integer => {
                                proof {
                                    lemma_run_end(s, p, RunClass::Digit);
                                }
                                let value = match parse_digits(
                                    &self.src_vec,
                                    pointer,
                                    pointer + n,
                                ) {
                                    Ok(v) => v,
                                    Err(e) => {
                                        return Err(e);
                                    },
                                };
                                let token = Token(Item::Integer(value), Span(pointer, n));
                                proof {
                                    lemma_views_of_push(tokens@, token);
                                    lemma_prefixed_token(
                                        views_of(tokens@),
                                        token@,
                                        lex_from(s, p + n),
                                    );
                                }
                                tokens.push(token);
                                pointer += n;
                            },
                            Rule::Ident => {
                                proof {
                                    lemma_run_end(s, p, RunClass::Letter);
                                }
                                let text = self.src.substring_char(pointer, pointer + n)
                                    .to_owned();
                                let token = Token(Item::Ident(text), Span(pointer, n));
                                proof {
                                    lemma_views_of_push(tokens@, token);
                                    lemma_prefixed_token(
                                        views_of(tokens@),
                                        token@,
                                        lex_from(s, p + n),
                                    );
                                }
                                tokens.push(token);
                                pointer += n;
                            },
                            Rule::Quote => {
                                proof {
                                    lemma_run_end(s, p + 1, RunClass::QuoteInner);
                                }
                                let text = self.src.substring_char(pointer + 1, pointer + n - 1)
                                    .to_owned();
                                let token = Token(Item::Quote(text), Span(pointer + 1, n - 2));
                                proof {
                                    lemma_views_of_push(tokens@, token);
                                    lemma_prefixed_token(
                                        views_of(tokens@),
                                        token@,
                                        lex_from(s, p + n),
                                    );
                                }
                                tokens.push(token);
                                pointer += n;
                            },
                            op_rule => {
                                let item = match op_rule {
                                    Rule::Plus => Item::Plus,
                                    Rule::Minus => Item::Minus,
                                    Rule::Multiply => Item::Multiply,
                                    Rule::Divide => Item::Divide,
                                    Rule::Equal => Item::Equal,
                                    Rule::LParen => Item::LParen,
                                    Rule::RParen => Item::RParen,
                                    _ => unreached(),
                                };
                                assert(item@ == op_item(s[p]));
                                let token = Token(item, Span(pointer, 1));
                                proof {
                                    lemma_views_of_push(tokens@, token);
                                    lemma_prefixed_token(
                                        views_of(tokens@),
                                        token@,
                                        lex_from(s, p + 1),
                                    );
                                }
                                tokens.push(token);
                                pointer += n;
                            },
                        }
                    },
                    None => {
                        proof {
                            assert(self.rules@[0] == Rule::Plus);
                            assert(self.rules@[1] == Rule::Minus);
                            assert(self.rules@[2] == Rule::Multiply);
                            assert(self.rules@[3] == Rule::Divide);
                            assert(self.rules@[4] == Rule::Equal);
                            assert(self.rules@[5] == Rule::LParen);
                            assert(self.rules@[6] == Rule::RParen);
                            assert(self.rules@[7] == Rule::Integer);
                            assert(self.rules@[8] == Rule::Ident);
                            assert(self.rules@[9] == Rule::Quote);
                            assert(quote_match(s, p) is None);
                            assert(!is_digit(s[p]) && !is_letter(s[p]));
                        }
                        let c = self.src_vec[pointer];
                        if c == '"' {
                            proof {
                                lemma_run_end(s, p + 1, RunClass::QuoteInner);
                            }
                            return Err(LexError::UnterminatedString(pointer));
                        } else {
                            return Err(LexError::UnknownToken(c, pointer));
                        }
                    },
                }
            }
        }
        proof {
            lemma_prefixed_nil(views_of(tokens@));
        }
        Ok(tokens)
    }
}

/// Relies on `regex::Regex::find` with the anchored pattern
/// `^(?:[ \t\r\n]+|//[^\n]*)`: at the start of the remaining input it
/// matches a maximal run of whitespace characters, or (preferring the
/// earlier alternative, and only when the position does not hold
/// whitespace) `//` followed by everything up to the next newline or the
/// end of input.  Returns the match length in characters.
#[verifier::external_body]
fn re_non_token(chars: &Vec<char>, start: usize) -> (r: Option<usize>)
    requires
        start <= chars@.len(),
    ensures
        len_model(r) == non_token_match(chars@, start as int),
{
    let buf: String = chars[start..].iter().collect();
    let re = Regex::new("^(?:[ \t\r\n]+|//[^\n]*)").unwrap();
    re.find(&buf).map(|m| m.as_str().chars().count())
}

/// Relies on `regex::Regex::find` with the anchored pattern `^X`, where
/// `X` is `regex::escape` of the single character `op`: it matches exactly
/// when the remaining input starts with that character, and the match is
/// that one character.
#[verifier::external_body]
fn re_literal(op: char, chars: &Vec<char>, start: usize) -> (r: Option<usize>)
    requires
        start <= chars@.len(),
    ensures
        len_model(r) == literal_match(op, chars@, start as int),
{
    let buf: String = chars[start..].iter().collect();
    let re = Regex::new(&format!("^{}", regex::escape(&op.to_string()))).unwrap();
    re.find(&buf).map(|m| m.as_str().chars().count())
}

/// Relies on `regex::Regex::find` with the anchored pattern `^[0-9]+`: it
/// matches exactly when the remaining input starts with a decimal digit,
/// and the match is the maximal digit run.
#[verifier::external_body]
fn re_integer(chars: &Vec<char>, start: usize) -> (r: Option<usize>)
    requires
        start <= chars@.len(),
    ensures
        len_model(r) == integer_match(chars@, start as int),
{
    let buf: String = chars[start..].iter().collect();
    let re = Regex::new("^[0-9]+").unwrap();
    re.find(&buf).map(|m| m.as_str().chars().count())
}

/// Relies on `regex::Regex::find` with the anchored pattern `^[A-Za-z]+`:
/// it matches exactly when the remaining input starts with an ASCII
/// letter, and the match is the maximal letter run.
#[verifier::external_body]
fn re_ident(chars: &Vec<char>, start: usize) -> (r: Option<usize>)
    requires
        start <= chars@.len(),
    ensures
        len_model(r) == ident_match(chars@, start as int),
{
    let buf: String = chars[start..].iter().collect();
    let re = Regex::new("^[A-Za-z]+").unwrap();
    re.find(&buf).map(|m| m.as_str().chars().count())
}

/// Relies on `regex::Regex::find` with the anchored pattern
/// `^"[^"\n]*"`: it matches exactly when the remaining input starts with a
/// quote that is closed before the next newline or the end of input, and
/// the match runs through the closing quote.  Returns the match length in
/// characters.
#[verifier::external_body]
fn re_quote(chars: &Vec<char>, start: usize) -> (r: Option<usize>)
    requires
        start <= chars@.len(),
    ensures
        len_model(r) == quote_match(chars@, start as int),
{
    let buf: String = chars[start..].iter().collect();
    let re = Regex::new("^\"[^\"\n]*\"").unwrap();
    re.find(&buf).map(|m| m.as_str().chars().count())
}

} // verus!
