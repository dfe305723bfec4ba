//! The hand-written scanning strategy: a single cursor driven through the
//! character sequence, classifying each character directly.  This is the
//! baseline strategy; its output is proved equal to [`crate::grammar::lexed`],
//! the same contract the pattern-based strategies carry.

use vstd::prelude::*;
use vstd::string::StrSliceExecFns;

use crate::grammar::RunClass;
use crate::grammar::chars_of;
use crate::grammar::digit;
use crate::grammar::digits_val;
use crate::grammar::is_digit;
use crate::grammar::is_letter;
use crate::grammar::is_op_char;
use crate::grammar::lemma_prefixed_empty;
use crate::grammar::lemma_prefixed_nil;
use crate::grammar::lemma_prefixed_token;
use crate::grammar::lemma_run_end;
use crate::grammar::lemma_run_end_advances;
use crate::grammar::lemma_views_of_push;
use crate::grammar::letter;
use crate::grammar::lex_from;
use crate::grammar::lexed;
use crate::grammar::make_token;
use crate::grammar::op_item;
use crate::grammar::parse_digits;
use crate::grammar::prefixed;
use crate::grammar::run_end;
use crate::grammar::space;
use crate::grammar::views_of;
use crate::token::ErrorModel;
use crate::token::Item;
use crate::token::ItemModel;
use crate::token::LexError;
use crate::token::Span;
use crate::token::Token;
use crate::token::TokenModel;

verus! {

/// A hand-written scanner over one source buffer.
pub struct Lexer<'a> {
    src: &'a str,
    src_vec: Vec<char>,
    src_len: usize,
}

impl<'a> View for Lexer<'a> {
    type V = Seq<char>;

    closed spec fn view(&self) -> Seq<char> {
        self.src@
    }
}

impl<'a> Lexer<'a> {
    /// The scanner's character buffer and cached length agree with the
    /// source text it was built from.
    pub closed spec fn wf(&self) -> bool {
        self.src_vec@ == self.src@ && self.src_len == self.src@.len()
    }

    /// Build a scanner over `src`.
    pub fn new(src: &'a str) -> (r: Lexer<'a>)
        ensures
            r.wf(),
            r@ == src@,
    {
        let src_vec = chars_of(src);
        let src_len = src_vec.len();
        Lexer { src, src_vec, src_len }
    }

    /// Scan the whole source, returning its tokens in source order, or the
    /// first fatal lexical error.
    pub fn lex(&self) -> (r: Result<Vec<Token>, LexError>)
        requires
            self.wf(),
        ensures
            match r {
                Ok(toks) => lexed(self@) == Ok::<Seq<TokenModel>, ErrorModel>(views_of(toks@)),
                Err(e) => lexed(self@) == Err::<Seq<TokenModel>, ErrorModel>(e@),
            },
    {
        let mut result: Vec<Token> = Vec::new();
        let mut pointer: usize = 0;
        proof {
            lemma_prefixed_empty(lex_from(self@, 0));
            assert(views_of(result@) =~= Seq::<TokenModel>::empty());
        }
        while pointer < self.src_len
            invariant
                self.wf(),
                pointer <= self.src_len,
                lexed(self@) == prefixed(views_of(result@), lex_from(self@, pointer as int)),
            decreases self.src_len - pointer,
        {
            let ghost s = self@;
            let ghost p = pointer as int;
            let c = self.src_vec[pointer];
            if space(c) {
                assert(lex_from(s, p) == lex_from(s, p + 1));
                pointer += 1;
            } else if c == '/' && pointer + 1 < self.src_len && self.src_vec[pointer + 1] == '/' {
                // A line comment: skip past everything up to the newline,
                // which the next pass then treats as whitespace.
                proof {
                    lemma_run_end(s, p + 2, RunClass::NotNewline);
                }
                assert(lex_from(s, p) == lex_from(s, run_end(s, p + 2, RunClass::NotNewline)));
                pointer += 2;
                while pointer < self.src_len && self.src_vec[pointer] != '\n'
                    invariant
                        self.wf(),
                        s == self@,
                        p + 2 <= pointer as int <= self.src_len,
                        run_end(s, p + 2, RunClass::NotNewline) == run_end(
                            s,
                            pointer as int,
                            RunClass::NotNewline,
                        ),
                    decreases self.src_len - pointer,
                {
                    assert(run_end(s, pointer as int, RunClass::NotNewline) == run_end(
                        s,
                        pointer as int + 1,
                        RunClass::NotNewline,
                    ));
                    pointer += 1;
                }
                assert(run_end(s, pointer as int, RunClass::NotNewline) == pointer as int);
            } else if let Some(operator) = Self::_get_operator(c) {
                let token = Token(operator, Span(pointer, 1));
                proof {
                    lemma_views_of_push(result@, token);
                    lemma_prefixed_token(views_of(result@), token@, lex_from(s, p + 1));
                }
                result.push(token);
                pointer += 1;
            } else if letter(c) {
                let token = self._get_ident(&mut pointer);
                proof {
                    lemma_run_end(s, p, RunClass::Letter);
                    lemma_views_of_push(result@, token);
                    lemma_prefixed_token(
                        views_of(result@),
                        token@,
                        lex_from(s, run_end(s, p, RunClass::Letter)),
                    );
                }
                result.push(token);
                pointer += 1;
            } else if digit(c) {
                match self._get_integer(&mut pointer) {
                    Ok(token) => {
                        proof {
                            lemma_run_end(s, p, RunClass::Digit);
                            lemma_views_of_push(result@, token);
                            lemma_prefixed_token(
                                views_of(result@),
                                token@,
                                lex_from(s, run_end(s, p, RunClass::Digit)),
                            );
                        }
                        result.push(token);
                        pointer += 1;
                    },
                    Err(e) => {
                        proof {
                            lemma_run_end(s, p, RunClass::Digit);
                        }
                        return Err(e);
                    },
                }
            } else if c == '"' {
                match self._get_quote(&mut pointer) {
                    Ok(token) => {
                        proof {
                            lemma_run_end(s, p + 1, RunClass::QuoteInner);
                            lemma_views_of_push(result@, token);
                            lemma_prefixed_token(
                                views_of(result@),
                                token@,
                                lex_from(s, run_end(s, p + 1, RunClass::QuoteInner) + 1),
                            );
                        }
                        result.push(token);
                        pointer += 1;
                    },
                    Err(e) => {
                        proof {
                            lemma_run_end(s, p + 1, RunClass::QuoteInner);
                        }
                        return Err(e);
                    },
                }
            } else {
                assert(lex_from(s, p) == Err::<Seq<TokenModel>, ErrorModel>(
                    ErrorModel::UnknownToken(c, p),
                ));
                return Err(LexError::UnknownToken(c, pointer));
            }
        }
        proof {
            lemma_prefixed_nil(views_of(result@));
        }
        Ok(result)
    }

    /// Classify a single-character operator.
    pub fn _get_operator(character: char) -> (r: Option<Item>)
        ensures
            r is Some <==> is_op_char(character),
            r matches Some(item) ==> item@ == op_item(character),
    {
        match character {
            '+' => Some(Item::Plus),
            '-' => Some(Item::Minus),
            '*' => Some(Item::Multiply),
            '/' => Some(Item::Divide),
            '=' => Some(Item::Equal),
            '(' => Some(Item::LParen),
            ')' => Some(Item::RParen),
            _ => None,
        }
    }

    /// Consume the maximal identifier run that starts at the cursor.  The
    /// cursor is left on the run's last character, to be stepped past by
    /// the caller.
    pub fn _get_ident(&self, pointer: &mut usize) -> (r: Token)
        requires
            self.wf(),
            *old(pointer) < self@.len(),
            is_letter(self@[*old(pointer) as int]),
        ensures
            ({
                let i = *old(pointer) as int;
                let j = run_end(self@, i, RunClass::Letter);
                &&& *final(pointer) as int + 1 == j
                &&& r@ == make_token(ItemModel::Ident(self@.subrange(i, j)), i, j - i)
            }),
    {
        let ghost s = self@;
        let ghost i = *pointer as int;
        let start = *pointer;
        let mut end_pos = start;
        while end_pos < self.src_len && letter(self.src_vec[end_pos])
            invariant
                self.wf(),
                s == self@,
                i == start as int,
                start <= end_pos <= self.src_len,
                run_end(s, i, RunClass::Letter) == run_end(s, end_pos as int, RunClass::Letter),
            decreases self.src_len - end_pos,
        {
            assert(run_end(s, end_pos as int, RunClass::Letter) == run_end(
                s,
                end_pos as int + 1,
                RunClass::Letter,
            ));
            end_pos += 1;
        }
        assert(run_end(s, end_pos as int, RunClass::Letter) == end_pos as int);
        proof {
            lemma_run_end_advances(s, i, RunClass::Letter);
        }
        let text = self.src.substring_char(start, end_pos).to_owned();
        let token = Token(Item::Ident(text), Span(start, end_pos - start));
        *pointer = end_pos - 1;
        token
    }

    /// Consume the maximal digit run that starts at the cursor and parse
    /// it, reporting an overflow when the value does not fit in an `i32`.
    /// On success the cursor is left on the run's last character.
    pub fn _get_integer(&self, pointer: &mut usize) -> (r: Result<Token, LexError>)
        requires
            self.wf(),
            *old(pointer) < self@.len(),
            is_digit(self@[*old(pointer) as int]),
        ensures
            ({
                let i = *old(pointer) as int;
                let j = run_end(self@, i, RunClass::Digit);
                let v = digits_val(self@.subrange(i, j));
                match r {
                    Ok(t) => {
                        &&& v <= i32::MAX as int
                        &&& t@ == make_token(ItemModel::Integer(v), i, j - i)
                        &&& *final(pointer) as int + 1 == j
                    },
                    Err(e) => v > i32::MAX as int && e == LexError::Overflow(*old(pointer)),
                }
            }),
    {
        let ghost s = self@;
        let ghost i = *pointer as int;
        let start = *pointer;
        let mut end_pos = start;
        while end_pos < self.src_len && digit(self.src_vec[end_pos])
            invariant
                self.wf(),
                s == self@,
                i == start as int,
                start <= end_pos <= self.src_len,
                run_end(s, i, RunClass::Digit) == run_end(s, end_pos as int, RunClass::Digit),
            decreases self.src_len - end_pos,
        {
            assert(run_end(s, end_pos as int, RunClass::Digit) == run_end(
                s,
                end_pos as int + 1,
                RunClass::Digit,
            ));
            end_pos += 1;
        }
        assert(run_end(s, end_pos as int, RunClass::Digit) == end_pos as int);
        proof {
            lemma_run_end_advances(s, i, RunClass::Digit);
            lemma_run_end(s, i, RunClass::Digit);
        }
        let value = parse_digits(&self.src_vec, start, end_pos)?;
        let token = Token(Item::Integer(value), Span(start, end_pos - start));
        *pointer = end_pos - 1;
        Ok(token)
    }

    /// Consume a quoted string: the cursor stands on the opening quote, and
    /// on success is left on the closing quote.  The token carries and
    /// spans only the inner text.  A newline or the end of input before the
    /// closing quote is a fatal error.
    pub fn _get_quote(&self, pointer: &mut usize) -> (r: Result<Token, LexError>)
        requires
            self.wf(),
            *old(pointer) < self@.len(),
            self@[*old(pointer) as int] == '"',
        ensures
            ({
                let i = *old(pointer) as int;
                let j = run_end(self@, i + 1, RunClass::QuoteInner);
                match r {
                    Ok(t) => {
                        &&& j < self@.len() && self@[j] == '"'
                        &&& t@ == make_token(ItemModel::Quote(self@.subrange(i + 1, j)), i + 1, j - i - 1)
                        &&& *final(pointer) as int == j
                    },
                    Err(e) => {
                        &&& !(j < self@.len() && self@[j] == '"')
                        &&& e == LexError::UnterminatedString(*old(pointer))
                    },
                }
            }),
    {
        let ghost s = self@;
        let ghost i = *pointer as int;
        let lo = *pointer;
        let mut p = lo + 1;
        while p < self.src_len && self.src_vec[p] != '"' && self.src_vec[p] != '\n'
            invariant
                self.wf(),
                s == self@,
                i == lo as int,
                lo + 1 <= p as int <= self.src_len,
                run_end(s, i + 1, RunClass::QuoteInner) == run_end(
                    s,
                    p as int,
                    RunClass::QuoteInner,
                ),
            decreases self.src_len - p,
        {
            assert(run_end(s, p as int, RunClass::QuoteInner) == run_end(
                s,
                p as int + 1,
                RunClass::QuoteInner,
            ));
            p += 1;
        }
        assert(run_end(s, p as int, RunClass::QuoteInner) == p as int);
        if p < self.src_len {
            if self.src_vec[p] == '"' {
                let text = self.src.substring_char(lo + 1, p).to_owned();
                let token = Token(Item::Quote(text), Span(lo + 1, p - lo - 1));
                *pointer = p;
                Ok(token)
            } else {
                Err(LexError::UnterminatedString(lo))
            }
        } else {
            Err(LexError::UnterminatedString(lo))
        }
    }
}

} // verus!
