//! The single-pattern scanning strategy: one combined pattern whose
//! alternatives cover, in priority order, whitespace, line comments, every
//! operator, integers, identifiers and quoted strings.  At each cursor
//! position the pattern engine is asked once; the alternative that matched
//! decides what to emit, and the match length decides the cursor advance.
//! The engine is the `regex` crate, reached through the one trusted
//! wrapper at the bottom of this module; everything around it is verified
//! against [`crate::grammar::lexed`].

use regex::Regex;
use vstd::prelude::*;
use vstd::string::StrSliceExecFns;
use vstd::string::StringExecFns;

use crate::grammar::RunClass;
use crate::grammar::chars_of;
use crate::grammar::is_digit;
use crate::grammar::is_letter;
use crate::grammar::is_op_char;
use crate::grammar::is_space;
use crate::grammar::lemma_lex_from_spaces;
use crate::grammar::lemma_prefixed_empty;
use crate::grammar::lemma_prefixed_nil;
use crate::grammar::lemma_prefixed_token;
use crate::grammar::lemma_run_end;
use crate::grammar::lemma_views_of_push;
use crate::grammar::lex_from;
use crate::grammar::lexed;
use crate::grammar::op_item;
use crate::grammar::parse_digits;
use crate::grammar::prefixed;
use crate::grammar::run_end;
use crate::grammar::views_of;
use crate::token::ErrorModel;
use crate::token::Item;
use crate::token::ItemModel;
use crate::token::LexError;
use crate::token::Span;
use crate::token::Token;
use crate::token::TokenModel;

verus! {

/// The token kind named by a rule name, as the combined pattern's capture
/// groups name them; `None` for any other string.
pub open spec fn name_item(n: Seq<char>) -> Option<ItemModel> {
    if n == "Plus"@ {
        Some(ItemModel::Plus)
    } else if n == "Minus"@ {
        Some(ItemModel::Minus)
    } else if n == "Multiply"@ {
        Some(ItemModel::Multiply)
    } else if n == "Divide"@ {
        Some(ItemModel::Divide)
    } else if n == "Equal"@ {
        Some(ItemModel::Equal)
    } else if n == "LParen"@ {
        Some(ItemModel::LParen)
    } else if n == "RParen"@ {
        Some(ItemModel::RParen)
    } else {
        None
    }
}

/// Look an operator token kind up by its rule name.
pub fn item_from_name(s: &str) -> (r: Result<Item, ()>)
    ensures
        match r {
            Ok(item) => name_item(s@) == Some(item@),
            Err(_) => name_item(s@) is None,
        },
{
    let owned = s.to_owned();
    if owned == String::from_str("Plus") {
        Ok(Item::Plus)
    } else if owned == String::from_str("Minus") {
        Ok(Item::Minus)
    } else if owned == String::from_str("Multiply") {
        Ok(Item::Multiply)
    } else if owned == String::from_str("Divide") {
        Ok(Item::Divide)
    } else if owned == String::from_str("Equal") {
        Ok(Item::Equal)
    } else if owned == String::from_str("LParen") {
        Ok(Item::LParen)
    } else if owned == String::from_str("RParen") {
        Ok(Item::RParen)
    } else {
        Err(())
    }
}

impl core::str::FromStr for Item {
    type Err = ();

    fn from_str(s: &str) -> Result<Item, ()> {
        item_from_name(s)
    }
}

/// The capture-group number of the alternative that recognizes the
/// operator `c` in the combined pattern; meaningless for non-operators.
pub open spec fn op_group(c: char) -> int {
    if c == '+' {
        3
    } else if c == '-' {
        4
    } else if c == '*' {
        5
    } else if c == '/' {
        6
    } else if c == '=' {
        7
    } else if c == '(' {
        8
    } else {
        9
    }
}

/// What the combined pattern matches at position `i` of `s`: the number
/// of the alternative (capture group) that matches there, and the match
/// length in characters.  The groups, in alternation order: 1 whitespace,
/// 2 line comment, 3–9 the operators `+ - * / = ( )`, 10 integer,
/// 11 identifier, 12 quoted string.  Alternation prefers the earliest
/// group, which is what gives a `//` comment priority over `Divide`.
pub open spec fn combined_match(s: Seq<char>, i: int) -> Option<(int, int)> {
    if !(0 <= i < s.len()) {
        None
    } else {
        let c = s[i];
        if is_space(c) {
            Some((1, run_end(s, i, RunClass::Space) - i))
        } else if c == '/' && i + 1 < s.len() && s[i + 1] == '/' {
            Some((2, run_end(s, i + 2, RunClass::NotNewline) - i))
        } else if is_op_char(c) {
            Some((op_group(c), 1))
        } else if is_digit(c) {
            Some((10, run_end(s, i, RunClass::Digit) - i))
        } else if is_letter(c) {
            Some((11, run_end(s, i, RunClass::Letter) - i))
        } else if c == '"' {
            let j = run_end(s, i + 1, RunClass::QuoteInner);
            if j < s.len() && s[j] == '"' {
                Some((12, j + 1 - i))
            } else {
                None
            }
        } else {
            None
        }
    }
}

/// The model of an optional (group, length) pair.
pub open spec fn pair_model(r: Option<(usize, usize)>) -> Option<(int, int)> {
    match r {
        Some((g, n)) => Some((g as int, n as int)),
        None => None,
    }
}

/// A combined-pattern scanner over one source buffer.
pub struct Lexer<'a> {
    src: &'a str,
    src_vec: Vec<char>,
    src_len: usize,
}

impl<'a> View for Lexer<'a> {
    type V = Seq<char>;

    closed spec fn view(&self) -> Seq<char> {
        self.src@
    }
}

impl<'a> Lexer<'a> {
    /// The scanner's character buffer and cached length agree with the
    /// source text it was built from.
    pub closed spec fn wf(&self) -> bool {
        self.src_vec@ == self.src@ && self.src_len == self.src@.len()
    }

    /// Build a scanner over `src`.
    pub fn new(src: &'a str) -> (r: Lexer<'a>)
        ensures
            r.wf(),
            r@ == src@,
    {
        let src_vec = chars_of(src);
        let src_len = src_vec.len();
        Lexer { src, src_vec, src_len }
    }

    /// Scan the whole source, returning its tokens in source order, or the
    /// first fatal lexical error.
    pub fn lex(&self) -> (r: Result<Vec<Token>, LexError>)
        requires
            self.wf(),
        ensures
            match r {
                Ok(toks) => lexed(self@) == Ok::<Seq<TokenModel>, ErrorModel>(views_of(toks@)),
                Err(e) => lexed(self@) == Err::<Seq<TokenModel>, ErrorModel>(e@),
            },
    {
        let mut tokens: Vec<Token> = Vec::new();
        let mut pointer: usize = 0;
        proof {
            lemma_prefixed_empty(lex_from(self@, 0));
            assert(views_of(tokens@) =~= Seq::<TokenModel>::empty());
        }
        while pointer < self.src_len
            invariant
                self.wf(),
                pointer <= self.src_len,
                lexed(self@) == prefixed(views_of(tokens@), lex_from(self@, pointer as int)),
            decreases self.src_len - pointer,
        {
            let ghost s = self@;
            let ghost p = pointer as int;
            match re_combined(&self.src_vec, pointer) {
                Some((g, n)) => {
                    if g <= 2 {
                        // Whitespace or a line comment: no token, advance.
                        proof {
                            if g == 1 {
                                lemma_run_end(s, p, RunClass::Space);
                                lemma_lex_from_spaces(s, p);
                            } else {
                                lemma_run_end(s, p + 2, RunClass::NotNewline);
                            }
                        }
                        pointer += n;
                    } else if g == 10 {
                        proof {
                            lemma_run_end(s, p, RunClass::Digit);
                        }
                        let value = match parse_digits(&self.src_vec, pointer, pointer + n) {
                            Ok(v) => v,
                            Err(e) => {
                                return Err(e);
                            },
                        };
                        let token = Token(Item::Integer(value), Span(pointer, n));
                        proof {
                            lemma_views_of_push(tokens@, token);
                            lemma_prefixed_token(views_of(tokens@), token@, lex_from(s, p + n));
                        }
                        tokens.push(token);
                        pointer += n;
                    } else if g == 11 {
                        proof {
                            lemma_run_end(s, p, RunClass::Letter);
                        }
                        let text = self.src.substring_char(pointer, pointer + n).to_owned();
                        let token = Token(Item::Ident(text), Span(pointer, n));
                        proof {
                            lemma_views_of_push(tokens@, token);
                            lemma_prefixed_token(views_of(tokens@), token@, lex_from(s, p + n));
                        }
                        tokens.push(token);
                        pointer += n;
                    } else if g == 12 {
                        proof {
                            lemma_run_end(s, p + 1, RunClass::QuoteInner);
                        }
                        let text = self.src.substring_char(pointer + 1, pointer + n - 1)
                            .to_owned();
                        let token = Token(Item::Quote(text), Span(pointer + 1, n - 2));
                        proof {
                            lemma_views_of_push(tokens@, token);
                            lemma_prefixed_token(views_of(tokens@), token@, lex_from(s, p + n));
                        }
                        tokens.push(token);
                        pointer += n;
                    } else {
                        // Groups 3 through 9: a single-character operator.
                        let item = if g == 3 {
                            Item::Plus
                        } else if g == 4 {
                            Item::Minus
                        } else if g == 5 {
                            Item::Multiply
                        } else if g == 6 {
                            Item::Divide
                        } else if g == 7 {
                            Item::Equal
                        } else if g == 8 {
                            Item::LParen
                        } else {
                            Item::RParen
                        };
                        assert(item@ == op_item(s[p]));
                        let token = Token(item, Span(pointer, 1));
                        proof {
                            lemma_views_of_push(tokens@, token);
                            lemma_prefixed_token(views_of(tokens@), token@, lex_from(s, p + 1));
                        }
                        tokens.push(token);
                        pointer += n;
                    }
                },
                None => {
                    let c = self.src_vec[pointer];
                    if c == '"' {
                        proof {
                            lemma_run_end(s, p + 1, RunClass::QuoteInner);
                        }
                        return Err(LexError::UnterminatedString(pointer));
                    } else {
                        return Err(LexError::UnknownToken(c, pointer));
                    }
                },
            }
        }
        proof {
            lemma_prefixed_nil(views_of(tokens@));
        }
        Ok(tokens)
    }
}

/// Relies on `regex::Regex::captures` with the anchored combined pattern
/// `^(?:(?P<Ws>[ \t\r\n]+)|(?P<Comment>//[^\n]*)|(?P<Plus>\+)|(?P<Minus>-)|(?P<Multiply>\*)|(?P<Divide>/)|(?P<Equal>=)|(?P<LParen>\()|(?P<RParen>\))|(?P<Integer>[0-9]+)|(?P<Ident>[A-Za-z]+)|(?P<Quote>"[^"\n]*"))`
/// and on alternation preferring the earliest branch: at the start of the
/// remaining input, exactly one capture group (numbered 1 through 12 in
/// alternation order) participates in a match, and that group's number is
/// returned with the match length in characters.
#[verifier::external_body]
fn re_combined(chars: &Vec<char>, start: usize) -> (r: Option<(usize, usize)>)
    requires
        start <= chars@.len(),
    ensures
        pair_model(r) == combined_match(chars@, start as int),
{
    let buf: String = chars[start..].iter().collect();
    let re = Regex::new(
        "^(?:(?P<Ws>[ \t\r\n]+)|(?P<Comment>//[^\n]*)|(?P<Plus>\\+)|(?P<Minus>-)|(?P<Multiply>\\*)|(?P<Divide>/)|(?P<Equal>=)|(?P<LParen>\\()|(?P<RParen>\\))|(?P<Integer>[0-9]+)|(?P<Ident>[A-Za-z]+)|(?P<Quote>\"[^\"\n]*\"))",
    ).unwrap();
    let caps = re.captures(&buf)?;
    let mut g: usize = 1;
    while g < caps.len() {
        if let Some(m) = caps.get(g) {
            return Some((g, m.as_str().chars().count()));
        }
        g += 1;
    }
    None
}

} // verus!
