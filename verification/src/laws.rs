//! Properties of the shared lexical rules, proved once of [`lexed`] and
//! therefore holding of every scanning strategy in this crate.
//!
//! The equivalence of the strategies themselves needs no lemma of its own:
//! each strategy's `lex` carries the same postcondition, that its result is
//! exactly `lexed` of its input, so any two of them agree on every input.

use vstd::prelude::*;

use crate::grammar::RunClass;
use crate::grammar::digits_val;
use crate::grammar::is_digit;
use crate::grammar::is_letter;
use crate::grammar::is_op_char;
use crate::grammar::is_space;
use crate::grammar::lemma_run_end;
use crate::grammar::lemma_run_end_advances;
use crate::grammar::lemma_run_end_is;
use crate::grammar::lex_from;
use crate::grammar::lexed;
use crate::grammar::make_token;
use crate::grammar::op_item;
use crate::grammar::run_end;
use crate::token::ErrorModel;
use crate::token::ItemModel;
use crate::token::TokenModel;

verus! {

/// What a single produced token says about the source text it came from:
/// its span lies within the text; an identifier carries exactly the
/// maximal letter run it spans; an integer carries the value of the
/// maximal digit run it spans; a quoted string spans its inner text, with
/// the two delimiting quotes just outside the span; an operator spans its
/// one character.
pub open spec fn token_wf(s: Seq<char>, t: TokenModel) -> bool {
    &&& 0 <= t.offset
    &&& t.offset + t.length <= s.len()
    &&& match t.item {
        ItemModel::Ident(txt) => {
            &&& 1 <= t.length
            &&& txt == s.subrange(t.offset, t.offset + t.length)
            &&& forall|m: int| t.offset <= m < t.offset + t.length ==> is_letter(s[m])
            &&& t.offset + t.length < s.len() ==> !is_letter(s[t.offset + t.length])
        },
        ItemModel::Integer(v) => {
            &&& 1 <= t.length
            &&& forall|m: int| t.offset <= m < t.offset + t.length ==> is_digit(s[m])
            &&& t.offset + t.length < s.len() ==> !is_digit(s[t.offset + t.length])
            &&& v == digits_val(s.subrange(t.offset, t.offset + t.length))
            &&& v <= i32::MAX as int
        },
        ItemModel::Quote(txt) => {
            &&& 1 <= t.offset
            &&& s[t.offset - 1] == '"'
            &&& t.offset + t.length < s.len()
            &&& s[t.offset + t.length] == '"'
            &&& txt == s.subrange(t.offset, t.offset + t.length)
            &&& forall|m: int|
                t.offset <= m < t.offset + t.length ==> s[m] != '"' && s[m] != '\n'
        },
        _ => {
            &&& t.length == 1
            &&& is_op_char(s[t.offset])
            &&& t.item == op_item(s[t.offset])
        },
    }
}

/// Every token of the sequence is well formed over `s`.
pub open spec fn tokens_wf(s: Seq<char>, ts: Seq<TokenModel>) -> bool {
    forall|k: int| 0 <= k < ts.len() ==> token_wf(s, #[trigger] ts[k])
}

/// The first source position a token consumes.  For a quoted string this
/// is the opening quote, one position before the span.
pub open spec fn ext_start(t: TokenModel) -> int {
    if t.item is Quote {
        t.offset - 1
    } else {
        t.offset
    }
}

/// The first source position after everything a token consumes.  For a
/// quoted string this is just past the closing quote.
pub open spec fn ext_end(t: TokenModel) -> int {
    if t.item is Quote {
        t.offset + t.length + 1
    } else {
        t.offset + t.length
    }
}

/// The region `[lo, hi)` consists exactly of whitespace and of `//` line
/// comments (each of which runs up to a newline or to the end of the
/// whole text).
pub open spec fn skippable(s: Seq<char>, lo: int, hi: int) -> bool
    decreases hi - lo
    via skippable_dec
{
    if lo >= hi {
        lo == hi
    } else if is_space(s[lo]) {
        skippable(s, lo + 1, hi)
    } else if 0 <= lo && s[lo] == '/' && lo + 1 < s.len() && s[lo + 1] == '/' {
        let ce = run_end(s, lo + 2, RunClass::NotNewline);
        if ce <= hi {
            skippable(s, ce, hi)
        } else {
            false
        }
    } else {
        false
    }
}

#[via_fn]
proof fn skippable_dec(s: Seq<char>, lo: int, hi: int) {
    if lo < hi && !is_space(s[lo]) && 0 <= lo && s[lo] == '/' && lo + 1 < s.len() && s[lo + 1]
        == '/' {
        lemma_run_end(s, lo + 2, RunClass::NotNewline);
    }
}

/// A skippable region runs forward.
proof fn lemma_skippable_le(s: Seq<char>, lo: int, hi: int)
    requires
        skippable(s, lo, hi),
    ensures
        lo <= hi,
{
}

/// The token sequence `ts` accounts for the whole region from `i` to the
/// end of the text: the consumed region of each token (span plus quote
/// delimiters) follows the previous one, and every gap between them, and
/// after the last of them, is exactly whitespace and line comments.
pub open spec fn covers(s: Seq<char>, i: int, ts: Seq<TokenModel>) -> bool
    decreases ts.len(),
{
    if ts.len() == 0 {
        skippable(s, i, s.len() as int)
    } else {
        skippable(s, i, ext_start(ts[0])) && covers(s, ext_end(ts[0]), ts.drop_first())
    }
}

proof fn lemma_covers_prepend_space(s: Seq<char>, i: int, ts: Seq<TokenModel>)
    requires
        0 <= i < s.len(),
        is_space(s[i]),
        covers(s, i + 1, ts),
    ensures
        covers(s, i, ts),
{
    if ts.len() == 0 {
        lemma_skippable_le(s, i + 1, s.len() as int);
        assert(skippable(s, i, s.len() as int));
    } else {
        lemma_skippable_le(s, i + 1, ext_start(ts[0]));
        assert(skippable(s, i, ext_start(ts[0])));
    }
}

proof fn lemma_covers_prepend_comment(s: Seq<char>, i: int, ts: Seq<TokenModel>)
    requires
        0 <= i,
        i + 1 < s.len(),
        s[i] == '/',
        s[i + 1] == '/',
        covers(s, run_end(s, i + 2, RunClass::NotNewline), ts),
    ensures
        covers(s, i, ts),
{
    let ce = run_end(s, i + 2, RunClass::NotNewline);
    lemma_run_end(s, i + 2, RunClass::NotNewline);
    if ts.len() == 0 {
        lemma_skippable_le(s, ce, s.len() as int);
        assert(skippable(s, i, s.len() as int));
    } else {
        lemma_skippable_le(s, ce, ext_start(ts[0]));
        assert(skippable(s, i, ext_start(ts[0])));
    }
}

/// Prepending a well-formed token whose consumed region starts at `i` and
/// is followed by a sequence accounting for the rest.
proof fn lemma_cons_token(s: Seq<char>, i: int, t: TokenModel, ts2: Seq<TokenModel>)
    requires
        token_wf(s, t),
        ext_start(t) == i,
        tokens_wf(s, ts2),
        covers(s, ext_end(t), ts2),
    ensures
        tokens_wf(s, seq![t] + ts2),
        covers(s, i, seq![t] + ts2),
{
    let ts = seq![t] + ts2;
    assert forall|k: int| 0 <= k < ts.len() implies token_wf(s, #[trigger] ts[k]) by {
        if k == 0 {
            assert(ts[0] == t);
        } else {
            assert(ts[k] == ts2[k - 1]);
        }
    }
    assert(skippable(s, i, i));
    assert(ts[0] == t);
    assert(ts.drop_first() =~= ts2);
}

/// The induction behind the coverage law: from any position, a successful
/// scan produces only well-formed tokens, in order, accounting for the
/// whole remaining text.
pub proof fn lemma_lex_from_wf(s: Seq<char>, i: int)
    requires
        0 <= i <= s.len(),
    ensures
        match lex_from(s, i) {
            Ok(ts) => tokens_wf(s, ts) && covers(s, i, ts),
            Err(_) => true,
        },
    decreases s.len() - i,
{
    if s.len() <= i {
        assert(skippable(s, i, s.len() as int));
        assert(covers(s, i, Seq::<TokenModel>::empty()));
    } else {
        let c = s[i];
        if is_space(c) {
            lemma_lex_from_wf(s, i + 1);
            match lex_from(s, i + 1) {
                Ok(ts) => {
                    lemma_covers_prepend_space(s, i, ts);
                },
                Err(_) => {},
            }
        } else if c == '/' && i + 1 < s.len() && s[i + 1] == '/' {
            let ce = run_end(s, i + 2, RunClass::NotNewline);
            lemma_run_end(s, i + 2, RunClass::NotNewline);
            lemma_lex_from_wf(s, ce);
            match lex_from(s, ce) {
                Ok(ts) => {
                    lemma_covers_prepend_comment(s, i, ts);
                },
                Err(_) => {},
            }
        } else if is_op_char(c) {
            lemma_lex_from_wf(s, i + 1);
            match lex_from(s, i + 1) {
                Ok(ts2) => {
                    let t = make_token(op_item(c), i, 1);
                    lemma_cons_token(s, i, t, ts2);
                },
                Err(_) => {},
            }
        } else if is_letter(c) {
            let j = run_end(s, i, RunClass::Letter);
            lemma_run_end(s, i, RunClass::Letter);
            lemma_run_end_advances(s, i, RunClass::Letter);
            lemma_lex_from_wf(s, j);
            match lex_from(s, j) {
                Ok(ts2) => {
                    let t = make_token(ItemModel::Ident(s.subrange(i, j)), i, j - i);
                    lemma_cons_token(s, i, t, ts2);
                },
                Err(_) => {},
            }
        } else if is_digit(c) {
            let j = run_end(s, i, RunClass::Digit);
            lemma_run_end(s, i, RunClass::Digit);
            lemma_run_end_advances(s, i, RunClass::Digit);
            let v = digits_val(s.subrange(i, j));
            if v <= i32::MAX as int {
                lemma_lex_from_wf(s, j);
                match lex_from(s, j) {
                    Ok(ts2) => {
                        let t = make_token(ItemModel::Integer(v), i, j - i);
                        lemma_cons_token(s, i, t, ts2);
                    },
                    Err(_) => {},
                }
            }
        } else if c == '"' {
            let j = run_end(s, i + 1, RunClass::QuoteInner);
            lemma_run_end(s, i + 1, RunClass::QuoteInner);
            if j < s.len() && s[j] == '"' {
                lemma_lex_from_wf(s, j + 1);
                match lex_from(s, j + 1) {
                    Ok(ts2) => {
                        let t = make_token(ItemModel::Quote(s.subrange(i + 1, j)), i + 1, j - i - 1);
                        lemma_cons_token(s, i, t, ts2);
                    },
                    Err(_) => {},
                }
            }
        }
    }
}

/// Span coverage: on a successful scan every token is well formed — its
/// span lies within the source and carries exactly the text (or value) it
/// spans — the tokens' consumed regions appear in source order without
/// overlap, and the gaps between them hold exactly the whitespace and the
/// line comments of the input.
pub proof fn lemma_span_coverage(s: Seq<char>)
    ensures
        match lexed(s) {
            Ok(ts) => tokens_wf(s, ts) && covers(s, 0, ts),
            Err(_) => true,
        },
{
    lemma_lex_from_wf(s, 0);
}

/// Two adjacent tokens of the same greedy kind: the second starts exactly
/// where the first ends, and both are identifiers or both are integers.
pub open spec fn split_run(a: TokenModel, b: TokenModel) -> bool {
    &&& b.offset == a.offset + a.length
    &&& ((a.item is Ident && b.item is Ident) || (a.item is Integer && b.item is Integer))
}

/// Greedy maximality: a successful scan never splits an identifier or an
/// integer run into two adjacent tokens of the same kind.
pub proof fn lemma_greedy_maximality(s: Seq<char>)
    ensures
        match lexed(s) {
            Ok(ts) => forall|k: int|
                0 <= k && k + 1 < ts.len() ==> !split_run(#[trigger] ts[k], ts[k + 1]),
            Err(_) => true,
        },
{
    lemma_lex_from_wf(s, 0);
    match lexed(s) {
        Ok(ts) => {
            assert forall|k: int| 0 <= k && k + 1 < ts.len() implies !split_run(
                #[trigger] ts[k],
                ts[k + 1],
            ) by {
                assert(token_wf(s, ts[k]));
                assert(token_wf(s, ts[k + 1]));
                if split_run(ts[k], ts[k + 1]) {
                    let e = ts[k].offset + ts[k].length;
                    assert(e < s.len());
                    if ts[k].item is Ident {
                        assert(is_letter(s[e]));
                    } else {
                        assert(is_digit(s[e]));
                    }
                }
            }
        },
        Err(_) => {},
    }
}

/// Idempotence of comment stripping: a line comment starting at `i`,
/// followed immediately by its terminating newline and by a second
/// comment, produces zero tokens for that whole region — scanning from
/// the region's start is the same as scanning from the end of the second
/// comment, whatever stands around the region.
pub proof fn lemma_comment_stripping(s: Seq<char>, i: int)
    requires
        0 <= i,
        i + 1 < s.len(),
        s[i] == '/' && s[i + 1] == '/',
        ({
            let nl = run_end(s, i + 2, RunClass::NotNewline);
            nl + 2 < s.len() && s[nl + 1] == '/' && s[nl + 2] == '/'
        }),
    ensures
        lex_from(s, i) == lex_from(
            s,
            run_end(s, run_end(s, i + 2, RunClass::NotNewline) + 3, RunClass::NotNewline),
        ),
{
    let nl = run_end(s, i + 2, RunClass::NotNewline);
    lemma_run_end(s, i + 2, RunClass::NotNewline);
    assert(s[nl] == '\n');
    assert(lex_from(s, i) == lex_from(s, nl));
    assert(lex_from(s, nl) == lex_from(s, nl + 1));
    lemma_run_end(s, nl + 3, RunClass::NotNewline);
    assert(lex_from(s, nl + 1) == lex_from(s, run_end(s, nl + 3, RunClass::NotNewline)));
}

/// The whole-input instance of comment stripping: an input that is one
/// comment, a newline and a second comment that reaches the end of input
/// yields an empty token sequence.
pub proof fn lemma_comment_region_empty(s: Seq<char>, nl: int)
    requires
        2 <= nl,
        nl + 2 < s.len(),
        s[0] == '/' && s[1] == '/',
        forall|m: int| 2 <= m < nl ==> s[m] != '\n',
        s[nl] == '\n',
        s[nl + 1] == '/' && s[nl + 2] == '/',
        forall|m: int| nl + 3 <= m < s.len() ==> s[m] != '\n',
    ensures
        lexed(s) == Ok::<Seq<TokenModel>, ErrorModel>(Seq::empty()),
{
    lemma_run_end_is(s, 2, RunClass::NotNewline, nl);
    lemma_run_end_is(s, nl + 3, RunClass::NotNewline, s.len() as int);
    lemma_comment_stripping(s, 0);
    assert(lex_from(s, s.len() as int) == Ok::<Seq<TokenModel>, ErrorModel>(Seq::empty()));
}

} // verus!
