//! Tokens, lexical errors and lexing results of the Naso lexer.

pub mod token;
pub mod scan;

use vstd::prelude::*;
use crate::lexer::scan::{
    blank_char, byte_offset, is_blank, lemma_extents_blank, lemma_extents_fail, lemma_extents_match, lex_extents,
    matched_at, next_offset, scan_at, word_has_kind,
};
use crate::lexer::token::{is_trivia, trivia};
use crate::text::{chars_of, concat, decimal, u64_to_decimal};
pub use token::{Token, TokenKind, TokenSpan};

verus! {

/// A lexical error with the byte offset at which lexing failed.
#[derive(Debug, Clone, PartialEq, Eq)]
pub struct LexError {
    pub offset: usize,
    pub message: String,
}

impl LexError {
    /// The error's text, as its `Display` shows it.
    pub fn to_string(&self) -> (r: String)
        ensures
            r@ == "lex error at byte "@ + decimal(self.offset as nat) + ": "@ + self.message@,
    {
        let digits = u64_to_decimal(self.offset as u64);
        let a = concat("lex error at byte ", digits.as_str());
        let b = concat(a.as_str(), ": ");
        concat(b.as_str(), self.message.as_str())
    }
}

/// The result of lexing a source text: the tokens, newlines and comments
/// included, and the first lexical error, if any.
#[derive(Debug, Clone, PartialEq)]
pub struct LexResult {
    pub tokens: Vec<Token>,
    pub error: Option<LexError>,
}

/// The `{:?}` text of a character.
pub uninterp spec fn char_debug(c: char) -> Seq<char>;

/// Formats a character with `Debug`: the character between single quotes,
/// escaped where it is special. The text is named `char_debug` of the
/// character and nothing more is claimed of it.
#[verifier::external_body]
fn char_debug_string(c: char) -> (r: String)
    ensures
        r@ == char_debug(c),
{
    format!("{:?}", c)
}

/// `t` is the token for the extent `ext` of `cs`: its byte span at line 1,
/// column 1, and the kind of the rule that matched it, or `Error` where no
/// rule matched.
pub open spec fn token_for(cs: Seq<char>, ext: (int, int), t: Token) -> bool {
    &&& t.span == TokenSpan {
        start: byte_offset(cs, ext.0) as usize,
        end: byte_offset(cs, ext.1) as usize,
        line: 1,
        column: 1,
    }
    &&& if matched_at(cs, ext.0) {
        word_has_kind(cs.subrange(ext.0, ext.1), t.kind)
    } else {
        t.kind is Error
    }
}

/// `ts` are the tokens of `cs`, one for each extent, in order.
pub open spec fn lexes_to(cs: Seq<char>, ts: Seq<Token>) -> bool {
    let exts = lex_extents(cs, 0);
    &&& ts.len() == exts.len()
    &&& forall|k: int| 0 <= k < ts.len() ==> token_for(cs, exts[k], #[trigger] ts[k])
}

/// Lexing `cs` stops at a character no rule matches.
pub open spec fn lex_fails(cs: Seq<char>) -> bool {
    let exts = lex_extents(cs, 0);
    exts.len() > 0 && !matched_at(cs, exts.last().0)
}

/// The kinds of the tokens other than newlines and comments, in order.
pub open spec fn grammar_kinds(ts: Seq<Token>) -> Seq<TokenKind>
    decreases ts.len(),
{
    if ts.len() == 0 {
        Seq::empty()
    } else if trivia(ts.last().kind) {
        grammar_kinds(ts.drop_last())
    } else {
        grammar_kinds(ts.drop_last()).push(ts.last().kind)
    }
}

/// The lexer of Naso source text.
pub struct Lexer;

impl Lexer {
    /// The tokens of `source`, newlines and comments included; lexing ends
    /// with an `Error` token at the first character no rule matches.
    pub fn lex(source: &str) -> (r: Vec<Token>)
        requires
            vstd::utf8::encode_utf8(source@).len() <= usize::MAX,
        ensures
            lexes_to(source@, r@),
    {
        Self::lex_with_error(source).tokens
    }

    /// The tokens of `source` and the first lexical error: where lexing
    /// stops at a character no rule matches, the error gives that
    /// character's byte offset and the message `unexpected character` with
    /// the character's `Debug` text.
    pub fn lex_with_error(source: &str) -> (r: LexResult)
        requires
            vstd::utf8::encode_utf8(source@).len() <= usize::MAX,
        ensures
            lexes_to(source@, r.tokens@),
            r.error is Some <==> lex_fails(source@),
            r.error matches Some(e) ==> {
                let at = lex_extents(source@, 0).last().0;
                &&& e.offset == byte_offset(source@, at)
                &&& e.message@ == "unexpected character "@ + char_debug(source@[at])
            },
    {
        let cs = chars_of(source);
        let n = cs.len();
        let mut tokens: Vec<Token> = Vec::new();
        let mut i: usize = 0;
        let mut byte: usize = 0;
        let ghost mut done: Seq<(int, int)> = Seq::empty();
        assert(cs@.subrange(0, 0) =~= Seq::<char>::empty());
        while i < n
            invariant
                cs@ == source@,
                n == cs@.len(),
                i <= n,
                vstd::utf8::encode_utf8(cs@).len() <= usize::MAX,
                byte == byte_offset(cs@, i as int),
                lex_extents(cs@, 0) == done + lex_extents(cs@, i as int),
                tokens@.len() == done.len(),
                forall|k: int| 0 <= k < done.len() ==> token_for(cs@, done[k], #[trigger] tokens@[k]),
                forall|k: int| 0 <= k < done.len() ==> matched_at(cs@, #[trigger] done[k].0),
            decreases n - i,
        {
            let c = cs[i];
            if blank_char(c) {
                proof {
                    lemma_extents_blank(cs@, i as int);
                }
                byte = next_offset(&cs, i, byte);
                i = i + 1;
            } else {
                match scan_at(&cs, i) {
                    Some((l, kind)) => {
                        proof {
                            lemma_extents_match(cs@, i as int, l as int);
                            assert(done + lex_extents(cs@, i as int) =~= done.push((i as int, i + l)) + lex_extents(
                                cs@,
                                i + l,
                            ));
                        }
                        let start = byte;
                        let mut k: usize = i;
                        while k < i + l
                            invariant
                                n == cs@.len(),
                                i <= k <= i + l <= n,
                                vstd::utf8::encode_utf8(cs@).len() <= usize::MAX,
                                byte == byte_offset(cs@, k as int),
                            decreases i + l - k,
                        {
                            byte = next_offset(&cs, k, byte);
                            k = k + 1;
                        }
                        let ghost ext = (i as int, i + l);
                        tokens.push(Token { kind, span: TokenSpan::new(start, byte) });
                        proof {
                            done = done.push(ext);
                            assert(token_for(cs@, ext, tokens@[tokens@.len() - 1]));
                        }
                        i = i + l;
                    },
                    None => {
                        proof {
                            lemma_extents_fail(cs@, i as int);
                        }
                        let start = byte;
                        let end = next_offset(&cs, i, byte);
                        let shown = char_debug_string(c);
                        let message = concat("unexpected character ", shown.as_str());
                        tokens.push(Token { kind: TokenKind::Error, span: TokenSpan::new(start, end) });
                        let ghost ext = (i as int, i + 1);
                        proof {
                            assert(lex_extents(cs@, 0) =~= done.push(ext));
                            assert(token_for(cs@, ext, tokens@[tokens@.len() - 1]));
                            assert forall|k: int| 0 <= k < done.push(ext).len() implies token_for(
                                cs@,
                                done.push(ext)[k],
                                #[trigger] tokens@[k],
                            ) by {
                                if k < done.len() {
                                    assert(done.push(ext)[k] == done[k]);
                                }
                            }
                        }
                        return LexResult { tokens, error: Some(LexError { offset: start, message }) };
                    },
                }
            }
        }
        proof {
            assert(lex_extents(cs@, n as int) =~= Seq::<(int, int)>::empty());
            assert(lex_extents(cs@, 0) =~= done);
        }
        LexResult { tokens, error: None }
    }

    /// The kinds of the tokens of `source` other than newlines and comments.
    pub fn tokenize(source: &str) -> (r: Vec<TokenKind>)
        requires
            vstd::utf8::encode_utf8(source@).len() <= usize::MAX,
        ensures
            exists|ts: Seq<Token>| lexes_to(source@, ts) && r@ == grammar_kinds(ts),
    {
        let tokens = Self::lex(source);
        let mut kinds: Vec<TokenKind> = Vec::new();
        let mut k: usize = 0;
        while k < tokens.len()
            invariant
                k <= tokens@.len(),
                kinds@ == grammar_kinds(tokens@.subrange(0, k as int)),
            decreases tokens@.len() - k,
        {
            proof {
                assert(tokens@.subrange(0, k + 1).drop_last() =~= tokens@.subrange(0, k as int));
            }
            if !is_trivia(&tokens[k].kind) {
                kinds.push(tokens[k].kind.clone());
            }
            k = k + 1;
        }
        assert(tokens@.subrange(0, tokens@.len() as int) =~= tokens@);
        kinds
    }
}

} // verus!
