//! Tokens of the shading-language subset.
//!
//! The lexer splits shader source bytes into identifiers, unsigned decimal
//! integers and single-byte symbols, dropping whitespace, `//` and
//! `/* ... */` comments, and preprocessor lines (`# ...`).  A byte that is
//! neither printable ASCII nor blank, or an unterminated block comment, is
//! rejected outright rather than guessed at.
//!
//! The whole tokenization is specified byte for byte: [`spec_lex`] is the
//! mathematical lexer, and [`lex`] returns exactly its value.

use vstd::prelude::*;

use crate::error::ParseError;
use crate::text::is_digit;
use crate::text::is_ident_continue;
use crate::text::is_ident_start;
use crate::text::is_space;
use crate::text::spec_is_digit;
use crate::text::spec_is_ident_continue;
use crate::text::spec_is_ident_start;
use crate::text::spec_is_space;

verus! {

/// One token of shader source.
#[derive(Debug, Clone, PartialEq, Eq)]
pub enum Token {
    /// A name: letters, digits and underscores, starting with a non-digit.
    Ident(Vec<u8>),
    /// An unsigned decimal integer.  `overflow` marks a literal beyond
    /// 32 bits; using such a value where one is needed is an error, but a
    /// skipped region may hold it freely.
    Int { value: u32, overflow: bool },
    /// Any other printable byte: punctuation and operators.
    Sym(u8),
}

/// The mathematical value of a token: the same shape with the identifier
/// bytes as a sequence.
pub enum SpecTok {
    Ident(Seq<u8>),
    Int { value: u32, overflow: bool },
    Sym(u8),
}

pub open spec fn spec_token_view(t: Token) -> SpecTok {
    match t {
        Token::Ident(name) => SpecTok::Ident(name@),
        Token::Int { value, overflow } => SpecTok::Int { value, overflow },
        Token::Sym(b) => SpecTok::Sym(b),
    }
}

pub open spec fn spec_tokens_view(tokens: Seq<Token>) -> Seq<SpecTok> {
    tokens.map(|i: int, t: Token| spec_token_view(t))
}

/// The first position at or after `i` holding a newline, or the end.
pub open spec fn spec_line_end(source: Seq<u8>, i: int) -> int
    decreases source.len() - i,
{
    if i < 0 || i >= source.len() {
        source.len() as int
    } else if source[i] == 10 {
        i
    } else {
        spec_line_end(source, i + 1)
    }
}

proof fn lemma_line_end_bounds(source: Seq<u8>, i: int)
    requires
        0 <= i <= source.len(),
    ensures
        i <= spec_line_end(source, i) <= source.len(),
    decreases source.len() - i,
{
    if i < source.len() && source[i] != 10 {
        lemma_line_end_bounds(source, i + 1);
    }
}

/// The position just past the first `*/` at or after `i`, or `None` when
/// the comment never closes.
pub open spec fn spec_block_comment_end(source: Seq<u8>, i: int) -> Option<int>
    decreases source.len() - i,
{
    if i < 0 || i + 1 >= source.len() {
        None
    } else if source[i] == 42 && source[i + 1] == 47 {
        Some(i + 2)
    } else {
        spec_block_comment_end(source, i + 1)
    }
}

proof fn lemma_block_comment_end_bounds(source: Seq<u8>, i: int)
    requires
        0 <= i,
    ensures
        spec_block_comment_end(source, i) matches Some(end) ==> i + 2 <= end <= source.len(),
    decreases source.len() - i,
{
    if i + 1 < source.len() && !(source[i] == 42 && source[i + 1] == 47) {
        lemma_block_comment_end_bounds(source, i + 1);
    }
}

/// The first position at or after `i` that cannot continue an identifier.
pub open spec fn spec_ident_end(source: Seq<u8>, i: int) -> int
    decreases source.len() - i,
{
    if i < 0 || i >= source.len() {
        i
    } else if !spec_is_ident_continue(source[i]) {
        i
    } else {
        spec_ident_end(source, i + 1)
    }
}

proof fn lemma_ident_end_bounds(source: Seq<u8>, i: int)
    requires
        0 <= i <= source.len(),
    ensures
        i <= spec_ident_end(source, i) <= source.len(),
    decreases source.len() - i,
{
    if i < source.len() && spec_is_ident_continue(source[i]) {
        lemma_ident_end_bounds(source, i + 1);
    }
}

/// The first position at or after `i` that is not a decimal digit.
pub open spec fn spec_int_end(source: Seq<u8>, i: int) -> int
    decreases source.len() - i,
{
    if i < 0 || i >= source.len() {
        i
    } else if !spec_is_digit(source[i]) {
        i
    } else {
        spec_int_end(source, i + 1)
    }
}

proof fn lemma_int_end_bounds(source: Seq<u8>, i: int)
    requires
        0 <= i <= source.len(),
    ensures
        i <= spec_int_end(source, i) <= source.len(),
    decreases source.len() - i,
{
    if i < source.len() && spec_is_digit(source[i]) {
        lemma_int_end_bounds(source, i + 1);
    }
}

/// One step of decimal accumulation: append digit `d` unless the value
/// already overflowed or would.
pub open spec fn spec_int_step(acc: (u32, bool), d: u32) -> (u32, bool) {
    if acc.1 {
        acc
    } else if acc.0 <= (u32::MAX - d) / 10 {
        ((acc.0 * 10 + d) as u32, false)
    } else {
        (acc.0, true)
    }
}

/// Accumulate the digits of `source[a..b]` onto `init`, left to right.
pub open spec fn spec_int_fold(source: Seq<u8>, a: int, b: int, init: (u32, bool)) -> (u32, bool)
    decreases b - a,
{
    if b <= a {
        init
    } else {
        spec_int_step(spec_int_fold(source, a, b - 1, init), (source[b - 1] - 48) as u32)
    }
}

/// The tokens of `source` from position `i` on, or `None` when a byte is
/// unprintable or a block comment never closes.  The bound checks around
/// each recursive call always hold (the scan positions only move forward,
/// within the source); they stand written so the recursion visibly
/// terminates.
pub open spec fn spec_lex_from(source: Seq<u8>, i: int) -> Option<Seq<SpecTok>>
    decreases source.len() - i,
{
    if i < 0 || i >= source.len() {
        Some(Seq::empty())
    } else {
        let b = source[i];
        if spec_is_space(b) {
            spec_lex_from(source, i + 1)
        } else if b == 35 {
            let next = spec_line_end(source, i + 1);
            if i < next <= source.len() {
                spec_lex_from(source, next)
            } else {
                None
            }
        } else if b == 47 && i + 1 < source.len() && source[i + 1] == 47 {
            let next = spec_line_end(source, i + 2);
            if i < next <= source.len() {
                spec_lex_from(source, next)
            } else {
                None
            }
        } else if b == 47 && i + 1 < source.len() && source[i + 1] == 42 {
            match spec_block_comment_end(source, i + 2) {
                None => None,
                Some(next) => if i < next <= source.len() {
                    spec_lex_from(source, next)
                } else {
                    None
                },
            }
        } else if spec_is_ident_start(b) {
            let end = spec_ident_end(source, i + 1);
            if i < end <= source.len() {
                match spec_lex_from(source, end) {
                    None => None,
                    Some(rest) => Some(seq![SpecTok::Ident(source.subrange(i, end))] + rest),
                }
            } else {
                None
            }
        } else if spec_is_digit(b) {
            let end = spec_int_end(source, i + 1);
            if i < end <= source.len() {
                let acc = spec_int_fold(source, i + 1, end, (((b - 48) as u32, false)));
                match spec_lex_from(source, end) {
                    None => None,
                    Some(rest) => Some(
                        seq![SpecTok::Int { value: acc.0, overflow: acc.1 }] + rest,
                    ),
                }
            } else {
                None
            }
        } else if 33 <= b <= 126 {
            match spec_lex_from(source, i + 1) {
                None => None,
                Some(rest) => Some(seq![SpecTok::Sym(b)] + rest),
            }
        } else {
            None
        }
    }
}

/// The tokens of the whole source.
pub open spec fn spec_lex(source: Seq<u8>) -> Option<Seq<SpecTok>> {
    spec_lex_from(source, 0)
}

fn scan_line_end(source: &[u8], start: usize) -> (end: usize)
    requires
        start <= source@.len(),
    ensures
        end == spec_line_end(source@, start as int),
        start <= end <= source@.len(),
{
    let n = source.len();
    let mut i = start;
    while i < n && source[i] != 10
        invariant
            start <= i <= n,
            n == source@.len(),
            spec_line_end(source@, start as int) == spec_line_end(source@, i as int),
        decreases n - i,
    {
        i += 1;
    }
    i
}

fn scan_block_comment_end(source: &[u8], start: usize) -> (r: Option<usize>)
    requires
        start <= source@.len(),
    ensures
        match r {
            Some(end) => spec_block_comment_end(source@, start as int) == Some(end as int)
                && start < end <= source@.len(),
            None => spec_block_comment_end(source@, start as int) is None,
        },
{
    let n = source.len();
    let mut i = start;
    while n - i > 1
        invariant
            start <= i <= n,
            n == source@.len(),
            spec_block_comment_end(source@, start as int) == spec_block_comment_end(
                source@,
                i as int,
            ),
        decreases n - i,
    {
        if source[i] == 42 && source[i + 1] == 47 {
            return Some(i + 2);
        }
        i += 1;
    }
    None
}

fn scan_ident(source: &[u8], start: usize) -> (r: (Vec<u8>, usize))
    requires
        start < source@.len(),
        spec_is_ident_start(source@[start as int]),
    ensures
        r.1 == spec_ident_end(source@, start + 1),
        start < r.1 <= source@.len(),
        r.0@ == source@.subrange(start as int, r.1 as int),
{
    let n = source.len();
    let mut name: Vec<u8> = Vec::new();
    name.push(source[start]);
    let mut i = start + 1;
    while i < n && is_ident_continue(source[i])
        invariant
            start < i <= n,
            n == source@.len(),
            spec_ident_end(source@, start + 1) == spec_ident_end(source@, i as int),
            name@ =~= source@.subrange(start as int, i as int),
        decreases n - i,
    {
        name.push(source[i]);
        proof {
            assert(name@ =~= source@.subrange(start as int, i + 1));
        }
        i += 1;
    }
    proof {
        assert(name@ == source@.subrange(start as int, i as int));
    }
    (name, i)
}

fn scan_int(source: &[u8], start: usize) -> (r: (u32, bool, usize))
    requires
        start < source@.len(),
        spec_is_digit(source@[start as int]),
    ensures
        r.2 == spec_int_end(source@, start + 1),
        start < r.2 <= source@.len(),
        (r.0, r.1) == spec_int_fold(
            source@,
            start + 1,
            r.2 as int,
            (((source@[start as int] - 48) as u32, false)),
        ),
{
    let n = source.len();
    let mut value: u32 = (source[start] - 48) as u32;
    let mut overflow = false;
    let mut i = start + 1;
    while i < n && is_digit(source[i])
        invariant
            start < i <= n,
            n == source@.len(),
            spec_int_end(source@, start + 1) == spec_int_end(source@, i as int),
            (value, overflow) == spec_int_fold(
                source@,
                start + 1,
                i as int,
                (((source@[start as int] - 48) as u32, false)),
            ),
        decreases n - i,
    {
        let d = (source[i] - 48) as u32;
        if !overflow {
            if value <= (u32::MAX - d) / 10 {
                value = value * 10 + d;
            } else {
                overflow = true;
            }
        }
        i += 1;
    }
    (value, overflow, i)
}

/// Split shader source into tokens: exactly the value of [`spec_lex`].
/// Comments, whitespace and preprocessor lines vanish; an unprintable
/// byte or an unterminated block comment is an error.
pub fn lex(source: &[u8]) -> (r: Result<Vec<Token>, ParseError>)
    ensures
        match r {
            Ok(tokens) => spec_lex(source@) == Some(spec_tokens_view(tokens@)),
            Err(e) => spec_lex(source@) is None && (e matches ParseError::UnterminatedComment
                || e matches ParseError::UnexpectedByte { .. }),
        },
{
    let mut tokens: Vec<Token> = Vec::new();
    let n = source.len();
    let mut i: usize = 0;
    proof {
        assert(spec_tokens_view(tokens@) =~= Seq::<SpecTok>::empty());
        match spec_lex_from(source@, 0) {
            Some(rest) => {
                assert(spec_tokens_view(tokens@) + rest =~= rest);
            },
            None => {},
        }
    }
    while i < n
        invariant
            n == source@.len(),
            i <= n,
            match spec_lex_from(source@, i as int) {
                Some(rest) => spec_lex_from(source@, 0) == Some(spec_tokens_view(tokens@) + rest),
                None => spec_lex_from(source@, 0) is None,
            },
        decreases n - i,
    {
        let ghost tokens_before = tokens@;
        let b = source[i];
        if is_space(b) {
            i += 1;
        } else if b == 35 {
            // '#': a preprocessor line, skipped to its newline.
            proof {
                lemma_line_end_bounds(source@, i + 1);
            }
            i = scan_line_end(source, i + 1);
        } else if b == 47 && i + 1 < n && source[i + 1] == 47 {
            // "//": a line comment.
            proof {
                lemma_line_end_bounds(source@, i + 2);
            }
            i = scan_line_end(source, i + 2);
        } else if b == 47 && i + 1 < n && source[i + 1] == 42 {
            // "/*": a block comment; must close.
            proof {
                lemma_block_comment_end_bounds(source@, i + 2);
            }
            match scan_block_comment_end(source, i + 2) {
                Some(next) => {
                    i = next;
                },
                None => {
                    return Err(ParseError::UnterminatedComment);
                },
            }
        } else if is_ident_start(b) {
            proof {
                lemma_ident_end_bounds(source@, i + 1);
            }
            let (name, next) = scan_ident(source, i);
            let token = Token::Ident(name);
            proof {
                lemma_token_extends(
                    source@,
                    i as int,
                    next as int,
                    tokens_before,
                    token,
                    SpecTok::Ident(source@.subrange(i as int, next as int)),
                );
            }
            tokens.push(token);
            i = next;
        } else if is_digit(b) {
            proof {
                lemma_int_end_bounds(source@, i + 1);
            }
            let (value, overflow, next) = scan_int(source, i);
            let token = Token::Int { value, overflow };
            proof {
                lemma_token_extends(
                    source@,
                    i as int,
                    next as int,
                    tokens_before,
                    token,
                    SpecTok::Int { value, overflow },
                );
            }
            tokens.push(token);
            i = next;
        } else if b >= 33 && b <= 126 {
            let token = Token::Sym(b);
            proof {
                lemma_token_extends(
                    source@,
                    i as int,
                    i + 1,
                    tokens_before,
                    token,
                    SpecTok::Sym(b),
                );
            }
            tokens.push(token);
            i += 1;
        } else {
            return Err(ParseError::UnexpectedByte { position: i });
        }
    }
    proof {
        assert(spec_lex_from(source@, i as int) == Some(Seq::<SpecTok>::empty()));
        match spec_lex_from(source@, i as int) {
            Some(rest) => {
                assert(spec_tokens_view(tokens@) + rest =~= spec_tokens_view(tokens@));
            },
            None => {},
        }
    }
    Ok(tokens)
}

/// Pushing the token the spec produces at position `i` keeps the
/// composition invariant: the views so far plus the spec's remainder
/// still make up the whole tokenization.
proof fn lemma_token_extends(
    source: Seq<u8>,
    i: int,
    next: int,
    tokens_before: Seq<Token>,
    token: Token,
    spec_token: SpecTok,
)
    requires
        spec_token_view(token) == spec_token,
        spec_lex_from(source, i) == match spec_lex_from(source, next) {
            None => None::<Seq<SpecTok>>,
            Some(rest) => Some(seq![spec_token] + rest),
        },
        match spec_lex_from(source, i) {
            Some(rest) => spec_lex_from(source, 0) == Some(
                spec_tokens_view(tokens_before) + rest,
            ),
            None => spec_lex_from(source, 0) is None,
        },
    ensures
        match spec_lex_from(source, next) {
            Some(rest) => spec_lex_from(source, 0) == Some(
                spec_tokens_view(tokens_before.push(token)) + rest,
            ),
            None => spec_lex_from(source, 0) is None,
        },
{
    match spec_lex_from(source, next) {
        Some(rest) => {
            assert(spec_tokens_view(tokens_before.push(token)) =~= spec_tokens_view(
                tokens_before,
            ).push(spec_token));
            assert(spec_tokens_view(tokens_before) + (seq![spec_token] + rest)
                =~= spec_tokens_view(tokens_before.push(token)) + rest);
        },
        None => {},
    }
}

} // verus!
