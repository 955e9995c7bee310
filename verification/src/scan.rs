//! The mathematical description of the token grammar.
//!
//! Everything here is specification-level: given the input as a
//! `Seq<char>` and a cursor position, these functions say where
//! whitespace and comments end, where an identifier or numeric run ends,
//! which token the next stretch of input denotes, and what the whole
//! token sequence of the input is.  The executable [`crate::lexer`] is
//! proved to return exactly what [`lex_from`] describes.

use crate::token::TokenModel;
use vstd::prelude::*;

verus! {

/// Whitespace: the blank characters the lexer skips between tokens.
pub open spec fn is_space(c: char) -> bool {
    c == ' ' || c == '\t' || c == '\n' || c == '\r'
}

/// A decimal digit.
pub open spec fn is_digit(c: char) -> bool {
    '0' <= c && c <= '9'
}

/// A letter: the first character of an identifier or keyword.
pub open spec fn is_alpha(c: char) -> bool {
    ('a' <= c && c <= 'z') || ('A' <= c && c <= 'Z')
}

/// A letter or digit: any character that continues an identifier.
pub open spec fn is_alnum(c: char) -> bool {
    is_alpha(c) || is_digit(c)
}

/// A character that belongs to a numeric run: a digit or a decimal point.
pub open spec fn is_number_char(c: char) -> bool {
    is_digit(c) || c == '.'
}

/// The position of the first non-whitespace character at or after `i`.
pub open spec fn skip_spaces(s: Seq<char>, i: nat) -> nat
    decreases s.len() - i,
{
    if i < s.len() && is_space(s[i as int]) {
        skip_spaces(s, i + 1)
    } else {
        i
    }
}

/// The position of the line terminator (or the end of input) at or
/// after `i`: where a comment that is still open at `i` stops.
pub open spec fn skip_line(s: Seq<char>, i: nat) -> nat
    decreases s.len() - i,
{
    if i < s.len() && s[i as int] != '\n' && s[i as int] != '\r' {
        skip_line(s, i + 1)
    } else {
        i
    }
}

pub proof fn lemma_skip_spaces_bounds(s: Seq<char>, i: nat)
    ensures
        i <= skip_spaces(s, i),
        i <= s.len() ==> skip_spaces(s, i) <= s.len(),
        skip_spaces(s, i) < s.len() ==> !is_space(s[skip_spaces(s, i) as int]),
    decreases s.len() - i,
{
    if i < s.len() && is_space(s[i as int]) {
        lemma_skip_spaces_bounds(s, i + 1);
    }
}

pub proof fn lemma_skip_line_bounds(s: Seq<char>, i: nat)
    ensures
        i <= skip_line(s, i),
        i <= s.len() ==> skip_line(s, i) <= s.len(),
        skip_line(s, i) < s.len() ==> s[skip_line(s, i) as int] == '\n' || s[skip_line(s, i) as int]
            == '\r',
    decreases s.len() - i,
{
    if i < s.len() && s[i as int] != '\n' && s[i as int] != '\r' {
        lemma_skip_line_bounds(s, i + 1);
    }
}

/// The position of the next token character at or after `i`: past all
/// whitespace and past every comment, which runs from a `#` to the next
/// line terminator and produces no token of its own.
pub open spec fn skip_trivia(s: Seq<char>, i: nat) -> nat
    decreases s.len() - i,
{
    if i < s.len() && is_space(s[i as int]) {
        skip_trivia(s, i + 1)
    } else if i < s.len() && s[i as int] == '#' {
        proof {
            lemma_skip_line_bounds(s, i + 1);
        }
        skip_trivia(s, skip_line(s, i + 1))
    } else {
        i
    }
}

pub proof fn lemma_skip_trivia_bounds(s: Seq<char>, i: nat)
    ensures
        i <= skip_trivia(s, i),
        i <= s.len() ==> skip_trivia(s, i) <= s.len(),
        skip_trivia(s, i) < s.len() ==> !is_space(s[skip_trivia(s, i) as int]) && s[skip_trivia(
            s,
            i,
        ) as int] != '#',
    decreases s.len() - i,
{
    if i < s.len() && is_space(s[i as int]) {
        lemma_skip_trivia_bounds(s, i + 1);
    } else if i < s.len() && s[i as int] == '#' {
        lemma_skip_line_bounds(s, i + 1);
        lemma_skip_trivia_bounds(s, skip_line(s, i + 1));
    }
}

/// Skipping trivia is stable under first skipping only the whitespace.
pub proof fn lemma_skip_trivia_after_spaces(s: Seq<char>, i: nat)
    ensures
        skip_trivia(s, skip_spaces(s, i)) == skip_trivia(s, i),
    decreases s.len() - i,
{
    if i < s.len() && is_space(s[i as int]) {
        lemma_skip_trivia_after_spaces(s, i + 1);
    }
}

/// The end of the maximal identifier run at `i`: the position of the
/// first character at or after `i` that is not a letter or digit.
pub open spec fn ident_end(s: Seq<char>, i: nat) -> nat
    decreases s.len() - i,
{
    if i < s.len() && is_alnum(s[i as int]) {
        ident_end(s, i + 1)
    } else {
        i
    }
}

/// The end of the maximal numeric run at `i`: the position of the first
/// character at or after `i` that is neither a digit nor a decimal point.
pub open spec fn number_end(s: Seq<char>, i: nat) -> nat
    decreases s.len() - i,
{
    if i < s.len() && is_number_char(s[i as int]) {
        number_end(s, i + 1)
    } else {
        i
    }
}

pub proof fn lemma_ident_end_bounds(s: Seq<char>, i: nat)
    ensures
        i <= ident_end(s, i),
        i <= s.len() ==> ident_end(s, i) <= s.len(),
        ident_end(s, i) < s.len() ==> !is_alnum(s[ident_end(s, i) as int]),
    decreases s.len() - i,
{
    if i < s.len() && is_alnum(s[i as int]) {
        lemma_ident_end_bounds(s, i + 1);
    }
}

pub proof fn lemma_number_end_bounds(s: Seq<char>, i: nat)
    ensures
        i <= number_end(s, i),
        i <= s.len() ==> number_end(s, i) <= s.len(),
        number_end(s, i) < s.len() ==> !is_number_char(s[number_end(s, i) as int]),
    decreases s.len() - i,
{
    if i < s.len() && is_number_char(s[i as int]) {
        lemma_number_end_bounds(s, i + 1);
    }
}

/// How many decimal points a run of characters holds.
pub open spec fn dot_count(run: Seq<char>) -> nat
    decreases run.len(),
{
    if run.len() == 0 {
        0
    } else {
        dot_count(run.drop_last()) + (if run.last() == '.' {
            1nat
        } else {
            0nat
        })
    }
}

/// Whether a run of characters holds at least one decimal digit.
pub open spec fn has_digit(run: Seq<char>) -> bool {
    exists|k: int| 0 <= k < run.len() && is_digit(run[k])
}

/// A numeric run denotes a floating-point literal exactly when it holds
/// at least one digit and at most one decimal point.
pub open spec fn valid_number(run: Seq<char>) -> bool {
    has_digit(run) && dot_count(run) <= 1
}

pub proof fn lemma_dot_count_push(run: Seq<char>, c: char)
    ensures
        dot_count(run.push(c)) == dot_count(run) + (if c == '.' {
            1nat
        } else {
            0nat
        }),
{
    assert(run.push(c).drop_last() =~= run);
    assert(run.push(c).last() == c);
}

pub proof fn lemma_has_digit_push(run: Seq<char>, c: char)
    ensures
        has_digit(run.push(c)) == (has_digit(run) || is_digit(c)),
{
    if has_digit(run) {
        let k = choose|k: int| 0 <= k < run.len() && is_digit(run[k]);
        assert(run.push(c)[k] == run[k]);
    }
    if is_digit(c) {
        assert(run.push(c)[run.len() as int] == c);
    }
    if has_digit(run.push(c)) && !is_digit(c) {
        let k = choose|k: int| 0 <= k < run.push(c).len() && is_digit(run.push(c)[k]);
        assert(0 <= k < run.len() && is_digit(run[k]));
    }
}

pub proof fn lemma_dot_count_le_len(run: Seq<char>)
    ensures
        dot_count(run) <= run.len(),
    decreases run.len(),
{
    if run.len() > 0 {
        lemma_dot_count_le_len(run.drop_last());
    }
}

/// The token a completed word run denotes: one of the two keywords, or
/// an identifier holding the run verbatim.
pub open spec fn word_token(run: Seq<char>) -> TokenModel {
    if run == "def"@ {
        TokenModel::Def
    } else if run == "extern"@ {
        TokenModel::Extern
    } else {
        TokenModel::Identifier(run)
    }
}

/// The token a single structural or operator character denotes; any
/// character without a classification of its own becomes `Misc`.
pub open spec fn symbol_token(c: char) -> TokenModel {
    if c == '+' {
        TokenModel::Add
    } else if c == '-' {
        TokenModel::Sub
    } else if c == '*' {
        TokenModel::Mult
    } else if c == '/' {
        TokenModel::Div
    } else if c == '(' {
        TokenModel::LParen
    } else if c == ')' {
        TokenModel::RParen
    } else if c == '=' {
        TokenModel::Eq
    } else {
        TokenModel::Misc(c)
    }
}

/// What one step of the scan yields.
pub enum SpecNext {
    /// The next token, and the cursor position just past it.
    Tok(TokenModel, nat),
    /// The scan stops: the numeric run held here is malformed.
    Bad(Seq<char>),
}

/// The next token of `s` at or after position `i`, in the grammar's
/// priority order: past whitespace and comments, the end of input yields
/// `Eof`; a digit or decimal point opens a numeric run; a letter opens a
/// word run; anything else is a single symbol.
pub open spec fn next_token(s: Seq<char>, i: nat) -> SpecNext {
    let j = skip_trivia(s, i);
    if j >= s.len() {
        SpecNext::Tok(TokenModel::Eof, j)
    } else {
        let c = s[j as int];
        if is_number_char(c) {
            let k = number_end(s, j);
            let run = s.subrange(j as int, k as int);
            if valid_number(run) {
                SpecNext::Tok(TokenModel::Number(run), k)
            } else {
                SpecNext::Bad(run)
            }
        } else if is_alpha(c) {
            let k = ident_end(s, j);
            SpecNext::Tok(word_token(s.subrange(j as int, k as int)), k)
        } else {
            SpecNext::Tok(symbol_token(c), j + 1)
        }
    }
}

/// A non-`Eof` step always moves the cursor strictly forward, and never
/// past the end of the input.
pub proof fn lemma_next_token_advances(s: Seq<char>, i: nat)
    ensures
        match next_token(s, i) {
            SpecNext::Tok(t, j) => i <= j && (!(t is Eof) ==> i < j <= s.len()),
            SpecNext::Bad(run) => true,
        },
{
    lemma_skip_trivia_bounds(s, i);
    let j = skip_trivia(s, i);
    if j < s.len() {
        let c = s[j as int];
        if is_number_char(c) {
            lemma_number_end_bounds(s, j);
            assert(number_end(s, j) == number_end(s, j + 1));
        } else if is_alpha(c) {
            lemma_ident_end_bounds(s, j);
            assert(ident_end(s, j) == ident_end(s, j + 1));
        }
    }
}

/// What lexing yields: the full token sequence, or the malformed
/// numeric run that stopped everything.
pub enum LexResult {
    Toks(Seq<TokenModel>),
    Malformed(Seq<char>),
}

/// All tokens of `s` from position `i` on: one step of [`next_token`]
/// after another, up to and including the first `Eof`.  A malformed
/// numeric run abandons the whole scan.
pub open spec fn lex_from(s: Seq<char>, i: nat) -> LexResult
    decreases s.len() - i,
{
    match next_token(s, i) {
        SpecNext::Bad(run) => LexResult::Malformed(run),
        SpecNext::Tok(t, j) => {
            if t is Eof {
                LexResult::Toks(seq![TokenModel::Eof])
            } else {
                proof {
                    lemma_next_token_advances(s, i);
                }
                match lex_from(s, j) {
                    LexResult::Toks(rest) => LexResult::Toks(seq![t] + rest),
                    LexResult::Malformed(run) => LexResult::Malformed(run),
                }
            }
        },
    }
}

/// The token sequence of the whole input.
pub open spec fn lex(s: Seq<char>) -> LexResult {
    lex_from(s, 0)
}

/// Whenever lexing succeeds, the token sequence is non-empty, its last
/// element is `Eof`, and `Eof` appears nowhere else in it.
pub proof fn lemma_tokens_end_in_eof(s: Seq<char>, i: nat)
    ensures
        match lex_from(s, i) {
            LexResult::Toks(toks) => toks.len() >= 1 && toks.last() == TokenModel::Eof && (forall|
                k: int,
            |
                0 <= k < toks.len() - 1 ==> !(#[trigger] toks[k] is Eof)),
            LexResult::Malformed(run) => true,
        },
    decreases s.len() - i,
{
    lemma_next_token_advances(s, i);
    match next_token(s, i) {
        SpecNext::Bad(run) => {},
        SpecNext::Tok(t, j) => {
            if !(t is Eof) {
                lemma_tokens_end_in_eof(s, j);
            }
        },
    }
}

/// Once the cursor has reached the end of the input, every further step
/// yields `Eof` without moving the cursor.
pub proof fn lemma_eof_is_idempotent(s: Seq<char>, i: nat)
    requires
        i >= s.len(),
    ensures
        next_token(s, i) == SpecNext::Tok(TokenModel::Eof, i),
        lex_from(s, i) == LexResult::Toks(seq![TokenModel::Eof]),
{
}

} // verus!
