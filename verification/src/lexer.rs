//! The executable lexer, verified against [`crate::scan`].

use crate::scan::dot_count;
use crate::scan::has_digit;
use crate::scan::ident_end;
use crate::scan::is_alnum;
use crate::scan::is_alpha;
use crate::scan::is_digit;
use crate::scan::is_number_char;
use crate::scan::is_space;
use crate::scan::lemma_dot_count_le_len;
use crate::scan::lemma_dot_count_push;
use crate::scan::lemma_has_digit_push;
use crate::scan::lemma_ident_end_bounds;
use crate::scan::lemma_next_token_advances;
use crate::scan::lemma_number_end_bounds;
use crate::scan::lemma_skip_line_bounds;
use crate::scan::lemma_skip_spaces_bounds;
use crate::scan::lemma_skip_trivia_after_spaces;
use crate::scan::lemma_tokens_end_in_eof;
use crate::scan::lex_from;
use crate::scan::next_token;
use crate::scan::number_end;
use crate::scan::skip_line;
use crate::scan::skip_spaces;
use crate::scan::skip_trivia;
use crate::scan::symbol_token;
use crate::scan::valid_number;
use crate::scan::word_token;
use crate::scan::LexResult;
use crate::scan::SpecNext;
use crate::token::LexError;
use crate::token::Token;
use crate::token::TokenModel;
use vstd::prelude::*;
use vstd::string::StringExecFns;

verus! {

/// Relies on `String::push`: appends the given character to the end of
/// the string.
#[verifier::external_body]
fn push_char(s: &mut String, c: char)
    ensures
        final(s)@ == old(s)@.push(c),
{
    s.push(c);
}

/// Whether `c` is a decimal digit.
fn char_is_digit(c: char) -> (b: bool)
    ensures
        b == is_digit(c),
{
    '0' <= c && c <= '9'
}

/// Whether `c` is a letter.
fn char_is_alpha(c: char) -> (b: bool)
    ensures
        b == is_alpha(c),
{
    ('a' <= c && c <= 'z') || ('A' <= c && c <= 'Z')
}

/// Whether `c` belongs to a numeric run.
fn char_is_number(c: char) -> (b: bool)
    ensures
        b == is_number_char(c),
{
    char_is_digit(c) || c == '.'
}

/// The lexer: an immutable character buffer and an advancing read
/// cursor.  A `Lexer` is built from the complete source text, drained
/// once by [`Lexer::get_tokens`], and then discarded.
pub struct Lexer {
    char_vec: Vec<char>,
    char_index: usize,
}

impl Lexer {
    /// The input buffer, as a character sequence.
    pub closed spec fn input(&self) -> Seq<char> {
        self.char_vec@
    }

    /// The current read position.
    pub closed spec fn cursor(&self) -> nat {
        self.char_index as nat
    }

    /// The cursor never leaves the buffer (one position past the last
    /// character counts as inside: it is the end-of-input position).
    pub closed spec fn wf(&self) -> bool {
        self.char_index <= self.char_vec@.len()
    }

    /// Builds a lexer over the complete source text, with the cursor at
    /// the start.
    pub fn new(char_vec: Vec<char>) -> (r: Self)
        ensures
            r.wf(),
            r.input() == char_vec@,
            r.cursor() == 0,
    {
        let char_index: usize = 0;
        Self { char_vec, char_index }
    }

    /// The character under the cursor, or `None` at the end of input.
    fn get_current(&self) -> (r: Option<char>)
        requires
            self.wf(),
        ensures
            r == (if self.cursor() < self.input().len() {
                Some(self.input()[self.cursor() as int])
            } else {
                None
            }),
    {
        if self.char_index < self.char_vec.len() {
            Some(self.char_vec[self.char_index])
        } else {
            None
        }
    }

    /// Advances the cursor by one character.
    fn move_read_head(&mut self)
        requires
            old(self).wf(),
            old(self).cursor() < old(self).input().len(),
        ensures
            final(self).wf(),
            final(self).input() == old(self).input(),
            final(self).cursor() == old(self).cursor() + 1,
    {
        let n = self.char_vec.len();
        proof {
            assert(self.char_index < n);
        }
        self.char_index = self.char_index + 1;
    }

    /// Whether the character under the cursor is whitespace.
    fn at_space(&self) -> (b: bool)
        requires
            self.wf(),
        ensures
            b == (self.cursor() < self.input().len() && is_space(
                self.input()[self.cursor() as int],
            )),
    {
        match self.get_current() {
            Some(c) => c == ' ' || c == '\t' || c == '\n' || c == '\r',
            None => false,
        }
    }

    /// Whether the character under the cursor keeps a comment open: any
    /// character but a line terminator.
    fn at_line_char(&self) -> (b: bool)
        requires
            self.wf(),
        ensures
            b == (self.cursor() < self.input().len() && self.input()[self.cursor() as int] != '\n'
                && self.input()[self.cursor() as int] != '\r'),
    {
        match self.get_current() {
            Some(c) => c != '\n' && c != '\r',
            None => false,
        }
    }

    /// Whether the character under the cursor opens a comment.
    fn at_comment_start(&self) -> (b: bool)
        requires
            self.wf(),
        ensures
            b == (self.cursor() < self.input().len() && self.input()[self.cursor() as int] == '#'),
    {
        match self.get_current() {
            Some(c) => c == '#',
            None => false,
        }
    }

    /// Whether the character under the cursor continues an identifier.
    fn at_alnum(&self) -> (b: bool)
        requires
            self.wf(),
        ensures
            b == (self.cursor() < self.input().len() && is_alnum(
                self.input()[self.cursor() as int],
            )),
    {
        match self.get_current() {
            Some(c) => char_is_alpha(c) || char_is_digit(c),
            None => false,
        }
    }

    /// Whether the character under the cursor continues a numeric run.
    fn at_number_char(&self) -> (b: bool)
        requires
            self.wf(),
        ensures
            b == (self.cursor() < self.input().len() && is_number_char(
                self.input()[self.cursor() as int],
            )),
    {
        match self.get_current() {
            Some(c) => char_is_number(c),
            None => false,
        }
    }

    /// Moves the cursor past all whitespace under it.
    fn skip_whitespace(&mut self)
        requires
            old(self).wf(),
        ensures
            final(self).wf(),
            final(self).input() == old(self).input(),
            final(self).cursor() == skip_spaces(old(self).input(), old(self).cursor()),
    {
        let ghost s = self.input();
        let ghost i0 = self.cursor();
        while self.at_space()
            invariant
                self.wf(),
                self.input() == s,
                skip_spaces(s, self.cursor()) == skip_spaces(s, i0),
            decreases s.len() - self.cursor(),
        {
            self.move_read_head();
        }
    }

    /// Moves the cursor to the end of the current line (or of the
    /// input), without consuming the line terminator.
    fn skip_comment(&mut self)
        requires
            old(self).wf(),
        ensures
            final(self).wf(),
            final(self).input() == old(self).input(),
            final(self).cursor() == skip_line(old(self).input(), old(self).cursor()),
    {
        let ghost s = self.input();
        let ghost i0 = self.cursor();
        while self.at_line_char()
            invariant
                self.wf(),
                self.input() == s,
                skip_line(s, self.cursor()) == skip_line(s, i0),
            decreases s.len() - self.cursor(),
        {
            self.move_read_head();
        }
    }

    /// Classifies a single structural or operator character.
    fn get_symbol(&self, c: char) -> (t: Token)
        ensures
            t.deep_view() == symbol_token(c),
    {
        match c {
            '+' => Token::Add,
            '-' => Token::Sub,
            '*' => Token::Mult,
            '/' => Token::Div,
            '(' => Token::LParen,
            ')' => Token::RParen,
            '=' => Token::Eq,
            _ => Token::Misc(c),
        }
    }

    /// Consumes the maximal identifier run under the cursor and
    /// classifies it: a keyword token, or an identifier holding the run
    /// verbatim.
    fn get_string(&mut self) -> (t: Token)
        requires
            old(self).wf(),
        ensures
            final(self).wf(),
            final(self).input() == old(self).input(),
            final(self).cursor() == ident_end(old(self).input(), old(self).cursor()),
            t.deep_view() == word_token(
                old(self).input().subrange(
                    old(self).cursor() as int,
                    ident_end(old(self).input(), old(self).cursor()) as int,
                ),
            ),
    {
        let ghost s = self.input();
        let ghost i0 = self.cursor();
        let mut identifier_string = String::new();
        while self.at_alnum()
            invariant
                self.wf(),
                self.input() == s,
                i0 <= self.cursor() <= s.len(),
                ident_end(s, self.cursor()) == ident_end(s, i0),
                identifier_string@ == s.subrange(i0 as int, self.cursor() as int),
            decreases s.len() - self.cursor(),
        {
            let c = self.char_vec[self.char_index];
            let ghost pre = identifier_string@;
            push_char(&mut identifier_string, c);
            proof {
                assert(s.subrange(i0 as int, self.cursor() as int + 1) =~= pre.push(c));
            }
            self.move_read_head();
        }
        if identifier_string == String::from_str("def") {
            Token::Def
        } else if identifier_string == String::from_str("extern") {
            Token::Extern
        } else {
            Token::Identifier(identifier_string)
        }
    }

    /// Consumes the maximal numeric run under the cursor.  The run
    /// becomes a `Number` token when it is a valid floating-point
    /// literal, and the fatal malformed-literal error otherwise.
    fn get_number(&mut self) -> (r: Result<Token, LexError>)
        requires
            old(self).wf(),
        ensures
            final(self).wf(),
            final(self).input() == old(self).input(),
            final(self).cursor() == number_end(old(self).input(), old(self).cursor()),
            ({
                let run = old(self).input().subrange(
                    old(self).cursor() as int,
                    number_end(old(self).input(), old(self).cursor()) as int,
                );
                match r {
                    Ok(t) => valid_number(run) && t.deep_view() == TokenModel::Number(run),
                    Err(e) => !valid_number(run) && e.text() == run,
                }
            }),
    {
        let ghost s = self.input();
        let ghost i0 = self.cursor();
        let n = self.char_vec.len();
        let mut number_string = String::new();
        let mut dots: usize = 0;
        let mut saw_digit = false;
        while self.at_number_char()
            invariant
                self.wf(),
                self.input() == s,
                s.len() == n,
                i0 <= self.cursor() <= s.len(),
                number_end(s, self.cursor()) == number_end(s, i0),
                number_string@ == s.subrange(i0 as int, self.cursor() as int),
                dots == dot_count(number_string@),
                dots <= number_string@.len(),
                saw_digit == has_digit(number_string@),
            decreases s.len() - self.cursor(),
        {
            let c = self.char_vec[self.char_index];
            let ghost pre = number_string@;
            push_char(&mut number_string, c);
            if c == '.' {
                dots = dots + 1;
            } else {
                saw_digit = true;
            }
            proof {
                assert(s.subrange(i0 as int, self.cursor() as int + 1) =~= pre.push(c));
                lemma_dot_count_push(pre, c);
                lemma_has_digit_push(pre, c);
                lemma_dot_count_le_len(number_string@);
            }
            self.move_read_head();
        }
        if saw_digit && dots <= 1 {
            Ok(Token::Number(number_string))
        } else {
            Err(LexError::InvalidNumberLiteral(number_string))
        }
    }

    /// Produces the next token of the input: skips whitespace and
    /// comments, then classifies what the cursor stands on.  Once the
    /// cursor has reached the end of the input, every further call
    /// yields `Eof` without moving it.
    pub fn get_tok(&mut self) -> (r: Result<Token, LexError>)
        requires
            old(self).wf(),
        ensures
            final(self).wf(),
            final(self).input() == old(self).input(),
            old(self).cursor() <= final(self).cursor(),
            match r {
                Ok(t) => next_token(old(self).input(), old(self).cursor()) == SpecNext::Tok(
                    t.deep_view(),
                    final(self).cursor(),
                ),
                Err(e) => next_token(old(self).input(), old(self).cursor()) == SpecNext::Bad(
                    e.text(),
                ),
            },
    {
        let ghost s = self.input();
        let ghost i0 = self.cursor();
        self.skip_whitespace();
        proof {
            lemma_skip_spaces_bounds(s, i0);
            lemma_skip_trivia_after_spaces(s, i0);
        }
        while self.at_comment_start()
            invariant
                self.wf(),
                self.input() == s,
                i0 <= self.cursor() <= s.len(),
                skip_trivia(s, self.cursor()) == skip_trivia(s, i0),
                self.cursor() < s.len() ==> !is_space(s[self.cursor() as int]),
            decreases s.len() - self.cursor(),
        {
            let ghost c1 = self.cursor();
            self.skip_comment();
            let ghost c2 = self.cursor();
            self.skip_whitespace();
            proof {
                lemma_skip_line_bounds(s, c1 + 1);
                lemma_skip_spaces_bounds(s, c2);
                lemma_skip_trivia_after_spaces(s, c2);
                assert(skip_line(s, c1) == skip_line(s, c1 + 1));
                assert(skip_trivia(s, c1) == skip_trivia(s, skip_line(s, c1 + 1)));
            }
        }
        proof {
            assert(skip_trivia(s, self.cursor()) == self.cursor());
            lemma_number_end_bounds(s, self.cursor());
            lemma_ident_end_bounds(s, self.cursor());
        }
        match self.get_current() {
            None => Ok(Token::Eof),
            Some(c) => {
                if char_is_number(c) {
                    self.get_number()
                } else if char_is_alpha(c) {
                    Ok(self.get_string())
                } else {
                    self.move_read_head();
                    Ok(self.get_symbol(c))
                }
            },
        }
    }

    /// Drains the whole input into its token sequence: one token after
    /// another, up to and including the first `Eof`.  The result is
    /// exactly what [`crate::scan::lex_from`] describes; on success it
    /// is non-empty, ends in `Eof`, and holds `Eof` nowhere else.
    pub fn get_tokens(&mut self) -> (r: Result<Vec<Token>, LexError>)
        requires
            old(self).wf(),
        ensures
            final(self).wf(),
            final(self).input() == old(self).input(),
            old(self).cursor() <= final(self).cursor(),
            match r {
                Ok(toks) => lex_from(old(self).input(), old(self).cursor()) == LexResult::Toks(
                    toks.deep_view(),
                ) && toks.deep_view().len() >= 1 && toks.deep_view().last() == TokenModel::Eof && (
                forall|k: int|
                    0 <= k < toks.deep_view().len() - 1 ==> !(#[trigger] toks.deep_view()[k]
                        is Eof)),
                Err(e) => lex_from(old(self).input(), old(self).cursor()) == LexResult::Malformed(
                    e.text(),
                ),
            },
    {
        let ghost s = self.input();
        let ghost i0 = self.cursor();
        let mut toks: Vec<Token> = Vec::new();
        let mut failure: Option<LexError> = None;
        loop
            invariant_except_break
                self.wf(),
                self.input() == s,
                i0 <= self.cursor(),
                failure is None,
                match lex_from(s, self.cursor()) {
                    LexResult::Toks(rest) => lex_from(s, i0) == LexResult::Toks(
                        toks.deep_view() + rest,
                    ),
                    LexResult::Malformed(run) => lex_from(s, i0) == LexResult::Malformed(run),
                },
            ensures
                self.wf(),
                self.input() == s,
                i0 <= self.cursor(),
                match failure {
                    None => lex_from(s, i0) == LexResult::Toks(toks.deep_view()),
                    Some(e) => lex_from(s, i0) == LexResult::Malformed(e.text()),
                },
            decreases s.len() - self.cursor(),
        {
            let ghost c_before = self.cursor();
            let ghost toks_before = toks.deep_view();
            let step = self.get_tok();
            proof {
                lemma_next_token_advances(s, c_before);
            }
            match step {
                Ok(t) => {
                    let ghost t_model = t.deep_view();
                    let is_eof = match &t {
                        Token::Eof => true,
                        _ => false,
                    };
                    toks.push(t);
                    proof {
                        assert(toks.deep_view() =~= toks_before.push(t_model));
                    }
                    if is_eof {
                        proof {
                            assert(toks.deep_view() =~= toks_before + seq![TokenModel::Eof]);
                        }
                        break ;
                    } else {
                        proof {
                            assert(!(t_model is Eof));
                            if let LexResult::Toks(rest) = lex_from(s, self.cursor()) {
                                assert(lex_from(s, c_before) == LexResult::Toks(
                                    seq![t_model] + rest,
                                ));
                                assert(toks_before + (seq![t_model] + rest) =~= toks.deep_view()
                                    + rest);
                            }
                        }
                    }
                },
                Err(e) => {
                    failure = Some(e);
                    break ;
                },
            }
        }
        match failure {
            Some(e) => Err(e),
            None => {
                proof {
                    lemma_tokens_end_in_eof(s, i0);
                }
                Ok(toks)
            },
        }
    }
}

} // verus!
