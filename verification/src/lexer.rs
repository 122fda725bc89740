//! The tokenizer: one forward pass over the source bytes, producing a finite
//! token sequence that ends with an end-of-file token.
//!
//! The lexical grammar is fixed here as specification functions over the raw
//! byte sequence: `spec_tokens` defines, position by position, exactly which
//! tokens a well-formed lexer must emit. The executable `Lexer` is proved to
//! yield precisely that sequence, one token per call to `next`.
//!
//! Policies for the open lexical corners: a digit run followed by `.` absorbs
//! the dot and any further digits even when none follow (so `12.` is a single
//! number token), and a string literal with no closing quote before the end
//! of input is a single `Illegal` token spanning from the opening quote to
//! the end of the source.

use vstd::prelude::*;

use crate::token::{SpecToken, SpecTokenKind, Token, TokenKind, TokenSpan};

verus! {

/// ASCII whitespace swallowed between tokens: space, tab, newline, carriage
/// return.
pub open spec fn is_ws_byte(b: u8) -> bool {
    b == 32 || b == 9 || b == 10 || b == 13
}

/// Bytes that may start and continue an identifier: ASCII letters and `_`.
pub open spec fn is_letter_byte(b: u8) -> bool {
    (97 <= b && b <= 122) || (65 <= b && b <= 90) || b == 95
}

/// ASCII decimal digits.
pub open spec fn is_digit_byte(b: u8) -> bool {
    48 <= b && b <= 57
}

/// First position at or after `i` that does not hold whitespace (or the end
/// of the input).
pub open spec fn ws_end(input: Seq<u8>, i: int) -> int
    decreases input.len() - i,
{
    if i < input.len() && is_ws_byte(input[i]) {
        ws_end(input, i + 1)
    } else {
        i
    }
}

/// End of the maximal run of letters/underscores starting at `i`.
pub open spec fn ident_end(input: Seq<u8>, i: int) -> int
    decreases input.len() - i,
{
    if i < input.len() && is_letter_byte(input[i]) {
        ident_end(input, i + 1)
    } else {
        i
    }
}

/// End of the maximal run of digits starting at `i`.
pub open spec fn digits_end(input: Seq<u8>, i: int) -> int
    decreases input.len() - i,
{
    if i < input.len() && is_digit_byte(input[i]) {
        digits_end(input, i + 1)
    } else {
        i
    }
}

/// End of a number token starting at `i`: a digit run, then optionally one
/// `.` and a further digit run (which may be empty).
pub open spec fn number_end(input: Seq<u8>, i: int) -> int {
    let d = digits_end(input, i);
    if d < input.len() && input[d] == 46 {
        digits_end(input, d + 1)
    } else {
        d
    }
}

/// Position of the first `"` at or after `i`, or the input length when none
/// follows.
pub open spec fn quote_scan(input: Seq<u8>, i: int) -> int
    decreases input.len() - i,
{
    if i >= input.len() {
        input.len() as int
    } else if input[i] == 34 {
        i
    } else {
        quote_scan(input, i + 1)
    }
}

/// The keyword set; any other letter run is an identifier.
pub open spec fn spec_classify_word(w: Seq<u8>) -> SpecTokenKind {
    if w == seq![102u8, 110u8] {  // fn
        SpecTokenKind::Function
    } else if w == seq![108u8, 101u8, 116u8] {  // let
        SpecTokenKind::Let
    } else if w == seq![105u8, 102u8] {  // if
        SpecTokenKind::If
    } else if w == seq![101u8, 108u8, 115u8, 101u8] {  // else
        SpecTokenKind::Else
    } else if w == seq![116u8, 114u8, 117u8, 101u8] {  // true
        SpecTokenKind::True
    } else if w == seq![102u8, 97u8, 108u8, 115u8, 101u8] {  // false
        SpecTokenKind::False
    } else if w == seq![114u8, 101u8, 116u8, 117u8, 114u8, 110u8] {  // return
        SpecTokenKind::Return
    } else {
        SpecTokenKind::Ident(w)
    }
}

/// End position of the token that starts at `j`, for `j` inside the input at
/// a byte that is neither whitespace nor the zero sentinel.
pub open spec fn token_end(input: Seq<u8>, j: int) -> int {
    let b = input[j];
    if is_letter_byte(b) {
        ident_end(input, j)
    } else if is_digit_byte(b) {
        number_end(input, j)
    } else if b == 34 {
        let q = quote_scan(input, j + 1);
        if q < input.len() {
            q + 1
        } else {
            input.len() as int
        }
    } else if b == 61 || b == 33 || b == 62 || b == 60 {
        if j + 1 < input.len() && input[j + 1] == 61 {
            j + 2
        } else {
            j + 1
        }
    } else {
        j + 1
    }
}

/// Kind of the token that starts at `j`, under the same conditions as
/// `token_end`.
pub open spec fn token_kind(input: Seq<u8>, j: int) -> SpecTokenKind {
    let b = input[j];
    if is_letter_byte(b) {
        spec_classify_word(input.subrange(j, ident_end(input, j)))
    } else if is_digit_byte(b) {
        SpecTokenKind::Number(input.subrange(j, number_end(input, j)))
    } else if b == 34 {
        let q = quote_scan(input, j + 1);
        if q < input.len() {
            SpecTokenKind::StringLiteral(input.subrange(j, q + 1))
        } else {
            SpecTokenKind::Illegal
        }
    } else if b == 61 {
        if j + 1 < input.len() && input[j + 1] == 61 {
            SpecTokenKind::Equal
        } else {
            SpecTokenKind::Assign
        }
    } else if b == 33 {
        if j + 1 < input.len() && input[j + 1] == 61 {
            SpecTokenKind::NotEqual
        } else {
            SpecTokenKind::Bang
        }
    } else if b == 62 {
        if j + 1 < input.len() && input[j + 1] == 61 {
            SpecTokenKind::GreaterOrEqual
        } else {
            SpecTokenKind::GreaterThan
        }
    } else if b == 60 {
        if j + 1 < input.len() && input[j + 1] == 61 {
            SpecTokenKind::LessOrEqual
        } else {
            SpecTokenKind::LessThan
        }
    } else if b == 43 {
        SpecTokenKind::Plus
    } else if b == 45 {
        SpecTokenKind::Dash
    } else if b == 42 {
        SpecTokenKind::Asterisk
    } else if b == 47 {
        SpecTokenKind::Slash
    } else if b == 44 {
        SpecTokenKind::Comma
    } else if b == 59 {
        SpecTokenKind::Semicolon
    } else if b == 40 {
        SpecTokenKind::LParen
    } else if b == 41 {
        SpecTokenKind::RParen
    } else if b == 123 {
        SpecTokenKind::LSquirly
    } else if b == 125 {
        SpecTokenKind::RSquirly
    } else if b == 91 {
        SpecTokenKind::LBracket
    } else if b == 93 {
        SpecTokenKind::RBracket
    } else {
        SpecTokenKind::Illegal
    }
}

/// Bounds and content of a whitespace skip: it stays inside the input, skips
/// only whitespace, and stops at the first non-whitespace byte.
pub proof fn lemma_ws_end(input: Seq<u8>, i: int)
    requires
        0 <= i <= input.len(),
    ensures
        i <= ws_end(input, i) <= input.len(),
        forall|k: int| i <= k < ws_end(input, i) ==> is_ws_byte(input[k]),
        ws_end(input, i) < input.len() ==> !is_ws_byte(input[ws_end(input, i)]),
    decreases input.len() - i,
{
    if i < input.len() && is_ws_byte(input[i]) {
        lemma_ws_end(input, i + 1);
    }
}

/// Bounds and content of an identifier run.
pub proof fn lemma_ident_end(input: Seq<u8>, i: int)
    requires
        0 <= i <= input.len(),
    ensures
        i <= ident_end(input, i) <= input.len(),
        forall|k: int| i <= k < ident_end(input, i) ==> is_letter_byte(input[k]),
        ident_end(input, i) < input.len() ==> !is_letter_byte(input[ident_end(input, i)]),
    decreases input.len() - i,
{
    if i < input.len() && is_letter_byte(input[i]) {
        lemma_ident_end(input, i + 1);
    }
}

/// Bounds and content of a digit run.
pub proof fn lemma_digits_end(input: Seq<u8>, i: int)
    requires
        0 <= i <= input.len(),
    ensures
        i <= digits_end(input, i) <= input.len(),
        forall|k: int| i <= k < digits_end(input, i) ==> is_digit_byte(input[k]),
        digits_end(input, i) < input.len() ==> !is_digit_byte(input[digits_end(input, i)]),
    decreases input.len() - i,
{
    if i < input.len() && is_digit_byte(input[i]) {
        lemma_digits_end(input, i + 1);
    }
}

/// Bounds and content of the scan for a closing quote.
pub proof fn lemma_quote_scan(input: Seq<u8>, i: int)
    requires
        0 <= i <= input.len(),
    ensures
        i <= quote_scan(input, i) <= input.len(),
        forall|k: int| i <= k < quote_scan(input, i) ==> input[k] != 34,
        quote_scan(input, i) < input.len() ==> input[quote_scan(input, i)] == 34,
    decreases input.len() - i,
{
    if i < input.len() && input[i] != 34 {
        lemma_quote_scan(input, i + 1);
    }
}

/// A token that starts inside the input is at least one byte long and ends
/// inside it.
pub proof fn lemma_token_end(input: Seq<u8>, j: int)
    requires
        0 <= j < input.len(),
        !is_ws_byte(input[j]),
        input[j] != 0,
    ensures
        j < token_end(input, j) <= input.len(),
{
    let b = input[j];
    if is_letter_byte(b) {
        lemma_ident_end(input, j);
        assert(ident_end(input, j) > j) by {
            assert(ident_end(input, j) != j);
        };
    } else if is_digit_byte(b) {
        lemma_digits_end(input, j);
        let d = digits_end(input, j);
        assert(d > j) by {
            assert(d != j);
        };
        if d < input.len() && input[d] == 46 {
            lemma_digits_end(input, d + 1);
        }
    } else if b == 34 {
        lemma_quote_scan(input, j + 1);
    }
}

/// The token sequence of `input` from position `i` on: skip whitespace, stop
/// with a single zero-length end-of-file token at the input's end or at a
/// zero byte, and otherwise emit the token that starts there followed by the
/// tokens after it.
pub open spec fn spec_tokens(input: Seq<u8>, i: int) -> Seq<SpecToken>
    recommends
        0 <= i <= input.len(),
    decreases input.len() - i,
    when 0 <= i <= input.len()
{
    let j = ws_end(input, i);
    if j >= input.len() || input[j] == 0 {
        seq![SpecToken { kind: SpecTokenKind::EOF, start: j, end: j, lexeme: Seq::empty() }]
    } else {
        let e = token_end(input, j);
        proof {
            lemma_ws_end(input, i);
            lemma_token_end(input, j);
        }
        seq![
            SpecToken {
                kind: token_kind(input, j),
                start: j,
                end: e,
                lexeme: input.subrange(j, e),
            },
        ] + spec_tokens(input, e)
    }
}

/// The full token sequence of `input`, final end-of-file token included.
pub open spec fn spec_tokenize(input: Seq<u8>) -> Seq<SpecToken> {
    spec_tokens(input, 0)
}

} // verus!

verus! {

fn is_ws(b: u8) -> (r: bool)
    ensures
        r == is_ws_byte(b),
{
    b == 32 || b == 9 || b == 10 || b == 13
}

fn is_letter(b: u8) -> (r: bool)
    ensures
        r == is_letter_byte(b),
{
    (97 <= b && b <= 122) || (65 <= b && b <= 90) || b == 95
}

fn is_digit(b: u8) -> (r: bool)
    ensures
        r == is_digit_byte(b),
{
    48 <= b && b <= 57
}

/// Copies the byte range `[start, end)` of `v` into a fresh vector.
fn copy_range(v: &Vec<u8>, start: usize, end: usize) -> (r: Vec<u8>)
    requires
        start <= end <= v.len(),
    ensures
        r@ == v@.subrange(start as int, end as int),
{
    let mut r: Vec<u8> = Vec::new();
    let mut i: usize = start;
    while i < end
        invariant
            start <= i <= end <= v.len(),
            r@ == v@.subrange(start as int, i as int),
        decreases end - i,
    {
        r.push(v[i]);
        i = i + 1;
        proof {
            assert(r@ =~= v@.subrange(start as int, i as int));
        }
    }
    r
}

/// Classifies a maximal letter run against the keyword set.
fn classify_word(w: Vec<u8>) -> (k: TokenKind)
    ensures
        k@ == spec_classify_word(w@),
{
    if w.len() == 2 && w[0] == 102 && w[1] == 110 {
        proof {
            assert(w@ =~= seq![102u8, 110u8]);
        }
        TokenKind::Function
    } else if w.len() == 3 && w[0] == 108 && w[1] == 101 && w[2] == 116 {
        proof {
            assert(w@ =~= seq![108u8, 101u8, 116u8]);
        }
        TokenKind::Let
    } else if w.len() == 2 && w[0] == 105 && w[1] == 102 {
        proof {
            assert(w@ =~= seq![105u8, 102u8]);
        }
        TokenKind::If
    } else if w.len() == 4 && w[0] == 101 && w[1] == 108 && w[2] == 115 && w[3] == 101 {
        proof {
            assert(w@ =~= seq![101u8, 108u8, 115u8, 101u8]);
        }
        TokenKind::Else
    } else if w.len() == 4 && w[0] == 116 && w[1] == 114 && w[2] == 117 && w[3] == 101 {
        proof {
            assert(w@ =~= seq![116u8, 114u8, 117u8, 101u8]);
        }
        TokenKind::True
    } else if w.len() == 5 && w[0] == 102 && w[1] == 97 && w[2] == 108 && w[3] == 115 && w[4]
        == 101 {
        proof {
            assert(w@ =~= seq![102u8, 97u8, 108u8, 115u8, 101u8]);
        }
        TokenKind::False
    } else if w.len() == 6 && w[0] == 114 && w[1] == 101 && w[2] == 116 && w[3] == 117 && w[4]
        == 114 && w[5] == 110 {
        proof {
            assert(w@ =~= seq![114u8, 101u8, 116u8, 117u8, 114u8, 110u8]);
        }
        TokenKind::Return
    } else {
        TokenKind::Ident(w)
    }
}

/// A one-shot, single-pass cursor over the source bytes. `cur_pos` always
/// points at the next unconsumed byte, `ch` caches that byte (or zero at the
/// end), and `read_pos` points one byte further.
pub struct Lexer {
    input: Vec<u8>,
    cur_pos: usize,
    read_pos: usize,
    ch: u8,
    done: bool,
}

impl Lexer {
    /// Cursor well-formedness: inside the input the lookahead byte is cached
    /// and `read_pos` trails exactly one ahead; at the end the cached byte is
    /// the zero sentinel.
    pub closed spec fn wf(self) -> bool {
        if self.cur_pos < self.input@.len() {
            self.read_pos == self.cur_pos + 1 && self.ch == self.input@[self.cur_pos as int]
        } else {
            self.cur_pos == self.input@.len() && self.read_pos == self.input@.len() && self.ch
                == 0
        }
    }

    /// The tokens this lexer has yet to yield: the spec token sequence from
    /// the current position, or nothing once the end-of-file token is out.
    pub closed spec fn remaining(self) -> Seq<SpecToken> {
        if self.done {
            Seq::empty()
        } else {
            spec_tokens(self.input@, self.cur_pos as int)
        }
    }

    pub fn new(input: Vec<u8>) -> (l: Lexer)
        ensures
            l.wf(),
            l.remaining() == spec_tokenize(input@),
    {
        let mut l = Lexer { input, cur_pos: 0, read_pos: 0, ch: 0, done: false };
        l.consume_char();
        l
    }

    /// Advances the cursor by one byte, loading the zero sentinel at the end.
    fn consume_char(&mut self)
        requires
            old(self).read_pos <= old(self).input@.len(),
        ensures
            final(self).input == old(self).input,
            final(self).done == old(self).done,
            final(self).cur_pos == old(self).read_pos,
            old(self).read_pos < old(self).input@.len() ==> final(self).ch == old(self).input@[old(self).read_pos as int]
                && final(self).read_pos == old(self).read_pos + 1,
            old(self).read_pos == old(self).input@.len() ==> final(self).ch == 0
                && final(self).read_pos == old(self).read_pos,
            final(self).wf(),
    {
        self.cur_pos = self.read_pos;
        if self.read_pos >= self.input.len() {
            self.ch = 0;
        } else {
            self.ch = self.input[self.read_pos];
            self.read_pos = self.read_pos + 1;
        }
    }

    /// One byte of lookahead past the current byte.
    fn peek(&self) -> (b: u8)
        ensures
            b == if self.read_pos < self.input@.len() {
                self.input@[self.read_pos as int]
            } else {
                0
            },
    {
        if self.read_pos >= self.input.len() {
            0
        } else {
            self.input[self.read_pos]
        }
    }

    /// Skips the maximal run of whitespace at the cursor.
    fn skip_whitespace(&mut self)
        requires
            old(self).wf(),
        ensures
            final(self).wf(),
            final(self).input == old(self).input,
            final(self).done == old(self).done,
            final(self).cur_pos == ws_end(old(self).input@, old(self).cur_pos as int),
    {
        while is_ws(self.ch)
            invariant
                self.wf(),
                self.input == old(self).input,
                self.done == old(self).done,
                ws_end(self.input@, self.cur_pos as int) == ws_end(
                    old(self).input@,
                    old(self).cur_pos as int,
                ),
            decreases self.input@.len() - self.cur_pos,
        {
            self.consume_char();
        }
    }

    /// Reads the maximal letter/underscore run at the cursor.
    fn read_ident(&mut self) -> (w: Vec<u8>)
        requires
            old(self).wf(),
        ensures
            final(self).wf(),
            final(self).input == old(self).input,
            final(self).done == old(self).done,
            final(self).cur_pos == ident_end(old(self).input@, old(self).cur_pos as int),
            w@ == old(self).input@.subrange(
                old(self).cur_pos as int,
                ident_end(old(self).input@, old(self).cur_pos as int),
            ),
    {
        let pos = self.cur_pos;
        while is_letter(self.ch)
            invariant
                self.wf(),
                self.input == old(self).input,
                self.done == old(self).done,
                pos <= self.cur_pos,
                ident_end(self.input@, self.cur_pos as int) == ident_end(
                    old(self).input@,
                    old(self).cur_pos as int,
                ),
                pos == old(self).cur_pos,
            decreases self.input@.len() - self.cur_pos,
        {
            self.consume_char();
        }
        proof {
            lemma_ident_end(self.input@, pos as int);
        }
        copy_range(&self.input, pos, self.cur_pos)
    }

    /// Reads a digit run, and when a `.` follows it, the dot and a further
    /// (possibly empty) digit run.
    fn read_number(&mut self) -> (w: Vec<u8>)
        requires
            old(self).wf(),
        ensures
            final(self).wf(),
            final(self).input == old(self).input,
            final(self).done == old(self).done,
            final(self).cur_pos == number_end(old(self).input@, old(self).cur_pos as int),
            w@ == old(self).input@.subrange(
                old(self).cur_pos as int,
                number_end(old(self).input@, old(self).cur_pos as int),
            ),
    {
        let pos = self.cur_pos;
        while is_digit(self.ch)
            invariant
                self.wf(),
                self.input == old(self).input,
                self.done == old(self).done,
                pos <= self.cur_pos,
                digits_end(self.input@, self.cur_pos as int) == digits_end(
                    old(self).input@,
                    old(self).cur_pos as int,
                ),
                pos == old(self).cur_pos,
            decreases self.input@.len() - self.cur_pos,
        {
            self.consume_char();
        }
        proof {
            lemma_digits_end(self.input@, pos as int);
        }
        if self.ch == 46 {
            self.consume_char();
            while is_digit(self.ch)
                invariant
                    self.wf(),
                    self.input == old(self).input,
                    self.done == old(self).done,
                    pos <= self.cur_pos,
                    digits_end(self.input@, self.cur_pos as int) == number_end(
                        old(self).input@,
                        old(self).cur_pos as int,
                    ),
                    number_end(self.input@, pos as int) == number_end(
                        old(self).input@,
                        old(self).cur_pos as int,
                    ),
                decreases self.input@.len() - self.cur_pos,
            {
                self.consume_char();
            }
        }
        proof {
            lemma_digits_end(self.input@, pos as int);
        }
        copy_range(&self.input, pos, self.cur_pos)
    }

    /// Reads a string literal: the opening quote, all bytes up to and
    /// including the next quote. Returns the matched bytes and whether a
    /// closing quote was found before the end of the input; when none was,
    /// the read stops at the end and the result is flagged unterminated.
    fn read_string_literal(&mut self) -> (r: (Vec<u8>, bool))
        requires
            old(self).wf(),
            old(self).cur_pos < old(self).input@.len(),
            old(self).input@[old(self).cur_pos as int] == 34,
        ensures
            final(self).wf(),
            final(self).input == old(self).input,
            final(self).done == old(self).done,
            r.1 == (quote_scan(old(self).input@, old(self).cur_pos + 1) < old(self).input@.len()),
            final(self).cur_pos == token_end(old(self).input@, old(self).cur_pos as int),
            r.0@ == old(self).input@.subrange(
                old(self).cur_pos as int,
                final(self).cur_pos as int,
            ),
    {
        let pos = self.cur_pos;
        self.consume_char();
        while self.cur_pos < self.input.len() && self.ch != 34
            invariant
                self.wf(),
                self.input == old(self).input,
                self.done == old(self).done,
                pos + 1 <= self.cur_pos,
                quote_scan(self.input@, self.cur_pos as int) == quote_scan(
                    old(self).input@,
                    old(self).cur_pos + 1,
                ),
            decreases self.input@.len() - self.cur_pos,
        {
            self.consume_char();
        }
        proof {
            lemma_quote_scan(self.input@, pos + 1);
        }
        if self.cur_pos < self.input.len() {
            self.consume_char();
            let w = copy_range(&self.input, pos, self.cur_pos);
            (w, true)
        } else {
            let w = copy_range(&self.input, pos, self.cur_pos);
            (w, false)
        }
    }

    /// Yields the next token. Every call before the end returns exactly the
    /// head of the remaining spec token sequence; after the end-of-file token
    /// has been yielded the sequence is exhausted and the lexer returns
    /// nothing, forever.
    pub fn next(&mut self) -> (t: Option<Token>)
        requires
            old(self).wf(),
        ensures
            final(self).wf(),
            match t {
                None => old(self).remaining() == Seq::<SpecToken>::empty()
                    && final(self).remaining() == Seq::<SpecToken>::empty(),
                Some(tok) => old(self).remaining().len() > 0 && tok@ == old(self).remaining()[0]
                    && final(self).remaining() == old(self).remaining().skip(1),
            },
    {
        if self.done {
            return None;
        }
        let ghost input = self.input@;
        let ghost i0 = self.cur_pos as int;
        self.skip_whitespace();
        proof {
            lemma_ws_end(input, i0);
        }
        let start = self.cur_pos;
        let ghost j = start as int;
        if self.ch == 0 {
            self.done = true;
            let tok = Token::new(TokenKind::EOF, TokenSpan::new(start, start, Vec::new()));
            proof {
                assert(tok@ =~= spec_tokens(input, i0)[0]);
                assert(spec_tokens(input, i0).skip(1) =~= Seq::<SpecToken>::empty());
            }
            return Some(tok);
        }
        proof {
            lemma_token_end(input, j);
        }
        let kind: TokenKind;
        if is_letter(self.ch) {
            let w = self.read_ident();
            kind = classify_word(w);
        } else if is_digit(self.ch) {
            let w = self.read_number();
            kind = TokenKind::Number(w);
        } else if self.ch == 34 {
            let r = self.read_string_literal();
            kind = if r.1 {
                TokenKind::StringLiteral(r.0)
            } else {
                TokenKind::Illegal
            };
        } else if self.ch == 61 {
            if self.peek() == 61 {
                self.consume_char();
                self.consume_char();
                kind = TokenKind::Equal;
            } else {
                self.consume_char();
                kind = TokenKind::Assign;
            }
        } else if self.ch == 33 {
            if self.peek() == 61 {
                self.consume_char();
                self.consume_char();
                kind = TokenKind::NotEqual;
            } else {
                self.consume_char();
                kind = TokenKind::Bang;
            }
        } else if self.ch == 62 {
            if self.peek() == 61 {
                self.consume_char();
                self.consume_char();
                kind = TokenKind::GreaterOrEqual;
            } else {
                self.consume_char();
                kind = TokenKind::GreaterThan;
            }
        } else if self.ch == 60 {
            if self.peek() == 61 {
                self.consume_char();
                self.consume_char();
                kind = TokenKind::LessOrEqual;
            } else {
                self.consume_char();
                kind = TokenKind::LessThan;
            }
        } else {
            let b = self.ch;
            self.consume_char();
            kind = match b {
                43 => TokenKind::Plus,
                45 => TokenKind::Dash,
                42 => TokenKind::Asterisk,
                47 => TokenKind::Slash,
                44 => TokenKind::Comma,
                59 => TokenKind::Semicolon,
                40 => TokenKind::LParen,
                41 => TokenKind::RParen,
                123 => TokenKind::LSquirly,
                125 => TokenKind::RSquirly,
                91 => TokenKind::LBracket,
                93 => TokenKind::RBracket,
                _ => TokenKind::Illegal,
            };
        }
        let end = self.cur_pos;
        let lexeme = copy_range(&self.input, start, end);
        let tok = Token::new(kind, TokenSpan::new(start, end, lexeme));
        proof {
            assert(tok@ =~= spec_tokens(input, i0)[0]);
            assert(spec_tokens(input, i0).skip(1) =~= spec_tokens(input, end as int));
        }
        Some(tok)
    }
}

} // verus!

verus! {

/// Every byte in `[lo, hi)` is whitespace.
pub open spec fn all_ws(input: Seq<u8>, lo: int, hi: int) -> bool {
    forall|m: int| lo <= m < hi ==> is_ws_byte(#[trigger] input[m])
}

/// What it means for a token sequence to tile the input from position `i`:
/// every token's cached lexeme is exactly the input's bytes over its span,
/// spans sit in textual order and are separated only by swallowed
/// whitespace, the first token starts at the first non-whitespace byte, and
/// the sequence closes with a zero-length end-of-file token at the input's
/// end. Concatenating the lexemes, with the whitespace gaps restored,
/// therefore reproduces the input exactly: span coverage is total and
/// non-overlapping.
pub open spec fn tokens_tile(input: Seq<u8>, i: int, toks: Seq<SpecToken>) -> bool {
    &&& toks.len() >= 1
    &&& toks.last().kind is EOF
    &&& toks.last().start == input.len()
    &&& toks.last().end == input.len()
    &&& forall|k: int|
        0 <= k < toks.len() ==> 0 <= (#[trigger] toks[k]).start <= toks[k].end <= input.len()
    &&& forall|k: int|
        0 <= k < toks.len() ==> (#[trigger] toks[k]).lexeme == input.subrange(
            toks[k].start,
            toks[k].end,
        )
    &&& toks[0].start == ws_end(input, i)
    &&& all_ws(input, i, toks[0].start)
    &&& forall|k: int|
        0 <= k < toks.len() - 1 ==> (#[trigger] toks[k]).end <= toks[k + 1].start && toks[k
            + 1].start == ws_end(input, toks[k].end) && all_ws(input, toks[k].end, toks[k + 1].start)
}

/// Law: for input made of the supported byte classes (no zero sentinel
/// bytes), the token sequence tiles the input — tokenizing and then
/// concatenating each token's literal span reproduces the original input
/// exactly, except that swallowed whitespace is omitted from the tokens but
/// still advances the spans contiguously.
pub proof fn lemma_tokens_cover(input: Seq<u8>, i: int)
    requires
        0 <= i <= input.len(),
        forall|k: int| 0 <= k < input.len() ==> input[k] != 0,
    ensures
        tokens_tile(input, i, spec_tokens(input, i)),
    decreases input.len() - i,
{
    let toks = spec_tokens(input, i);
    let j = ws_end(input, i);
    lemma_ws_end(input, i);
    if j >= input.len() || input[j] == 0 {
        assert(input.subrange(j, j) =~= Seq::<u8>::empty());
    } else {
        lemma_token_end(input, j);
        let e = token_end(input, j);
        lemma_tokens_cover(input, e);
        lemma_ws_end(input, e);
        let rest = spec_tokens(input, e);
        assert(toks.last() == rest.last());
        assert forall|k: int|
            0 <= k < toks.len() implies 0 <= (#[trigger] toks[k]).start <= toks[k].end
            <= input.len() by {
            if k > 0 {
                assert(toks[k] == rest[k - 1]);
            }
        }
        assert forall|k: int|
            0 <= k < toks.len() implies (#[trigger] toks[k]).lexeme == input.subrange(
            toks[k].start,
            toks[k].end,
        ) by {
            if k > 0 {
                assert(toks[k] == rest[k - 1]);
            }
        }
        assert forall|k: int|
            0 <= k < toks.len() - 1 implies (#[trigger] toks[k]).end <= toks[k + 1].start && toks[k
            + 1].start == ws_end(input, toks[k].end) && all_ws(
            input,
            toks[k].end,
            toks[k + 1].start,
        ) by {
            if k == 0 {
                assert(toks[1] == rest[0]);
            } else {
                assert(toks[k] == rest[k - 1]);
                assert(toks[k + 1] == rest[k]);
            }
        }
    }
}

/// Law: the full tokenization of a zero-free input tiles it from the start.
pub proof fn lemma_tokenize_covers_input(input: Seq<u8>)
    requires
        forall|k: int| 0 <= k < input.len() ==> input[k] != 0,
    ensures
        tokens_tile(input, 0, spec_tokenize(input)),
{
    lemma_tokens_cover(input, 0);
}

} // verus!
