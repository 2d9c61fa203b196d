//! The scanner: holds a cursor over an input buffer of characters and emits
//! one classified token per call of `next_token`, skipping whitespace,
//! disambiguating one- and two-character operators by a single character of
//! lookahead, and recognizing identifier, keyword and integer runs.
//!
//! The behaviour of a single call is captured by the specification function
//! [`scan`], a functional model of the scanning step over the character
//! sequence and the cursor position; `next_token` is proved to return exactly
//! the token `scan` describes and to move the cursor exactly where `scan`
//! says.

use vstd::prelude::*;
use vstd::string::StrSliceExecFns;
use vstd::string::StringExecFns;

use crate::token::Token;
use crate::token::TokenType;

verus! {

/// The characters the scanner skips silently between tokens: space, tab and
/// carriage return. A line feed is deliberately not whitespace here: the
/// scanner is fed one line at a time, so a line feed inside a buffer is an
/// unrecognized character and becomes an `Illegal` token.
pub open spec fn is_space(c: char) -> bool {
    c == ' ' || c == '\t' || c == '\r'
}

/// The decimal digits, the only characters an integer literal is made of.
pub open spec fn is_digit(c: char) -> bool {
    '0' <= c && c <= '9'
}

/// Whether a character has the Unicode `Alphabetic` property. The property
/// depends on the character alone but takes tables to state, so it is left
/// uninterpreted and pinned to `char::is_alphabetic` by the specification
/// below.
pub uninterp spec fn alphabetic(c: char) -> bool;

/// Whether a character may appear in an identifier: exactly the alphabetic
/// characters. That no whitespace character is alphabetic is kept explicit
/// in the conjunction, so the model shows that the whitespace skip and an
/// identifier run never compete for a character.
pub open spec fn is_letter(c: char) -> bool {
    alphabetic(c) && !is_space(c)
}

/// Relies on `char::is_alphabetic`: whether the character has the Unicode
/// `Alphabetic` property, a function of the character alone. Space, tab and
/// carriage return do not have it, so the conjunction in `is_letter` is
/// exact.
pub assume_specification[ char::is_alphabetic ](c: char) -> (r: bool)
    ensures
        r == (alphabetic(c) && !is_space(c)),
;

/// The position of the first non-whitespace character at or after `pos`,
/// or the end of the input if only whitespace remains.
pub open spec fn whitespace_end(input: Seq<char>, pos: int) -> int
    recommends
        0 <= pos <= input.len(),
    decreases input.len() - pos when 0 <= pos <= input.len()
{
    if pos < input.len() && is_space(input[pos]) {
        whitespace_end(input, pos + 1)
    } else {
        pos
    }
}

/// The end of the maximal run of alphabetic characters starting at `pos`.
pub open spec fn letter_end(input: Seq<char>, pos: int) -> int
    recommends
        0 <= pos <= input.len(),
    decreases input.len() - pos when 0 <= pos <= input.len()
{
    if pos < input.len() && is_letter(input[pos]) {
        letter_end(input, pos + 1)
    } else {
        pos
    }
}

/// The end of the maximal run of decimal digits starting at `pos`.
pub open spec fn digit_end(input: Seq<char>, pos: int) -> int
    recommends
        0 <= pos <= input.len(),
    decreases input.len() - pos when 0 <= pos <= input.len()
{
    if pos < input.len() && is_digit(input[pos]) {
        digit_end(input, pos + 1)
    } else {
        pos
    }
}

/// The category of an alphabetic run: one of the seven fixed keywords when
/// the text matches it exactly, otherwise an identifier. There is no prefix
/// matching: only the whole run is compared.
pub open spec fn keyword_type(text: Seq<char>) -> TokenType {
    if text == "fn"@ {
        TokenType::Function
    } else if text == "let"@ {
        TokenType::Let
    } else if text == "true"@ {
        TokenType::True
    } else if text == "false"@ {
        TokenType::False
    } else if text == "if"@ {
        TokenType::If
    } else if text == "else"@ {
        TokenType::Else
    } else if text == "return"@ {
        TokenType::Return
    } else {
        TokenType::Ident
    }
}

/// The text carried by the end-of-input token: a single sentinel character.
pub open spec fn eof_text() -> Seq<char> {
    seq!['\0']
}

/// The functional model of one scanning step: from the input characters and
/// the cursor position, the category and text of the next token and the
/// cursor position after it.
///
/// Classification follows a fixed priority: after skipping whitespace, the
/// two lookahead characters `=` and `!` and the twelve single-character
/// symbols are matched first, then an alphabetic start opens an identifier
/// or keyword run, then a digit start opens an integer run, and any other
/// character is a single `Illegal` token. At or past the end of the input
/// the step yields `EOF` and does not move the cursor.
pub open spec fn scan(input: Seq<char>, pos: int) -> (TokenType, Seq<char>, int)
    recommends
        0 <= pos <= input.len(),
{
    let p = whitespace_end(input, pos);
    if p >= input.len() {
        (TokenType::EOF, eof_text(), p)
    } else {
        let c = input[p];
        if c == '=' {
            if p + 1 < input.len() && input[p + 1] == '=' {
                (TokenType::Equality, input.subrange(p, p + 2), p + 2)
            } else {
                (TokenType::Assign, input.subrange(p, p + 1), p + 1)
            }
        } else if c == '!' {
            if p + 1 < input.len() && input[p + 1] == '=' {
                (TokenType::NotEqual, input.subrange(p, p + 2), p + 2)
            } else {
                (TokenType::Bang, input.subrange(p, p + 1), p + 1)
            }
        } else if c == '>' {
            (TokenType::Gt, input.subrange(p, p + 1), p + 1)
        } else if c == '<' {
            (TokenType::Lt, input.subrange(p, p + 1), p + 1)
        } else if c == ';' {
            (TokenType::Semicolon, input.subrange(p, p + 1), p + 1)
        } else if c == '(' {
            (TokenType::Lparen, input.subrange(p, p + 1), p + 1)
        } else if c == ')' {
            (TokenType::Rparen, input.subrange(p, p + 1), p + 1)
        } else if c == ',' {
            (TokenType::Comma, input.subrange(p, p + 1), p + 1)
        } else if c == '+' {
            (TokenType::Plus, input.subrange(p, p + 1), p + 1)
        } else if c == '-' {
            (TokenType::Minus, input.subrange(p, p + 1), p + 1)
        } else if c == '*' {
            (TokenType::Asterisk, input.subrange(p, p + 1), p + 1)
        } else if c == '/' {
            (TokenType::Slash, input.subrange(p, p + 1), p + 1)
        } else if c == '{' {
            (TokenType::Lbrace, input.subrange(p, p + 1), p + 1)
        } else if c == '}' {
            (TokenType::Rbrace, input.subrange(p, p + 1), p + 1)
        } else if is_letter(c) {
            let e = letter_end(input, p);
            (keyword_type(input.subrange(p, e)), input.subrange(p, e), e)
        } else if is_digit(c) {
            let e = digit_end(input, p);
            (TokenType::Int, input.subrange(p, e), e)
        } else {
            (TokenType::Illegal, input.subrange(p, p + 1), p + 1)
        }
    }
}

/// The scanner. It owns the input buffer and a cursor that only moves
/// forward; each `next_token` call classifies the characters under the
/// cursor and advances past them.
pub struct Lexer {
    input: String,
    position: usize,
    length: usize,
}

impl Lexer {
    /// The input as a sequence of characters; positions index into it.
    pub closed spec fn chars(&self) -> Seq<char> {
        self.input@
    }

    /// The cursor: the index of the next character to be examined.
    pub closed spec fn pos(&self) -> int {
        self.position as int
    }

    /// Well-formedness: the cursor never passes the end of the input, and
    /// the cached character count is accurate.
    pub closed spec fn wf(&self) -> bool {
        self.position <= self.length && self.length == self.input@.len()
    }

    /// A scanner over `input`, ready to emit tokens from position zero.
    pub fn new(input: String) -> (lexer: Lexer)
        ensures
            lexer.wf(),
            lexer.chars() == input@,
            lexer.pos() == 0,
    {
        let length = input.as_str().unicode_len();
        Lexer { input, position: 0, length }
    }

    /// The character under the cursor.
    fn current(&self) -> (c: char)
        requires
            self.wf(),
            self.pos() < self.chars().len(),
        ensures
            c == self.chars()[self.pos()],
    {
        self.input.as_str().get_char(self.position)
    }

    /// One character of lookahead: the character just after the cursor, or
    /// the sentinel when the cursor is on the last character or past it.
    fn peak(&self) -> (c: char)
        requires
            self.wf(),
            self.pos() < self.chars().len(),
        ensures
            c == (if self.pos() + 1 < self.chars().len() {
                self.chars()[self.pos() + 1]
            } else {
                '\0'
            }),
    {
        if self.position + 1 < self.length {
            self.input.as_str().get_char(self.position + 1)
        } else {
            '\0'
        }
    }

    /// The input text between two character positions, as an owned string.
    fn text_range(&self, from: usize, to: usize) -> (s: String)
        requires
            self.wf(),
            from <= to <= self.chars().len(),
        ensures
            s@ == self.chars().subrange(from as int, to as int),
    {
        self.input.as_str().substring_char(from, to).to_owned()
    }

    /// Advance the cursor past any whitespace under it.
    fn eat_whitespace(&mut self)
        requires
            old(self).wf(),
        ensures
            final(self).wf(),
            final(self).chars() == old(self).chars(),
            final(self).pos() == whitespace_end(old(self).chars(), old(self).pos()),
    {
        let ghost orig: Seq<char> = self.chars();
        let ghost start: int = self.pos();
        loop
            invariant
                self.wf(),
                self.chars() == orig,
                start <= self.pos(),
                whitespace_end(orig, start) == whitespace_end(orig, self.pos()),
            ensures
                self.wf(),
                self.chars() == orig,
                self.pos() == whitespace_end(orig, start),
            decreases self.chars().len() - self.pos(),
        {
            if self.position >= self.length {
                break;
            }
            let c = self.current();
            if !(c == ' ' || c == '\t' || c == '\r') {
                break;
            }
            self.position = self.position + 1;
        }
    }

    /// Emit a token for the single character under the cursor and advance
    /// past it.
    fn symbol(&mut self, t_type: TokenType) -> (token: Token)
        requires
            old(self).wf(),
            old(self).pos() < old(self).chars().len(),
        ensures
            final(self).wf(),
            final(self).chars() == old(self).chars(),
            final(self).pos() == old(self).pos() + 1,
            token.t_type == t_type,
            token.literal@ == old(self).chars().subrange(old(self).pos(), old(self).pos() + 1),
    {
        let literal = self.text_range(self.position, self.position + 1);
        self.position = self.position + 1;
        Token { t_type, literal }
    }

    /// Emit a token for the character under the cursor and the one after it,
    /// and advance past both.
    fn symbol_pair(&mut self, t_type: TokenType) -> (token: Token)
        requires
            old(self).wf(),
            old(self).pos() + 1 < old(self).chars().len(),
        ensures
            final(self).wf(),
            final(self).chars() == old(self).chars(),
            final(self).pos() == old(self).pos() + 2,
            token.t_type == t_type,
            token.literal@ == old(self).chars().subrange(old(self).pos(), old(self).pos() + 2),
    {
        let literal = self.text_range(self.position, self.position + 2);
        self.position = self.position + 2;
        Token { t_type, literal }
    }

    /// The next token of the input. Whitespace before it is skipped; the
    /// cursor ends just past the token's last character and never moves
    /// backward. Once the input is exhausted every further call returns the
    /// end-of-input token and leaves the cursor in place. No input makes
    /// this operation fail: an unrecognized character is returned as an
    /// `Illegal` token rather than reported as an error.
    pub fn next_token(&mut self) -> (token: Token)
        requires
            old(self).wf(),
        ensures
            final(self).wf(),
            final(self).chars() == old(self).chars(),
            token.t_type == scan(old(self).chars(), old(self).pos()).0,
            token.literal@ == scan(old(self).chars(), old(self).pos()).1,
            final(self).pos() == scan(old(self).chars(), old(self).pos()).2,
    {
        self.eat_whitespace();
        if self.position >= self.length {
            let literal = String::from_str("\0");
            proof {
                reveal_strlit("\0");
                assert(literal@ =~= eof_text());
            }
            return Token { t_type: TokenType::EOF, literal };
        }
        let c = self.current();
        if c == '=' {
            if self.peak() == '=' {
                self.symbol_pair(TokenType::Equality)
            } else {
                self.symbol(TokenType::Assign)
            }
        } else if c == '!' {
            if self.peak() == '=' {
                self.symbol_pair(TokenType::NotEqual)
            } else {
                self.symbol(TokenType::Bang)
            }
        } else if c == '>' {
            self.symbol(TokenType::Gt)
        } else if c == '<' {
            self.symbol(TokenType::Lt)
        } else if c == ';' {
            self.symbol(TokenType::Semicolon)
        } else if c == '(' {
            self.symbol(TokenType::Lparen)
        } else if c == ')' {
            self.symbol(TokenType::Rparen)
        } else if c == ',' {
            self.symbol(TokenType::Comma)
        } else if c == '+' {
            self.symbol(TokenType::Plus)
        } else if c == '-' {
            self.symbol(TokenType::Minus)
        } else if c == '*' {
            self.symbol(TokenType::Asterisk)
        } else if c == '/' {
            self.symbol(TokenType::Slash)
        } else if c == '{' {
            self.symbol(TokenType::Lbrace)
        } else if c == '}' {
            self.symbol(TokenType::Rbrace)
        } else if c.is_alphabetic() {
            let literal = self.read_identifier();
            let t_type = lookup_keyword(&literal);
            Token { t_type, literal }
        } else if '0' <= c && c <= '9' {
            let literal = self.read_number();
            Token { t_type: TokenType::Int, literal }
        } else {
            self.symbol(TokenType::Illegal)
        }
    }

    /// Consume the maximal run of alphabetic characters under the cursor
    /// and return its text.
    fn read_identifier(&mut self) -> (s: String)
        requires
            old(self).wf(),
            old(self).pos() < old(self).chars().len(),
            is_letter(old(self).chars()[old(self).pos()]),
        ensures
            final(self).wf(),
            final(self).chars() == old(self).chars(),
            final(self).pos() == letter_end(old(self).chars(), old(self).pos()),
            s@ == old(self).chars().subrange(old(self).pos(), final(self).pos()),
    {
        let ghost orig: Seq<char> = self.chars();
        let start = self.position;
        loop
            invariant
                self.wf(),
                self.chars() == orig,
                start <= self.position,
                letter_end(orig, start as int) == letter_end(orig, self.pos()),
            ensures
                self.wf(),
                self.chars() == orig,
                start <= self.position,
                self.pos() == letter_end(orig, start as int),
            decreases self.chars().len() - self.pos(),
        {
            if self.position >= self.length {
                break;
            }
            let c = self.current();
            if !c.is_alphabetic() {
                break;
            }
            self.position = self.position + 1;
        }
        self.text_range(start, self.position)
    }

    /// Consume the maximal run of decimal digits under the cursor and
    /// return its text.
    fn read_number(&mut self) -> (s: String)
        requires
            old(self).wf(),
            old(self).pos() < old(self).chars().len(),
            is_digit(old(self).chars()[old(self).pos()]),
        ensures
            final(self).wf(),
            final(self).chars() == old(self).chars(),
            final(self).pos() == digit_end(old(self).chars(), old(self).pos()),
            s@ == old(self).chars().subrange(old(self).pos(), final(self).pos()),
    {
        let ghost orig: Seq<char> = self.chars();
        let start = self.position;
        loop
            invariant
                self.wf(),
                self.chars() == orig,
                start <= self.position,
                digit_end(orig, start as int) == digit_end(orig, self.pos()),
            ensures
                self.wf(),
                self.chars() == orig,
                start <= self.position,
                self.pos() == digit_end(orig, start as int),
            decreases self.chars().len() - self.pos(),
        {
            if self.position >= self.length {
                break;
            }
            let c = self.current();
            if !('0' <= c && c <= '9') {
                break;
            }
            self.position = self.position + 1;
        }
        self.text_range(start, self.position)
    }
}

/// The category of an alphabetic run: the matching keyword, or `Ident`.
fn lookup_keyword(text: &String) -> (t: TokenType)
    ensures
        t == keyword_type(text@),
{
    if *text == String::from_str("fn") {
        TokenType::Function
    } else if *text == String::from_str("let") {
        TokenType::Let
    } else if *text == String::from_str("true") {
        TokenType::True
    } else if *text == String::from_str("false") {
        TokenType::False
    } else if *text == String::from_str("if") {
        TokenType::If
    } else if *text == String::from_str("else") {
        TokenType::Else
    } else if *text == String::from_str("return") {
        TokenType::Return
    } else {
        TokenType::Ident
    }
}

/// Skipping whitespace stays within the input and never moves backward.
pub proof fn lemma_whitespace_end_bounds(input: Seq<char>, pos: int)
    requires
        0 <= pos <= input.len(),
    ensures
        pos <= whitespace_end(input, pos) <= input.len(),
    decreases input.len() - pos,
{
    if pos < input.len() && is_space(input[pos]) {
        lemma_whitespace_end_bounds(input, pos + 1);
    }
}

/// An alphabetic run stays within the input and never moves backward.
pub proof fn lemma_letter_end_bounds(input: Seq<char>, pos: int)
    requires
        0 <= pos <= input.len(),
    ensures
        pos <= letter_end(input, pos) <= input.len(),
    decreases input.len() - pos,
{
    if pos < input.len() && is_letter(input[pos]) {
        lemma_letter_end_bounds(input, pos + 1);
    }
}

/// A digit run stays within the input and never moves backward.
pub proof fn lemma_digit_end_bounds(input: Seq<char>, pos: int)
    requires
        0 <= pos <= input.len(),
    ensures
        pos <= digit_end(input, pos) <= input.len(),
    decreases input.len() - pos,
{
    if pos < input.len() && is_digit(input[pos]) {
        lemma_digit_end_bounds(input, pos + 1);
    }
}

/// Totality of a single step. Scanning never moves the cursor backward or
/// past the end of the input, makes strict progress whenever characters
/// remain, yields the end-of-input token exactly when nothing but whitespace
/// remains, and at the end of the input it is an idempotent terminal state:
/// the token is `EOF` and the cursor stays where it is.
pub proof fn lemma_scan_totality(input: Seq<char>, pos: int)
    requires
        0 <= pos <= input.len(),
    ensures
        pos <= scan(input, pos).2 <= input.len(),
        pos < input.len() ==> pos < scan(input, pos).2,
        scan(input, pos).0 == TokenType::EOF <==> whitespace_end(input, pos) == input.len(),
        pos == input.len() ==> scan(input, pos).0 == TokenType::EOF && scan(input, pos).2 == pos,
{
    lemma_whitespace_end_bounds(input, pos);
    let p = whitespace_end(input, pos);
    if p < input.len() {
        lemma_letter_end_bounds(input, p + 1);
        lemma_digit_end_bounds(input, p + 1);
    }
}

/// The cursor after scanning `count` tokens, starting from `pos`.
pub open spec fn scan_pos(input: Seq<char>, pos: int, count: nat) -> int
    decreases count,
{
    if count == 0 {
        pos
    } else {
        scan_pos(input, scan(input, pos).2, (count - 1) as nat)
    }
}

/// Totality of the whole scan: from any position, after at most as many
/// calls as there are characters left, every further call yields the
/// end-of-input token.
pub proof fn lemma_scan_reaches_eof(input: Seq<char>, pos: int, count: nat)
    requires
        0 <= pos <= input.len(),
        count >= input.len() - pos,
    ensures
        0 <= scan_pos(input, pos, count) <= input.len(),
        scan(input, scan_pos(input, pos, count)).0 == TokenType::EOF,
    decreases count,
{
    lemma_scan_totality(input, pos);
    if count == 0 {
        assert(pos == input.len());
    } else {
        lemma_scan_reaches_eof(input, scan(input, pos).2, (count - 1) as nat);
    }
}

/// Text fidelity: every token other than end-of-input carries exactly the
/// characters consumed to produce it — the input between the end of the
/// skipped whitespace and the cursor position after the token.
pub proof fn lemma_scan_text_fidelity(input: Seq<char>, pos: int)
    requires
        0 <= pos <= input.len(),
    ensures
        scan(input, pos).0 != TokenType::EOF ==> scan(input, pos).1 == input.subrange(
            whitespace_end(input, pos),
            scan(input, pos).2,
        ),
{
    lemma_whitespace_end_bounds(input, pos);
}

/// Every character passed over by the whitespace skip is whitespace.
pub proof fn lemma_whitespace_end_skips_only_whitespace(input: Seq<char>, pos: int)
    requires
        0 <= pos <= input.len(),
    ensures
        forall|i: int| pos <= i < whitespace_end(input, pos) ==> is_space(input[i]),
    decreases input.len() - pos,
{
    if pos < input.len() && is_space(input[pos]) {
        lemma_whitespace_end_skips_only_whitespace(input, pos + 1);
    }
}

/// The whitespace skip stops at the first non-whitespace character.
pub proof fn lemma_whitespace_end_stops(input: Seq<char>, pos: int)
    requires
        0 <= pos <= input.len(),
    ensures
        whitespace_end(input, pos) < input.len() ==> !is_space(
            input[whitespace_end(input, pos)],
        ),
    decreases input.len() - pos,
{
    if pos < input.len() && is_space(input[pos]) {
        lemma_whitespace_end_stops(input, pos + 1);
    }
}

/// The texts of all tokens emitted from `pos` until the input is exhausted,
/// concatenated in order. The end-of-input token's sentinel text is not part
/// of the concatenation.
pub open spec fn token_texts(input: Seq<char>, pos: int) -> Seq<char>
    recommends
        0 <= pos <= input.len(),
    decreases input.len() - pos when 0 <= pos <= input.len() via token_texts_decreases
{
    if scan(input, pos).0 == TokenType::EOF {
        Seq::empty()
    } else {
        scan(input, pos).1 + token_texts(input, scan(input, pos).2)
    }
}

#[via_fn]
proof fn token_texts_decreases(input: Seq<char>, pos: int) {
    lemma_scan_totality(input, pos);
}

/// Every character of an alphabetic run is a letter.
proof fn lemma_letter_run_is_letters(input: Seq<char>, pos: int)
    requires
        0 <= pos <= input.len(),
    ensures
        forall|i: int| pos <= i < letter_end(input, pos) ==> is_letter(#[trigger] input[i]),
    decreases input.len() - pos,
{
    if pos < input.len() && is_letter(input[pos]) {
        lemma_letter_run_is_letters(input, pos + 1);
    }
}

/// Every character of a digit run is a digit.
proof fn lemma_digit_run_is_digits(input: Seq<char>, pos: int)
    requires
        0 <= pos <= input.len(),
    ensures
        forall|i: int| pos <= i < digit_end(input, pos) ==> is_digit(#[trigger] input[i]),
    decreases input.len() - pos,
{
    if pos < input.len() && is_digit(input[pos]) {
        lemma_digit_run_is_digits(input, pos + 1);
    }
}

/// A filter whose predicate holds of every element keeps the sequence.
proof fn lemma_filter_keeps_all(s: Seq<char>, pred: spec_fn(char) -> bool)
    requires
        forall|i: int| 0 <= i < s.len() ==> pred(#[trigger] s[i]),
    ensures
        s.filter(pred) == s,
    decreases s.len(),
{
    reveal(Seq::filter);
    if s.len() == 0 {
        assert(s.filter(pred) =~= s);
    } else {
        assert forall|i: int| 0 <= i < s.drop_last().len() implies pred(
            #[trigger] s.drop_last()[i],
        ) by {
            assert(s.drop_last()[i] == s[i]);
        }
        lemma_filter_keeps_all(s.drop_last(), pred);
        assert(pred(s.last()));
        assert(s.drop_last().push(s.last()) =~= s);
    }
}

/// A filter whose predicate holds of no element drops everything.
proof fn lemma_filter_drops_all(s: Seq<char>, pred: spec_fn(char) -> bool)
    requires
        forall|i: int| 0 <= i < s.len() ==> !pred(#[trigger] s[i]),
    ensures
        s.filter(pred) == Seq::<char>::empty(),
    decreases s.len(),
{
    reveal(Seq::filter);
    if s.len() == 0 {
        assert(s.filter(pred) =~= Seq::<char>::empty());
    } else {
        assert forall|i: int| 0 <= i < s.drop_last().len() implies !pred(
            #[trigger] s.drop_last()[i],
        ) by {
            assert(s.drop_last()[i] == s[i]);
        }
        lemma_filter_drops_all(s.drop_last(), pred);
        assert(!pred(s.last()));
    }
}

/// Reconstruction: scanned to exhaustion, the concatenated texts of the
/// emitted tokens are exactly the input's significant characters — the
/// characters left when whitespace is removed — in their original order.
pub proof fn lemma_reconstruction(input: Seq<char>, pos: int)
    requires
        0 <= pos <= input.len(),
    ensures
        token_texts(input, pos) == input.subrange(pos, input.len() as int).filter(
            |c: char| !is_space(c),
        ),
    decreases input.len() - pos,
{
    let pred = |c: char| !is_space(c);
    let len = input.len() as int;
    let p = whitespace_end(input, pos);
    lemma_whitespace_end_bounds(input, pos);
    lemma_whitespace_end_skips_only_whitespace(input, pos);
    lemma_whitespace_end_stops(input, pos);
    lemma_scan_totality(input, pos);
    let ws = input.subrange(pos, p);
    assert forall|i: int| 0 <= i < ws.len() implies !pred(#[trigger] ws[i]) by {
        assert(ws[i] == input[pos + i]);
    }
    lemma_filter_drops_all(ws, pred);
    if scan(input, pos).0 == TokenType::EOF {
        assert(input.subrange(pos, len) =~= ws);
    } else {
        let e = scan(input, pos).2;
        lemma_letter_end_bounds(input, p);
        lemma_digit_end_bounds(input, p);
        assert(p <= e <= len);
        let text = input.subrange(p, e);
        lemma_scan_text_fidelity(input, pos);
        assert forall|i: int| p <= i < e implies !is_space(#[trigger] input[i]) by {
            let c = input[p];
            if c == '=' || c == '!' {
                assert(i == p || input[i] == '=');
            } else if c == '>' || c == '<' || c == ';' || c == '(' || c == ')' || c == ',' || c
                == '+' || c == '-' || c == '*' || c == '/' || c == '{' || c == '}' {
                assert(i == p);
            } else if is_letter(c) {
                lemma_letter_run_is_letters(input, p);
            } else if is_digit(c) {
                lemma_digit_run_is_digits(input, p);
            } else {
                assert(i == p);
            }
        }
        assert forall|i: int| 0 <= i < text.len() implies pred(#[trigger] text[i]) by {
            assert(text[i] == input[p + i]);
        }
        lemma_filter_keeps_all(text, pred);
        lemma_reconstruction(input, e);
        let rest = input.subrange(e, len);
        assert(input.subrange(pos, len) =~= ws + text + rest);
        Seq::filter_distributes_over_add(ws + text, rest, pred);
        Seq::filter_distributes_over_add(ws, text, pred);
        assert((ws + text + rest).filter(pred) =~= text + rest.filter(pred));
    }
}

} // verus!
