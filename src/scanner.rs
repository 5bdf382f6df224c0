//! The scanner: a cursor over the input characters, one sub-scanner for each
//! kind of token that spans several characters, and the dispatch loop.
use vstd::prelude::*;
use vstd::std_specs::iter::IteratorSpec;
use crate::grammar::{
    count_dots, decimal_value, is_digit, is_word_start, keyword, lemma_prepend_all_push, lemma_scan_advances, lex,
    lex_from, numeral_end, numeral_token, prepend, prepend_all, quote_index, scan, word_end,
    word_token, Scan,
};
use crate::token::{token_result_view, tokens_result_view, LexicalError, Token, TokenView};

verus! {

/// A position over the characters of the input, with one character of
/// lookahead.
pub struct Cursor {
    chars: Vec<char>,
    pos: usize,
}

impl Cursor {
    /// The characters scanned over.
    pub closed spec fn text(&self) -> Seq<char> {
        self.chars@
    }

    /// The index of the next character to read.
    pub closed spec fn position(&self) -> int {
        self.pos as int
    }

    pub open spec fn wf(&self) -> bool {
        0 <= self.position() <= self.text().len() <= usize::MAX
    }

    /// A cursor at the start of `input`.
    pub fn new(input: &str) -> (r: Cursor)
        ensures
            r.wf(),
            r.text() == input@,
            r.position() == 0,
    {
        let mut chars: Vec<char> = Vec::new();
        let mut iter = input.chars();
        loop
            invariant
                chars@ + iter.remaining() == input@,
                iter.obeys_prophetic_iter_laws(),
                iter.decrease() is Some,
            ensures
                chars@ == input@,
            decreases iter.decrease()->0,
        {
            let ghost before = iter.remaining();
            match iter.next() {
                Some(c) => {
                    chars.push(c);
                    assert(chars@ + iter.remaining() =~= input@) by {
                        assert(before == seq![c] + iter.remaining());
                    }
                },
                None => {
                    assert(chars@ =~= input@);
                    break;
                },
            }
        }
        assert(chars@.len() == chars.len());
        Cursor { chars, pos: 0 }
    }

    /// The next character, without consuming it.
    pub fn peek(&self) -> (r: Option<char>)
        requires
            self.wf(),
        ensures
            self.position() < self.text().len() ==> r == Some(self.text()[self.position()]),
            self.position() == self.text().len() ==> r is None,
    {
        if self.pos < self.chars.len() {
            Some(self.chars[self.pos])
        } else {
            None
        }
    }

    /// Consumes the next character.
    pub fn advance(&mut self)
        requires
            old(self).wf(),
            old(self).position() < old(self).text().len(),
        ensures
            final(self).wf(),
            final(self).text() == old(self).text(),
            final(self).position() == old(self).position() + 1,
    {
        self.pos = self.pos + 1;
    }

    /// The characters from `start` up to the cursor, as a string.
    fn text_since(&self, start: usize) -> (r: String)
        requires
            self.wf(),
            start <= self.position(),
        ensures
            r@ == self.text().subrange(start as int, self.position()),
    {
        let mut r = String::new();
        let mut k = start;
        while k < self.pos
            invariant
                self.wf(),
                start <= k <= self.pos,
                r@ == self.chars@.subrange(start as int, k as int),
            decreases self.pos - k,
        {
            r.push(self.chars[k]);
            k = k + 1;
            assert(r@ =~= self.chars@.subrange(start as int, k as int));
        }
        r
    }

    /// The keyword marker of the characters from `start` up to the cursor, if
    /// they spell a keyword.
    fn keyword_since(&self, start: usize) -> (r: Option<Token>)
        requires
            self.wf(),
            start <= self.position(),
        ensures
            r matches Some(t) ==> keyword(self.text().subrange(start as int, self.position())) == Some(t@),
            r is None ==> keyword(self.text().subrange(start as int, self.position())) is None,
    {
        let ghost w = self.chars@.subrange(start as int, self.pos as int);
        let n = self.pos - start;
        let c = &self.chars;
        assert(forall|k: int| 0 <= k < w.len() ==> w[k] == c@[start + k]);
        if n == 2 && c[start] == 'f' && c[start + 1] == 'n' {
            assert(w =~= seq!['f', 'n']);
            Some(Token::Fn)
        } else if n == 3 && c[start] == 'v' && c[start + 1] == 'a' && c[start + 2] == 'r' {
            assert(w =~= seq!['v', 'a', 'r']);
            Some(Token::Var)
        } else if n == 6
            && c[start] == 's'
            && c[start + 1] == 't'
            && c[start + 2] == 'r'
            && c[start + 3] == 'u'
            && c[start + 4] == 'c'
            && c[start + 5] == 't'
        {
            assert(w =~= seq!['s', 't', 'r', 'u', 'c', 't']);
            Some(Token::Struct)
        } else if n == 2 && c[start] == 'i' && c[start + 1] == 'f' {
            assert(w =~= seq!['i', 'f']);
            Some(Token::If)
        } else if n == 4
            && c[start] == 'e'
            && c[start + 1] == 'l'
            && c[start + 2] == 's'
            && c[start + 3] == 'e'
        {
            assert(w =~= seq!['e', 'l', 's', 'e']);
            Some(Token::Else)
        } else if n == 5
            && c[start] == 'w'
            && c[start + 1] == 'h'
            && c[start + 2] == 'i'
            && c[start + 3] == 'l'
            && c[start + 4] == 'e'
        {
            assert(w =~= seq!['w', 'h', 'i', 'l', 'e']);
            Some(Token::While)
        } else if n == 3 && c[start] == 'f' && c[start + 1] == 'o' && c[start + 2] == 'r' {
            assert(w =~= seq!['f', 'o', 'r']);
            Some(Token::For)
        } else if n == 6
            && c[start] == 'r'
            && c[start + 1] == 'e'
            && c[start + 2] == 't'
            && c[start + 3] == 'u'
            && c[start + 4] == 'r'
            && c[start + 5] == 'n'
        {
            assert(w =~= seq!['r', 'e', 't', 'u', 'r', 'n']);
            Some(Token::Return)
        } else {
            assert(w != seq!['f', 'n']) by {
                if w == seq!['f', 'n'] {
                    assert(w.len() == 2 && w[0] == 'f' && w[1] == 'n');
                }
            }
            assert(w != seq!['v', 'a', 'r']) by {
                if w == seq!['v', 'a', 'r'] {
                    assert(w.len() == 3 && w[0] == 'v' && w[1] == 'a' && w[2] == 'r');
                }
            }
            assert(w != seq!['s', 't', 'r', 'u', 'c', 't']) by {
                if w == seq!['s', 't', 'r', 'u', 'c', 't'] {
                    assert(
                        w.len() == 6
                        && w[0] == 's'
                        && w[1] == 't'
                        && w[2] == 'r'
                        && w[3] == 'u'
                        && w[4] == 'c'
                        && w[5] == 't'
                    );
                }
            }
            assert(w != seq!['i', 'f']) by {
                if w == seq!['i', 'f'] {
                    assert(w.len() == 2 && w[0] == 'i' && w[1] == 'f');
                }
            }
            assert(w != seq!['e', 'l', 's', 'e']) by {
                if w == seq!['e', 'l', 's', 'e'] {
                    assert(
                        w.len() == 4
                        && w[0] == 'e'
                        && w[1] == 'l'
                        && w[2] == 's'
                        && w[3] == 'e'
                    );
                }
            }
            assert(w != seq!['w', 'h', 'i', 'l', 'e']) by {
                if w == seq!['w', 'h', 'i', 'l', 'e'] {
                    assert(
                        w.len() == 5
                        && w[0] == 'w'
                        && w[1] == 'h'
                        && w[2] == 'i'
                        && w[3] == 'l'
                        && w[4] == 'e'
                    );
                }
            }
            assert(w != seq!['f', 'o', 'r']) by {
                if w == seq!['f', 'o', 'r'] {
                    assert(w.len() == 3 && w[0] == 'f' && w[1] == 'o' && w[2] == 'r');
                }
            }
            assert(w != seq!['r', 'e', 't', 'u', 'r', 'n']) by {
                if w == seq!['r', 'e', 't', 'u', 'r', 'n'] {
                    assert(
                        w.len() == 6
                        && w[0] == 'r'
                        && w[1] == 'e'
                        && w[2] == 't'
                        && w[3] == 'u'
                        && w[4] == 'r'
                        && w[5] == 'n'
                    );
                }
            }
            None
        }
    }
}

} // verus!

verus! {

/// Scans a word that starts with a letter and runs over letters,
/// digits and underscores: its keyword marker, or an identifier that carries
/// the word verbatim.
pub fn tokenize_identifier(cursor: &mut Cursor) -> (r: Token)
    requires
        old(cursor).wf(),
        old(cursor).position() < old(cursor).text().len(),
        is_word_start(old(cursor).text()[old(cursor).position()]),
    ensures
        final(cursor).wf(),
        final(cursor).text() == old(cursor).text(),
        final(cursor).position() == word_end(old(cursor).text(), old(cursor).position() + 1),
        r@ == word_token(old(cursor).text().subrange(old(cursor).position(), final(cursor).position())),
{
    let ghost s = cursor.text();
    let start = cursor.pos;
    cursor.advance();
    loop
        invariant
            cursor.wf(),
            cursor.text() == s,
            start < cursor.position(),
            word_end(s, start + 1) == word_end(s, cursor.position()),
        ensures
            cursor.wf(),
            cursor.text() == s,
            start < cursor.position(),
            word_end(s, start + 1) == cursor.position(),
        decreases s.len() - cursor.position(),
    {
        match cursor.peek() {
            Some(ch) => {
                if ch.is_alphabetic() || ('0' <= ch && ch <= '9') || ch == '_' {
                    cursor.advance();
                } else {
                    break;
                }
            },
            None => break,
        }
    }
    let word = cursor.text_since(start);
    match cursor.keyword_since(start) {
        Some(k) => k,
        None => Token::Identifier(word),
    }
}

/// Scans a run of digits and dots that starts with a digit: an integer
/// literal when it holds no dot and its value fits in an `i32`, a float
/// literal carrying the numeral when it holds exactly one dot.
pub fn tokenize_number(cursor: &mut Cursor) -> (r: Result<Token, LexicalError>)
    requires
        old(cursor).wf(),
        old(cursor).position() < old(cursor).text().len(),
        is_digit(old(cursor).text()[old(cursor).position()]),
    ensures
        final(cursor).wf(),
        final(cursor).text() == old(cursor).text(),
        final(cursor).position() == numeral_end(old(cursor).text(), old(cursor).position() + 1),
        token_result_view(r) == numeral_token(
            old(cursor).text().subrange(old(cursor).position(), final(cursor).position()),
        ),
{
    let ghost s = cursor.text();
    let start = cursor.pos;
    let mut dots: usize = 0;
    let mut value: u32 = 0;
    let mut too_large = false;
    loop
        invariant
            cursor.wf(),
            cursor.text() == s,
            start <= cursor.position(),
            numeral_end(s, start as int) == numeral_end(s, cursor.position()),
            dots <= cursor.position() - start,
            value <= i32::MAX,
            ({
                let w = s.subrange(start as int, cursor.position());
                &&& dots == count_dots(w)
                &&& dots == 0 ==> (too_large <==> decimal_value(w) > i32::MAX)
                &&& dots == 0 && !too_large ==> value == decimal_value(w)
            }),
        ensures
            cursor.wf(),
            cursor.text() == s,
            start <= cursor.position(),
            numeral_end(s, start as int) == cursor.position(),
            value <= i32::MAX,
            ({
                let w = s.subrange(start as int, cursor.position());
                &&& dots == count_dots(w)
                &&& dots == 0 ==> (too_large <==> decimal_value(w) > i32::MAX)
                &&& dots == 0 && !too_large ==> value == decimal_value(w)
            }),
        decreases s.len() - cursor.position(),
    {
        let ghost w = s.subrange(start as int, cursor.position());
        match cursor.peek() {
            Some(ch) => {
                if '0' <= ch && ch <= '9' {
                    let digit = (ch as u32) - ('0' as u32);
                    if !too_large {
                        let next = value as u64 * 10 + digit as u64;
                        if next > i32::MAX as u64 {
                            too_large = true;
                        } else {
                            value = next as u32;
                        }
                    }
                    cursor.advance();
                } else if ch == '.' {
                    dots = dots + 1;
                    cursor.advance();
                } else {
                    break;
                }
                assert(s.subrange(start as int, cursor.position()).drop_last() =~= w);
            },
            None => break,
        }
    }
    if dots == 0 {
        if too_large {
            Err(LexicalError::IntegerOutOfRange)
        } else {
            Ok(Token::IntegerLiteral(value as i32))
        }
    } else if dots == 1 {
        Ok(Token::FloatLiteral(cursor.text_since(start)))
    } else {
        Err(LexicalError::MalformedNumber)
    }
}

/// Scans a string literal: the characters after the opening `"` up to the
/// next `"`, taken verbatim; the closing `"` is consumed when there is one,
/// and an unterminated literal ends with the input.
pub fn tokenize_string(cursor: &mut Cursor) -> (r: Token)
    requires
        old(cursor).wf(),
        old(cursor).position() < old(cursor).text().len(),
        old(cursor).text()[old(cursor).position()] == '"',
    ensures
        final(cursor).wf(),
        final(cursor).text() == old(cursor).text(),
        ({
            let s = old(cursor).text();
            let j = quote_index(s, old(cursor).position() + 1);
            &&& r@ == TokenView::StringLiteral(s.subrange(old(cursor).position() + 1, j))
            &&& final(cursor).position() == if j < s.len() { j + 1 } else { j }
        }),
{
    let ghost s = cursor.text();
    cursor.advance();
    let start = cursor.pos;
    loop
        invariant
            cursor.wf(),
            cursor.text() == s,
            start <= cursor.position(),
            quote_index(s, start as int) == quote_index(s, cursor.position()),
        ensures
            cursor.wf(),
            cursor.text() == s,
            start <= cursor.position(),
            quote_index(s, start as int) == cursor.position(),
        decreases s.len() - cursor.position(),
    {
        match cursor.peek() {
            Some(ch) => {
                if ch == '"' {
                    break;
                }
                cursor.advance();
            },
            None => break,
        }
    }
    let text = cursor.text_since(start);
    if cursor.peek().is_some() {
        cursor.advance();
    }
    Token::StringLiteral(text)
}

/// Scans a character literal: an opening `'`, exactly one character, and a
/// closing `'`.
pub fn tokenize_char(cursor: &mut Cursor) -> (r: Result<Token, LexicalError>)
    requires
        old(cursor).wf(),
        old(cursor).position() < old(cursor).text().len(),
        old(cursor).text()[old(cursor).position()] == '\'',
    ensures
        final(cursor).wf(),
        final(cursor).text() == old(cursor).text(),
        ({
            let s = old(cursor).text();
            let i = old(cursor).position();
            &&& final(cursor).position() == if i + 3 <= s.len() { i + 3 } else { s.len() as int }
            &&& if i + 2 < s.len() && s[i + 2] == '\'' {
                token_result_view(r) == Ok::<TokenView, LexicalError>(TokenView::CharLiteral(s[i + 1]))
            } else {
                r == Err::<Token, LexicalError>(LexicalError::InvalidCharacterLiteral)
            }
        }),
{
    cursor.advance();
    match cursor.peek() {
        None => Err(LexicalError::InvalidCharacterLiteral),
        Some(ch) => {
            cursor.advance();
            let closing = cursor.peek();
            if closing.is_some() {
                cursor.advance();
            }
            if closing == Some('\'') {
                Ok(Token::CharLiteral(ch))
            } else {
                Err(LexicalError::InvalidCharacterLiteral)
            }
        },
    }
}

} // verus!

verus! {

/// How a step of the dispatch loop agrees with the grammar: a token emitted,
/// nothing emitted, or an error, with the cursor left where the grammar
/// goes on.
spec fn agrees(step: Result<Option<Token>, LexicalError>, expected: Scan, next: int) -> bool {
    match step {
        Ok(Some(t)) => expected == Scan::Emit { token: t@, next },
        Ok(None) => expected == Scan::Skip { next },
        Err(e) => expected == Scan::Fail { error: e },
    }
}

/// Turns source text into its tokens, in order of appearance, or fails with
/// the error of the first invalid input; no partial result is returned.
pub fn tokenize(input: &str) -> (r: Result<Vec<Token>, LexicalError>)
    ensures
        tokens_result_view(r) == lex(input@),
{
    let mut cursor = Cursor::new(input);
    let ghost s = input@;
    let mut tokens: Vec<Token> = Vec::new();
    loop
        invariant
            cursor.wf(),
            cursor.text() == s,
            s == input@,
            lex(s) == prepend_all(tokens@.map_values(|t: Token| t@), lex_from(s, cursor.position())),
        ensures
            lex(s) == prepend_all(tokens@.map_values(|t: Token| t@), lex_from(s, cursor.position())),
            cursor.position() == s.len(),
        decreases s.len() - cursor.position(),
    {
        let ch = match cursor.peek() {
            Some(ch) => ch,
            None => break,
        };
        let ghost i = cursor.position();
        let step: Result<Option<Token>, LexicalError> = match ch {
            'a'..='z' | 'A'..='Z' => Ok(Some(tokenize_identifier(&mut cursor))),
            '0'..='9' => match tokenize_number(&mut cursor) {
                Ok(t) => Ok(Some(t)),
                Err(e) => Err(e),
            },
            '"' => Ok(Some(tokenize_string(&mut cursor))),
            '\'' => match tokenize_char(&mut cursor) {
                Ok(t) => Ok(Some(t)),
                Err(e) => Err(e),
            },
            '(' => {
                cursor.advance();
                Ok(Some(Token::LParen))
            },
            ')' => {
                cursor.advance();
                Ok(Some(Token::RParen))
            },
            '{' => {
                cursor.advance();
                Ok(Some(Token::LBrace))
            },
            '}' => {
                cursor.advance();
                Ok(Some(Token::RBrace))
            },
            '[' => {
                cursor.advance();
                Ok(Some(Token::LBracket))
            },
            ']' => {
                cursor.advance();
                Ok(Some(Token::RBracket))
            },
            ',' => {
                cursor.advance();
                Ok(Some(Token::Comma))
            },
            ':' => {
                cursor.advance();
                Ok(Some(Token::Colon))
            },
            ';' => {
                cursor.advance();
                Ok(Some(Token::Semicolon))
            },
            '+' => {
                cursor.advance();
                Ok(Some(Token::Plus))
            },
            '-' => {
                cursor.advance();
                Ok(Some(Token::Minus))
            },
            '*' => {
                cursor.advance();
                Ok(Some(Token::Asterisk))
            },
            '/' => {
                cursor.advance();
                Ok(Some(Token::Slash))
            },
            '%' => {
                cursor.advance();
                Ok(Some(Token::Percent))
            },
            '?' => {
                cursor.advance();
                Ok(Some(Token::Question))
            },
            '.' => {
                cursor.advance();
                Ok(Some(Token::Dot))
            },
            '=' => {
                cursor.advance();
                if cursor.peek() == Some('=') {
                    cursor.advance();
                    Ok(Some(Token::EqualEqual))
                } else {
                    Ok(Some(Token::Equal))
                }
            },
            '!' => {
                cursor.advance();
                if cursor.peek() == Some('=') {
                    cursor.advance();
                    Ok(Some(Token::ExclamationEqual))
                } else {
                    Ok(Some(Token::Exclamation))
                }
            },
            '<' => {
                cursor.advance();
                if cursor.peek() == Some('=') {
                    cursor.advance();
                    Ok(Some(Token::LessEqual))
                } else {
                    Ok(Some(Token::Less))
                }
            },
            '>' => {
                cursor.advance();
                if cursor.peek() == Some('=') {
                    cursor.advance();
                    Ok(Some(Token::GreaterEqual))
                } else {
                    Ok(Some(Token::Greater))
                }
            },
            '&' => {
                cursor.advance();
                if cursor.peek() == Some('&') {
                    cursor.advance();
                    Ok(Some(Token::AndAnd))
                } else {
                    Err(LexicalError::UnexpectedCharacter('&'))
                }
            },
            '|' => {
                cursor.advance();
                if cursor.peek() == Some('|') {
                    cursor.advance();
                    Ok(Some(Token::OrOr))
                } else {
                    Err(LexicalError::UnexpectedCharacter('|'))
                }
            },
            ' ' | '\t' | '\n' | '\r' => {
                cursor.advance();
                Ok(None)
            },
            _ => {
                if ch.is_alphabetic() {
                    Ok(Some(tokenize_identifier(&mut cursor)))
                } else {
                    Err(LexicalError::UnexpectedCharacter(ch))
                }
            },
        };
        assert(agrees(step, scan(s, i), cursor.position()));
        proof {
            lemma_scan_advances(s, i);
        }
        match step {
            Ok(Some(t)) => {
                let ghost before = tokens@.map_values(|t: Token| t@);
                tokens.push(t);
                proof {
                    assert(lex_from(s, i) == prepend(t@, lex_from(s, cursor.position())));
                    assert(tokens@.map_values(|t: Token| t@) =~= before.push(t@));
                    lemma_prepend_all_push(before, t@, lex_from(s, cursor.position()));
                }
            },
            Ok(None) => {
                assert(lex_from(s, i) == lex_from(s, cursor.position()));
            },
            Err(e) => {
                assert(lex_from(s, i) == Err::<Seq<TokenView>, LexicalError>(e));
                return Err(e);
            },
        }
    }
    proof {
        assert(tokens@.map_values(|t: Token| t@) + Seq::empty() =~= tokens@.map_values(|t: Token| t@));
    }
    Ok(tokens)
}

} // verus!
