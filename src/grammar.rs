//! The lexical grammar as mathematics: what one scanning step does at a
//! position of the input, and what the whole input lexes to.
use vstd::prelude::*;
use crate::text::{alphabetic, is_ascii_letter};
use crate::token::{LexicalError, TokenView};

verus! {

/// A decimal digit, `0` to `9`.
pub open spec fn is_digit(c: char) -> bool {
    '0' <= c && c <= '9'
}

/// Space, tab, newline and carriage return separate tokens and yield none.
pub open spec fn is_whitespace(c: char) -> bool {
    c == ' ' || c == '\t' || c == '\n' || c == '\r'
}

/// A character that may continue an identifier: a letter (in the Unicode
/// sense), a decimal digit or an underscore.
pub open spec fn is_word_char(c: char) -> bool {
    if (c as u32) < 128 {
        is_ascii_letter(c) || is_digit(c) || c == '_'
    } else {
        alphabetic(c)
    }
}

/// A character that starts an identifier or keyword: a letter, in the
/// Unicode sense.
pub open spec fn is_word_start(c: char) -> bool {
    if (c as u32) < 128 {
        is_ascii_letter(c)
    } else {
        alphabetic(c)
    }
}

/// A character that may continue a numeral: a decimal digit or a `.`.
pub open spec fn is_numeral_char(c: char) -> bool {
    is_digit(c) || c == '.'
}

/// The end of the maximal run of word characters that starts at `i`.
pub open spec fn word_end(s: Seq<char>, i: int) -> int
    decreases s.len() - i,
{
    if 0 <= i < s.len() && is_word_char(s[i]) {
        word_end(s, i + 1)
    } else {
        i
    }
}

/// The end of the maximal run of numeral characters that starts at `i`.
pub open spec fn numeral_end(s: Seq<char>, i: int) -> int
    decreases s.len() - i,
{
    if 0 <= i < s.len() && is_numeral_char(s[i]) {
        numeral_end(s, i + 1)
    } else {
        i
    }
}

/// The position of the first `"` at or after `i`, or the end of the input.
pub open spec fn quote_index(s: Seq<char>, i: int) -> int
    decreases s.len() - i,
{
    if 0 <= i < s.len() && s[i] != '"' {
        quote_index(s, i + 1)
    } else {
        i
    }
}

/// The keyword marker that a word stands for, if it is a keyword.
pub open spec fn keyword(w: Seq<char>) -> Option<TokenView> {
    if w == seq!['f', 'n'] {
        Some(TokenView::Fn)
    } else if w == seq!['v', 'a', 'r'] {
        Some(TokenView::Var)
    } else if w == seq!['s', 't', 'r', 'u', 'c', 't'] {
        Some(TokenView::Struct)
    } else if w == seq!['i', 'f'] {
        Some(TokenView::If)
    } else if w == seq!['e', 'l', 's', 'e'] {
        Some(TokenView::Else)
    } else if w == seq!['w', 'h', 'i', 'l', 'e'] {
        Some(TokenView::While)
    } else if w == seq!['f', 'o', 'r'] {
        Some(TokenView::For)
    } else if w == seq!['r', 'e', 't', 'u', 'r', 'n'] {
        Some(TokenView::Return)
    } else {
        None
    }
}

/// The token of a scanned word: its keyword marker, or an identifier that
/// carries the word verbatim.
pub open spec fn word_token(w: Seq<char>) -> TokenView {
    match keyword(w) {
        Some(k) => k,
        None => TokenView::Identifier(w),
    }
}

/// How many `.` a numeral holds.
pub open spec fn count_dots(w: Seq<char>) -> nat
    decreases w.len(),
{
    if w.len() == 0 {
        0
    } else {
        count_dots(w.drop_last()) + if w.last() == '.' { 1nat } else { 0nat }
    }
}

/// The value of a decimal digit.
pub open spec fn digit_value(c: char) -> int {
    (c as u32) as int - ('0' as u32) as int
}

/// The value of a string of decimal digits, most significant first.
pub open spec fn decimal_value(w: Seq<char>) -> int
    decreases w.len(),
{
    if w.len() == 0 {
        0
    } else {
        decimal_value(w.drop_last()) * 10 + digit_value(w.last())
    }
}

/// The token of a scanned numeral: an integer without `.`, a float with
/// exactly one, an error otherwise.
pub open spec fn numeral_token(w: Seq<char>) -> Result<TokenView, LexicalError> {
    if count_dots(w) == 0 {
        if decimal_value(w) <= i32::MAX {
            Ok(TokenView::IntegerLiteral(decimal_value(w) as i32))
        } else {
            Err(LexicalError::IntegerOutOfRange)
        }
    } else if count_dots(w) == 1 {
        Ok(TokenView::FloatLiteral(w))
    } else {
        Err(LexicalError::MalformedNumber)
    }
}

/// The marker of a character that is a token by itself whatever follows.
pub open spec fn single_char_token(c: char) -> Option<TokenView> {
    if c == '(' {
        Some(TokenView::LParen)
    } else if c == ')' {
        Some(TokenView::RParen)
    } else if c == '{' {
        Some(TokenView::LBrace)
    } else if c == '}' {
        Some(TokenView::RBrace)
    } else if c == '[' {
        Some(TokenView::LBracket)
    } else if c == ']' {
        Some(TokenView::RBracket)
    } else if c == ',' {
        Some(TokenView::Comma)
    } else if c == ':' {
        Some(TokenView::Colon)
    } else if c == ';' {
        Some(TokenView::Semicolon)
    } else if c == '+' {
        Some(TokenView::Plus)
    } else if c == '-' {
        Some(TokenView::Minus)
    } else if c == '*' {
        Some(TokenView::Asterisk)
    } else if c == '/' {
        Some(TokenView::Slash)
    } else if c == '%' {
        Some(TokenView::Percent)
    } else if c == '?' {
        Some(TokenView::Question)
    } else if c == '.' {
        Some(TokenView::Dot)
    } else {
        None
    }
}

/// For `=`, `!`, `<` and `>`: the marker of the character alone and the
/// marker of the character followed by `=`.
pub open spec fn comparison_tokens(c: char) -> Option<(TokenView, TokenView)> {
    if c == '=' {
        Some((TokenView::Equal, TokenView::EqualEqual))
    } else if c == '!' {
        Some((TokenView::Exclamation, TokenView::ExclamationEqual))
    } else if c == '<' {
        Some((TokenView::Less, TokenView::LessEqual))
    } else if c == '>' {
        Some((TokenView::Greater, TokenView::GreaterEqual))
    } else {
        None
    }
}

/// What one scanning step does at a position.
pub ghost enum Scan {
    /// Nothing is emitted; scanning goes on at `next`.
    Skip { next: int },
    /// `token` is emitted; scanning goes on at `next`.
    Emit { token: TokenView, next: int },
    /// The whole scan fails.
    Fail { error: LexicalError },
}

/// The step taken at position `i` of `s`, classified by the character there.
pub open spec fn scan(s: Seq<char>, i: int) -> Scan
    recommends
        0 <= i < s.len(),
{
    let c = s[i];
    if is_word_start(c) {
        let j = word_end(s, i + 1);
        Scan::Emit { token: word_token(s.subrange(i, j)), next: j }
    } else if is_digit(c) {
        let j = numeral_end(s, i + 1);
        match numeral_token(s.subrange(i, j)) {
            Ok(t) => Scan::Emit { token: t, next: j },
            Err(e) => Scan::Fail { error: e },
        }
    } else if c == '"' {
        let j = quote_index(s, i + 1);
        Scan::Emit {
            token: TokenView::StringLiteral(s.subrange(i + 1, j)),
            next: if j < s.len() { j + 1 } else { j },
        }
    } else if c == '\'' {
        if i + 2 < s.len() && s[i + 2] == '\'' {
            Scan::Emit { token: TokenView::CharLiteral(s[i + 1]), next: i + 3 }
        } else {
            Scan::Fail { error: LexicalError::InvalidCharacterLiteral }
        }
    } else if single_char_token(c) is Some {
        Scan::Emit { token: single_char_token(c)->0, next: i + 1 }
    } else if comparison_tokens(c) is Some {
        let (alone, with_equal) = comparison_tokens(c)->0;
        if i + 1 < s.len() && s[i + 1] == '=' {
            Scan::Emit { token: with_equal, next: i + 2 }
        } else {
            Scan::Emit { token: alone, next: i + 1 }
        }
    } else if c == '&' || c == '|' {
        if i + 1 < s.len() && s[i + 1] == c {
            Scan::Emit {
                token: if c == '&' { TokenView::AndAnd } else { TokenView::OrOr },
                next: i + 2,
            }
        } else {
            Scan::Fail { error: LexicalError::UnexpectedCharacter(c) }
        }
    } else if is_whitespace(c) {
        Scan::Skip { next: i + 1 }
    } else {
        Scan::Fail { error: LexicalError::UnexpectedCharacter(c) }
    }
}

pub proof fn lemma_word_end_bounds(s: Seq<char>, i: int)
    requires
        0 <= i <= s.len(),
    ensures
        i <= word_end(s, i) <= s.len(),
    decreases s.len() - i,
{
    if i < s.len() && is_word_char(s[i]) {
        lemma_word_end_bounds(s, i + 1);
    }
}

pub proof fn lemma_numeral_end_bounds(s: Seq<char>, i: int)
    requires
        0 <= i <= s.len(),
    ensures
        i <= numeral_end(s, i) <= s.len(),
    decreases s.len() - i,
{
    if i < s.len() && is_numeral_char(s[i]) {
        lemma_numeral_end_bounds(s, i + 1);
    }
}

pub proof fn lemma_quote_index_bounds(s: Seq<char>, i: int)
    requires
        0 <= i <= s.len(),
    ensures
        i <= quote_index(s, i) <= s.len(),
    decreases s.len() - i,
{
    if i < s.len() && s[i] != '"' {
        lemma_quote_index_bounds(s, i + 1);
    }
}

/// Every step that does not fail moves forward and stays within the input.
pub proof fn lemma_scan_advances(s: Seq<char>, i: int)
    requires
        0 <= i < s.len(),
    ensures
        scan(s, i) matches Scan::Skip { next } ==> i < next <= s.len(),
        scan(s, i) matches Scan::Emit { next, .. } ==> i < next <= s.len(),
{
    lemma_word_end_bounds(s, i + 1);
    lemma_numeral_end_bounds(s, i + 1);
    lemma_quote_index_bounds(s, i + 1);
}

/// What scanning from position `i` to the end yields: the tokens in order,
/// or the error of the first step that fails.
pub open spec fn lex_from(s: Seq<char>, i: int) -> Result<Seq<TokenView>, LexicalError>
    decreases s.len() - i,
{
    if 0 <= i < s.len() {
        proof {
            lemma_scan_advances(s, i);
        }
        match scan(s, i) {
            Scan::Skip { next } => lex_from(s, next),
            Scan::Emit { token, next } => prepend(token, lex_from(s, next)),
            Scan::Fail { error } => Err(error),
        }
    } else {
        Ok(Seq::empty())
    }
}

/// `lead` put in front of the tokens of a successful scan; an error stays.
pub open spec fn prepend_all(lead: Seq<TokenView>, r: Result<Seq<TokenView>, LexicalError>) -> Result<
    Seq<TokenView>,
    LexicalError,
> {
    match r {
        Ok(ts) => Ok(lead + ts),
        Err(e) => Err(e),
    }
}

/// `t` put in front of the tokens of a successful scan; an error stays.
pub open spec fn prepend(t: TokenView, r: Result<Seq<TokenView>, LexicalError>) -> Result<
    Seq<TokenView>,
    LexicalError,
> {
    prepend_all(seq![t], r)
}

/// Putting `lead` and then `t` in front is putting `lead` followed by `t`.
pub proof fn lemma_prepend_all_push(
    lead: Seq<TokenView>,
    t: TokenView,
    r: Result<Seq<TokenView>, LexicalError>,
)
    ensures
        prepend_all(lead, prepend(t, r)) == prepend_all(lead.push(t), r),
{
    if let Ok(ts) = r {
        assert(lead + (seq![t] + ts) =~= lead.push(t) + ts);
    }
}

/// What a whole text lexes to.
pub open spec fn lex(s: Seq<char>) -> Result<Seq<TokenView>, LexicalError> {
    lex_from(s, 0)
}

} // verus!
