//! Properties of the lexical grammar, proved once for all inputs.
use vstd::prelude::*;
use crate::grammar::{
    comparison_tokens, is_numeral_char, is_whitespace, is_word_char, is_word_start, keyword, lemma_numeral_end_bounds,
    lemma_quote_index_bounds, lemma_scan_advances, lemma_word_end_bounds, lex, lex_from,
    numeral_end, prepend, prepend_all, quote_index, scan, word_end, Scan,
};
use crate::text::is_ascii_letter;
use crate::token::{tokens_result_view, LexicalError, Token, TokenView};

verus! {

/// A run of word characters from `i` up to `j` that stops at the end of the
/// input or at a character that cannot continue a word.
pub open spec fn maximal_word_run(s: Seq<char>, i: int, j: int) -> bool {
    &&& 0 <= i <= j <= s.len()
    &&& forall|k: int| i <= k < j ==> is_word_char(#[trigger] s[k])
    &&& (j == s.len() || !is_word_char(s[j]))
}

proof fn lemma_word_end_of_run(s: Seq<char>, i: int, j: int)
    requires
        maximal_word_run(s, i, j),
    ensures
        word_end(s, i) == j,
    decreases j - i,
{
    if i < j {
        lemma_word_end_of_run(s, i + 1, j);
    }
}

/// Scanning from position `i` to the end yields the token emitted there,
/// followed by what scanning from the step's end yields.
proof fn lemma_lex_from_emit(s: Seq<char>, i: int, t: TokenView, next: int)
    requires
        0 <= i < s.len(),
        scan(s, i) == (Scan::Emit { token: t, next }),
    ensures
        lex_from(s, i) == prepend(t, lex_from(s, next)),
{
    lemma_scan_advances(s, i);
}

/// Determinism: two results that both meet `tokenize`'s contract for the same
/// text are the same token sequence, or the same error.
pub proof fn law_tokenize_deterministic(
    s: Seq<char>,
    first: Result<Vec<Token>, LexicalError>,
    second: Result<Vec<Token>, LexicalError>,
)
    requires
        tokens_result_view(first) == lex(s),
        tokens_result_view(second) == lex(s),
    ensures
        tokens_result_view(first) == tokens_result_view(second),
{
}

/// A maximal run of word characters that starts with a letter (in the
/// Unicode sense) and is no keyword becomes one identifier that carries the
/// run exactly; scanning goes on right after the run.
pub proof fn law_identifier_is_whole_run(s: Seq<char>, i: int, j: int)
    requires
        i < j,
        maximal_word_run(s, i, j),
        is_word_start(s[i]),
        keyword(s.subrange(i, j)) is None,
    ensures
        lex_from(s, i) == prepend(TokenView::Identifier(s.subrange(i, j)), lex_from(s, j)),
{
    lemma_word_end_of_run(s, i + 1, j);
    lemma_lex_from_emit(s, i, TokenView::Identifier(s.subrange(i, j)), j);
}

/// The exact text of a keyword, wherever the scanner meets it and whatever
/// precedes it, becomes its keyword marker when no word character follows.
pub proof fn law_keyword_precedence(s: Seq<char>, i: int, kw: Seq<char>)
    requires
        keyword(kw) is Some,
        0 <= i,
        i + kw.len() <= s.len(),
        s.subrange(i, i + kw.len()) == kw,
        i + kw.len() == s.len() || !is_word_char(s[i + kw.len()]),
    ensures
        lex_from(s, i) == prepend(keyword(kw)->0, lex_from(s, i + kw.len())),
{
    let j = i + kw.len();
    assert(kw.len() > 0 && forall|k: int| 0 <= k < kw.len() ==> is_ascii_letter(#[trigger] kw[k]));
    assert forall|k: int| i <= k < j implies is_word_char(#[trigger] s[k]) by {
        assert(s[k] == kw[k - i]);
    }
    assert(s[i] == kw[0]);
    lemma_word_end_of_run(s, i + 1, j);
    lemma_lex_from_emit(s, i, keyword(kw)->0, j);
}

/// `=`, `!`, `<` and `>` followed by `=` make one two-character token; not
/// followed by `=`, they make their one-character token.
pub proof fn law_comparison_greedy(s: Seq<char>, i: int)
    requires
        0 <= i < s.len(),
        comparison_tokens(s[i]) is Some,
    ensures
        ({
            let (alone, with_equal) = comparison_tokens(s[i])->0;
            if i + 1 < s.len() && s[i + 1] == '=' {
                lex_from(s, i) == prepend(with_equal, lex_from(s, i + 2))
            } else {
                lex_from(s, i) == prepend(alone, lex_from(s, i + 1))
            }
        }),
{
    let (alone, with_equal) = comparison_tokens(s[i])->0;
    if i + 1 < s.len() && s[i + 1] == '=' {
        lemma_lex_from_emit(s, i, with_equal, i + 2);
    } else {
        lemma_lex_from_emit(s, i, alone, i + 1);
    }
}

/// `&&` and `||` always make their token; a `&` or `|` not followed by its
/// twin fails the whole scan.
pub proof fn law_logical_pairs(s: Seq<char>, i: int)
    requires
        0 <= i < s.len(),
        s[i] == '&' || s[i] == '|',
    ensures
        i + 1 < s.len() && s[i + 1] == s[i] && s[i] == '&' ==> lex_from(s, i) == prepend(
            TokenView::AndAnd,
            lex_from(s, i + 2),
        ),
        i + 1 < s.len() && s[i + 1] == s[i] && s[i] == '|' ==> lex_from(s, i) == prepend(
            TokenView::OrOr,
            lex_from(s, i + 2),
        ),
        !(i + 1 < s.len() && s[i + 1] == s[i]) ==> lex_from(s, i) == Err::<
            Seq<TokenView>,
            LexicalError,
        >(LexicalError::UnexpectedCharacter(s[i])),
{
    if i + 1 < s.len() && s[i + 1] == s[i] {
        let t = if s[i] == '&' { TokenView::AndAnd } else { TokenView::OrOr };
        lemma_lex_from_emit(s, i, t, i + 2);
    }
}

/// A run of whitespace yields no token: scanning from its start yields what
/// scanning from its end yields.
pub proof fn law_whitespace_skipped(s: Seq<char>, i: int, j: int)
    requires
        0 <= i <= j <= s.len(),
        forall|k: int| i <= k < j ==> is_whitespace(#[trigger] s[k]),
    ensures
        lex_from(s, i) == lex_from(s, j),
    decreases j - i,
{
    if i < j {
        law_whitespace_skipped(s, i + 1, j);
    }
}

/// A step taken in `b` moved right by `d` positions.
spec fn shifted(step: Scan, d: int) -> Scan {
    match step {
        Scan::Skip { next } => Scan::Skip { next: next + d },
        Scan::Emit { token, next } => Scan::Emit { token, next: next + d },
        Scan::Fail { error } => Scan::Fail { error },
    }
}

proof fn lemma_word_end_shift(p: Seq<char>, b: Seq<char>, k: int)
    requires
        0 <= k <= b.len(),
    ensures
        word_end(p + b, p.len() + k) == p.len() + word_end(b, k),
    decreases b.len() - k,
{
    if k < b.len() {
        assert((p + b)[p.len() + k] == b[k]);
        lemma_word_end_shift(p, b, k + 1);
    }
}

proof fn lemma_numeral_end_shift(p: Seq<char>, b: Seq<char>, k: int)
    requires
        0 <= k <= b.len(),
    ensures
        numeral_end(p + b, p.len() + k) == p.len() + numeral_end(b, k),
    decreases b.len() - k,
{
    if k < b.len() {
        assert((p + b)[p.len() + k] == b[k]);
        lemma_numeral_end_shift(p, b, k + 1);
    }
}

proof fn lemma_quote_index_shift(p: Seq<char>, b: Seq<char>, k: int)
    requires
        0 <= k <= b.len(),
    ensures
        quote_index(p + b, p.len() + k) == p.len() + quote_index(b, k),
    decreases b.len() - k,
{
    if k < b.len() {
        assert((p + b)[p.len() + k] == b[k]);
        lemma_quote_index_shift(p, b, k + 1);
    }
}

/// A step looks only at what follows its position.
proof fn lemma_scan_shift(p: Seq<char>, b: Seq<char>, k: int)
    requires
        0 <= k < b.len(),
    ensures
        scan(p + b, p.len() + k) == shifted(scan(b, k), p.len() as int),
{
    let s = p + b;
    let n = p.len() as int;
    lemma_word_end_shift(p, b, k + 1);
    lemma_numeral_end_shift(p, b, k + 1);
    lemma_quote_index_shift(p, b, k + 1);
    lemma_word_end_bounds(b, k + 1);
    lemma_numeral_end_bounds(b, k + 1);
    lemma_quote_index_bounds(b, k + 1);
    let we = word_end(b, k + 1);
    let ne = numeral_end(b, k + 1);
    let qi = quote_index(b, k + 1);
    assert(s.subrange(n + k, n + we) =~= b.subrange(k, we));
    assert(s.subrange(n + k, n + ne) =~= b.subrange(k, ne));
    assert(s.subrange(n + k + 1, n + qi) =~= b.subrange(k + 1, qi));
    assert(s[n + k] == b[k]);
    if k + 1 < b.len() {
        assert(s[n + k + 1] == b[k + 1]);
    }
    if k + 2 < b.len() {
        assert(s[n + k + 2] == b[k + 2]);
    }
}

/// Scanning the end of a text from where its last part `b` begins yields
/// what lexing `b` alone yields.
pub proof fn lemma_lex_from_suffix(p: Seq<char>, b: Seq<char>, k: int)
    requires
        0 <= k <= b.len(),
    ensures
        lex_from(p + b, p.len() + k) == lex_from(b, k),
    decreases b.len() - k,
{
    if k < b.len() {
        lemma_scan_shift(p, b, k);
        lemma_scan_advances(b, k);
        match scan(b, k) {
            Scan::Skip { next } => {
                lemma_lex_from_suffix(p, b, next);
            },
            Scan::Emit { token, next } => {
                lemma_lex_from_suffix(p, b, next);
            },
            Scan::Fail { error } => {},
        }
    }
}

/// Whitespace inserted where the scanner stands between tokens changes
/// nothing of what it yields from there; in particular leading whitespace
/// does not change what a text lexes to.
pub proof fn law_whitespace_inserted(a: Seq<char>, w: Seq<char>, b: Seq<char>)
    requires
        forall|k: int| 0 <= k < w.len() ==> is_whitespace(#[trigger] w[k]),
    ensures
        lex_from(a + w + b, a.len() as int) == lex_from(a + b, a.len() as int),
        lex(w + b) == lex(b),
{
    let s = a + w + b;
    assert forall|k: int| a.len() <= k < a.len() + w.len() implies is_whitespace(#[trigger] s[k]) by {
        assert(s[k] == w[k - a.len()]);
    }
    law_whitespace_skipped(s, a.len() as int, (a.len() + w.len()) as int);
    lemma_lex_from_suffix(a + w, b, 0);
    lemma_lex_from_suffix(a, b, 0);
    let t = w + b;
    assert forall|k: int| 0 <= k < w.len() implies is_whitespace(#[trigger] t[k]) by {
        assert(t[k] == w[k]);
    }
    law_whitespace_skipped(t, 0, w.len() as int);
    lemma_lex_from_suffix(w, b, 0);
}

/// Scanning `s` from position `i` comes to stand at position `k`: every step
/// on the way succeeds, and one of them ends exactly at `k`.
spec fn stands_at(s: Seq<char>, i: int, k: int) -> bool
    decreases s.len() - i,
{
    if i == k {
        true
    } else if 0 <= i < k && i < s.len() {
        proof {
            lemma_scan_advances(s, i);
        }
        match scan(s, i) {
            Scan::Skip { next } => stands_at(s, next, k),
            Scan::Emit { next, .. } => stands_at(s, next, k),
            Scan::Fail { .. } => false,
        }
    } else {
        false
    }
}

/// Scanning `s` from position `i`, some string literal runs to the end of
/// the input without meeting its closing `"`.
pub open spec fn ends_in_open_string(s: Seq<char>, i: int) -> bool
    decreases s.len() - i,
{
    if 0 <= i < s.len() {
        proof {
            lemma_scan_advances(s, i);
        }
        match scan(s, i) {
            Scan::Skip { next } => ends_in_open_string(s, next),
            Scan::Emit { next, .. } => (s[i] == '"' && quote_index(s, i + 1) == s.len())
                || ends_in_open_string(s, next),
            Scan::Fail { .. } => false,
        }
    } else {
        false
    }
}

/// A character that ends any token before it: it continues no word and no
/// numeral, and makes no two-character comparison.
spec fn is_separator(c: char) -> bool {
    !is_word_char(c) && !is_numeral_char(c) && c != '='
}

/// The tokens of two scans one after the other, or the first error.
pub open spec fn concat_results(
    first: Result<Seq<TokenView>, LexicalError>,
    second: Result<Seq<TokenView>, LexicalError>,
) -> Result<Seq<TokenView>, LexicalError> {
    match first {
        Ok(ts) => prepend_all(ts, second),
        Err(e) => Err(e),
    }
}

proof fn lemma_word_end_prefix(a: Seq<char>, r: Seq<char>, k: int)
    requires
        0 <= k <= a.len(),
        r.len() > 0,
        !is_word_char(r[0]),
    ensures
        word_end(a + r, k) == word_end(a, k),
    decreases a.len() - k,
{
    assert((a + r)[a.len() as int] == r[0]);
    if k < a.len() {
        assert((a + r)[k] == a[k]);
        lemma_word_end_prefix(a, r, k + 1);
    }
}

proof fn lemma_numeral_end_prefix(a: Seq<char>, r: Seq<char>, k: int)
    requires
        0 <= k <= a.len(),
        r.len() > 0,
        !is_numeral_char(r[0]),
    ensures
        numeral_end(a + r, k) == numeral_end(a, k),
    decreases a.len() - k,
{
    assert((a + r)[a.len() as int] == r[0]);
    if k < a.len() {
        assert((a + r)[k] == a[k]);
        lemma_numeral_end_prefix(a, r, k + 1);
    }
}

proof fn lemma_quote_index_prefix(a: Seq<char>, r: Seq<char>, k: int)
    requires
        0 <= k <= a.len(),
        quote_index(a + r, k) < a.len(),
    ensures
        quote_index(a + r, k) == quote_index(a, k),
    decreases a.len() - k,
{
    lemma_quote_index_bounds(a + r, k);
    if k < a.len() {
        assert((a + r)[k] == a[k]);
        if a[k] != '"' {
            lemma_quote_index_prefix(a, r, k + 1);
        }
    }
}

/// A step that succeeds and ends within `a`, taken in `a` followed by a
/// separator, is the same step in `a` alone.
proof fn lemma_scan_prefix(a: Seq<char>, r: Seq<char>, i: int)
    requires
        0 <= i < a.len(),
        r.len() > 0,
        is_separator(r[0]),
        scan(a + r, i) matches Scan::Skip { next } ==> next <= a.len(),
        scan(a + r, i) matches Scan::Emit { next, .. } ==> next <= a.len(),
        !(scan(a + r, i) is Fail),
    ensures
        scan(a, i) == scan(a + r, i),
{
    let s = a + r;
    let n = a.len() as int;
    assert(s[n] == r[0]);
    assert(s[i] == a[i]);
    if i + 1 < n {
        assert(s[i + 1] == a[i + 1]);
    }
    if i + 2 < n {
        assert(s[i + 2] == a[i + 2]);
    }
    lemma_word_end_prefix(a, r, i + 1);
    lemma_numeral_end_prefix(a, r, i + 1);
    lemma_word_end_bounds(a, i + 1);
    lemma_numeral_end_bounds(a, i + 1);
    let we = word_end(a, i + 1);
    let ne = numeral_end(a, i + 1);
    assert(s.subrange(i, we) =~= a.subrange(i, we));
    assert(s.subrange(i, ne) =~= a.subrange(i, ne));
    if s[i] == '"' {
        lemma_quote_index_bounds(s, i + 1);
        let q = quote_index(s, i + 1);
        if q < n {
            lemma_quote_index_prefix(a, r, i + 1);
            assert(s.subrange(i + 1, q) =~= a.subrange(i + 1, q));
        }
    }
}

/// Where scanning `a + r` stands at the end of `a` and `r` starts with a
/// separator, `a` alone lexes without error to the tokens met on the way.
proof fn lemma_lex_prefix(a: Seq<char>, r: Seq<char>, i: int)
    requires
        0 <= i <= a.len(),
        r.len() > 0,
        is_separator(r[0]),
        stands_at(a + r, i, a.len() as int),
    ensures
        lex_from(a, i) is Ok,
        lex_from(a + r, i) == prepend_all(lex_from(a, i)->Ok_0, lex_from(a + r, a.len() as int)),
    decreases a.len() - i,
{
    let s = a + r;
    let n = a.len() as int;
    if i == n {
        if let Ok(ts) = lex_from(s, n) {
            assert(Seq::<TokenView>::empty() + ts =~= ts);
        }
    } else {
        lemma_scan_advances(s, i);
        match scan(s, i) {
            Scan::Skip { next } => {
                lemma_stands_at_bound(s, next, n);
                lemma_scan_prefix(a, r, i);
                lemma_scan_advances(a, i);
                lemma_lex_prefix(a, r, next);
            },
            Scan::Emit { token, next } => {
                lemma_stands_at_bound(s, next, n);
                lemma_scan_prefix(a, r, i);
                lemma_scan_advances(a, i);
                lemma_lex_prefix(a, r, next);
                let rest = lex_from(a, next)->Ok_0;
                if let Ok(ts) = lex_from(s, n) {
                    assert(seq![token] + (rest + ts) =~= (seq![token] + rest) + ts);
                }
            },
            Scan::Fail { .. } => {},
        }
    }
}

proof fn lemma_stands_at_bound(s: Seq<char>, i: int, k: int)
    requires
        stands_at(s, i, k),
    ensures
        i <= k,
{
}

proof fn lemma_quote_index_extend(a: Seq<char>, r: Seq<char>, k: int)
    requires
        0 <= k <= a.len(),
        quote_index(a, k) < a.len(),
    ensures
        quote_index(a + r, k) == quote_index(a, k),
    decreases a.len() - k,
{
    if k < a.len() {
        assert((a + r)[k] == a[k]);
        if a[k] != '"' {
            lemma_quote_index_extend(a, r, k + 1);
        }
    }
}

/// A step of `a` that succeeds and does not open a string running to the end
/// of `a` is the same step in `a` followed by a separator.
proof fn lemma_scan_closed_prefix(a: Seq<char>, r: Seq<char>, i: int)
    requires
        0 <= i < a.len(),
        r.len() > 0,
        is_separator(r[0]),
        !(scan(a, i) is Fail),
        !(a[i] == '"' && quote_index(a, i + 1) == a.len()),
    ensures
        scan(a + r, i) == scan(a, i),
{
    let s = a + r;
    let n = a.len() as int;
    assert(s[n] == r[0]);
    assert(s[i] == a[i]);
    if i + 1 < n {
        assert(s[i + 1] == a[i + 1]);
    }
    if i + 2 < n {
        assert(s[i + 2] == a[i + 2]);
    }
    lemma_word_end_prefix(a, r, i + 1);
    lemma_numeral_end_prefix(a, r, i + 1);
    lemma_word_end_bounds(a, i + 1);
    lemma_numeral_end_bounds(a, i + 1);
    let we = word_end(a, i + 1);
    let ne = numeral_end(a, i + 1);
    assert(s.subrange(i, we) =~= a.subrange(i, we));
    assert(s.subrange(i, ne) =~= a.subrange(i, ne));
    if a[i] == '"' {
        lemma_quote_index_bounds(a, i + 1);
        let q = quote_index(a, i + 1);
        lemma_quote_index_extend(a, r, i + 1);
        assert(s.subrange(i + 1, q) =~= a.subrange(i + 1, q));
    }
}

proof fn lemma_stands_at_end(a: Seq<char>, r: Seq<char>, i: int)
    requires
        0 <= i <= a.len(),
        r.len() > 0,
        is_separator(r[0]),
        lex_from(a, i) is Ok,
        !ends_in_open_string(a, i),
    ensures
        stands_at(a + r, i, a.len() as int),
    decreases a.len() - i,
{
    if i < a.len() {
        lemma_scan_advances(a, i);
        lemma_scan_closed_prefix(a, r, i);
        match scan(a, i) {
            Scan::Skip { next } => {
                lemma_stands_at_end(a, r, next);
            },
            Scan::Emit { next, .. } => {
                lemma_stands_at_end(a, r, next);
            },
            Scan::Fail { .. } => {},
        }
    }
}

/// A text that lexes without error and ends in no open string, followed by
/// a separator and more text, yields its own tokens first, and then what
/// scanning from the separator yields.
proof fn lemma_lex_closed_prefix(a: Seq<char>, r: Seq<char>)
    requires
        lex(a) is Ok,
        !ends_in_open_string(a, 0),
        r.len() > 0,
        is_separator(r[0]),
    ensures
        lex(a + r) == prepend_all(lex(a)->Ok_0, lex_from(a + r, a.len() as int)),
{
    lemma_stands_at_end(a, r, 0);
    lemma_lex_prefix(a, r, 0);
}

/// Whitespace between two tokens separates them and nothing more: after a
/// text `a` that lexes without error and ends in no open string, nonempty
/// whitespace `w` and then `b` yield the tokens of `a` followed by those of
/// `b`, or the first error in `b`.
pub proof fn law_whitespace_separates(a: Seq<char>, w: Seq<char>, b: Seq<char>)
    requires
        lex(a) is Ok,
        !ends_in_open_string(a, 0),
        w.len() > 0,
        forall|k: int| 0 <= k < w.len() ==> is_whitespace(#[trigger] w[k]),
    ensures
        lex(a + w + b) == concat_results(lex(a), lex(b)),
{
    let r = w + b;
    assert(a + w + b =~= a + r);
    assert(r[0] == w[0]);
    assert(is_whitespace(w[0]));
    lemma_lex_closed_prefix(a, r);
    law_whitespace_inserted(a, w, b);
    lemma_lex_from_suffix(a, b, 0);
}

/// `&&` or `||` after a text `a` that lexes without error and ends in no
/// open string always makes its token: the tokens of `a`, then the marker,
/// then what `b` lexes to.
pub proof fn law_logical_pair_between(a: Seq<char>, c: char, b: Seq<char>)
    requires
        c == '&' || c == '|',
        lex(a) is Ok,
        !ends_in_open_string(a, 0),
    ensures
        lex(a + seq![c, c] + b) == concat_results(
            lex(a),
            prepend(if c == '&' { TokenView::AndAnd } else { TokenView::OrOr }, lex(b)),
        ),
{
    let p = a + seq![c, c];
    let r = seq![c, c] + b;
    let s = a + r;
    let n = a.len() as int;
    assert(p + b =~= s);
    assert(r[0] == c);
    lemma_lex_closed_prefix(a, r);
    assert(s[n] == c && s[n + 1] == c);
    law_logical_pairs(s, n);
    lemma_lex_from_suffix(p, b, 0);
}

/// A lone `&` or `|` after a text `a` that lexes without error and ends in
/// no open string fails the whole scan, whatever follows that is not its
/// twin.
pub proof fn law_lone_logical_fails(a: Seq<char>, c: char, b: Seq<char>)
    requires
        c == '&' || c == '|',
        lex(a) is Ok,
        !ends_in_open_string(a, 0),
        b.len() == 0 || b[0] != c,
    ensures
        lex(a + seq![c] + b) == Err::<Seq<TokenView>, LexicalError>(
            LexicalError::UnexpectedCharacter(c),
        ),
{
    let r = seq![c] + b;
    let s = a + r;
    let n = a.len() as int;
    assert(a + seq![c] + b =~= s);
    assert(r[0] == c);
    lemma_lex_closed_prefix(a, r);
    assert(s[n] == c);
    if b.len() > 0 {
        assert(s[n + 1] == b[0]);
    }
    law_logical_pairs(s, n);
}

} // verus!
