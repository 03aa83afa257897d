//! Scanning source text into positioned tokens.

use vstd::prelude::*;
use crate::error::{ChaiError, ErrorView};
use crate::text::{append_chars, chars_of};
use crate::token::{builtin_words, lookup_word, Token, TokenKind, TokenKindView, TokenView, WordTable};

verus! {

/// Whether `c` has Unicode's White_Space property.
pub open spec fn is_white_space(c: char) -> bool {
    c == '\t' || c == '\n' || c == '\u{0B}' || c == '\u{0C}' || c == '\r' || c == ' ' || c
        == '\u{85}' || c == '\u{A0}' || c == '\u{1680}' || ('\u{2000}' <= c && c <= '\u{200A}')
        || c == '\u{2028}' || c == '\u{2029}' || c == '\u{202F}' || c == '\u{205F}' || c
        == '\u{3000}'
}

/// Whether `c` is an ASCII decimal digit.
pub open spec fn is_digit(c: char) -> bool {
    '0' <= c && c <= '9'
}

pub open spec fn digit_value(c: char) -> nat {
    (c as u32 - '0' as u32) as nat
}

/// The value of a run of decimal digits.
pub open spec fn decimal_value(d: Seq<char>) -> nat
    decreases d.len(),
{
    if d.len() == 0 {
        0
    } else {
        decimal_value(d.drop_last()) * 10 + digit_value(d.last())
    }
}

pub open spec fn all_digits(d: Seq<char>) -> bool {
    forall|k: int| 0 <= k < d.len() ==> is_digit(#[trigger] d[k])
}

/// The unsigned 64-bit number that `d` spells in decimal, if it is a
/// non-empty run of ASCII digits whose value fits.
pub open spec fn numeral(d: Seq<char>) -> Option<u64> {
    if d.len() > 0 && all_digits(d) && decimal_value(d) <= u64::MAX {
        Some(decimal_value(d) as u64)
    } else {
        None
    }
}

proof fn lemma_decimal_value_grows(d: Seq<char>, j: int)
    requires
        all_digits(d),
        0 <= j <= d.len(),
    ensures
        decimal_value(d.subrange(0, j)) <= decimal_value(d),
    decreases d.len(),
{
    if j < d.len() {
        let e = d.drop_last();
        assert(all_digits(e));
        assert(e.subrange(0, j) =~= d.subrange(0, j));
        lemma_decimal_value_grows(e, j);
    } else {
        assert(d.subrange(0, j) =~= d);
    }
}

/// Tests a character for the White_Space property, as `is_white_space` states it.
pub fn is_white_space_char(c: char) -> (r: bool)
    ensures
        r == is_white_space(c),
{
    c == '\t' || c == '\n' || c == '\u{0B}' || c == '\u{0C}' || c == '\r' || c == ' ' || c
        == '\u{85}' || c == '\u{A0}' || c == '\u{1680}' || ('\u{2000}' <= c && c <= '\u{200A}')
        || c == '\u{2028}' || c == '\u{2029}' || c == '\u{202F}' || c == '\u{205F}' || c
        == '\u{3000}'
}

/// Reads `d` as an unsigned 64-bit decimal number.
pub fn parse_numeral(d: &Vec<char>) -> (r: Option<u64>)
    ensures
        r == numeral(d@),
{
    if d.len() == 0 {
        return None;
    }
    let mut acc: u64 = 0;
    let mut i: usize = 0;
    while i < d.len()
        invariant
            i <= d@.len(),
            all_digits(d@.subrange(0, i as int)),
            acc as nat == decimal_value(d@.subrange(0, i as int)),
        decreases d@.len() - i,
    {
        let c = d[i];
        if !('0' <= c && c <= '9') {
            return None;
        }
        let next: u128 = acc as u128 * 10 + (c as u32 - '0' as u32) as u128;
        proof {
            let p = d@.subrange(0, i + 1);
            assert(p.drop_last() =~= d@.subrange(0, i as int));
            assert(all_digits(p));
            assert(next == decimal_value(p));
            if next > u64::MAX && all_digits(d@) {
                lemma_decimal_value_grows(d@, i + 1);
            }
        }
        if next > u64::MAX as u128 {
            return None;
        }
        acc = next as u64;
        i = i + 1;
    }
    assert(d@.subrange(0, i as int) =~= d@);
    Some(acc)
}

/// The zero-based (line, column) reached after consuming the first `i`
/// characters of `s`: a newline moves to the next line's column zero, any
/// other character one column on.
pub open spec fn position_after(s: Seq<char>, i: int) -> (nat, nat)
    decreases i,
{
    if i <= 0 {
        (0, 0)
    } else {
        let p = position_after(s, i - 1);
        if s[i - 1] == '\n' {
            (p.0 + 1, 0)
        } else {
            (p.0, p.1 + 1)
        }
    }
}

/// The first index from `i` on that holds no white space (or the end).
pub open spec fn skip_white(s: Seq<char>, i: int) -> int
    decreases s.len() - i,
{
    if 0 <= i < s.len() && is_white_space(s[i]) {
        skip_white(s, i + 1)
    } else {
        i
    }
}

/// The end of the maximal run of non-white-space characters from `i`.
pub open spec fn run_end(s: Seq<char>, i: int) -> int
    decreases s.len() - i,
{
    if 0 <= i < s.len() && !is_white_space(s[i]) {
        run_end(s, i + 1)
    } else {
        i
    }
}

/// The first index from `i` on that holds a double quote (or the end).
pub open spec fn quote_end(s: Seq<char>, i: int) -> int
    decreases s.len() - i,
{
    if 0 <= i < s.len() && s[i] != '"' {
        quote_end(s, i + 1)
    } else {
        i
    }
}

pub open spec fn number_error_message(lexeme: Seq<char>) -> Seq<char> {
    "Failed to convert '"@ + lexeme + "' to number literal."@
}

pub open spec fn unterminated_string_message() -> Seq<char> {
    "Expected closing double-quote. Found end-of-file instead."@
}

pub open spec fn unknown_word_message(lexeme: Seq<char>) -> Seq<char> {
    "Unknown word '"@ + lexeme + "' found."@
}

/// What scanning one lexeme yields.
pub type ScanItem = Result<TokenView, ErrorView>;

pub open spec fn token_at(s: Seq<char>, i: int, source: Seq<char>, kind: TokenKindView) -> TokenView {
    TokenView { kind, source, position: position_after(s, i) }
}

pub open spec fn error_at(s: Seq<char>, i: int, source: Seq<char>, message: Seq<char>) -> ErrorView {
    ErrorView::Source(source, position_after(s, i), message)
}

/// A number lexeme starting at `i`: the whole run of non-white-space
/// characters, and the index after it.
pub open spec fn scan_number(s: Seq<char>, i: int, source: Seq<char>) -> (ScanItem, int) {
    let e = run_end(s, i);
    let lexeme = s.subrange(i, e);
    match numeral(lexeme) {
        Some(v) => (Ok(token_at(s, i, source, TokenKindView::Number(v))), e),
        None => (Err(error_at(s, i, source, number_error_message(lexeme))), e),
    }
}

/// A string literal whose opening quote is at `i`: the text up to the next
/// double quote, and the index after that quote.
pub open spec fn scan_string(s: Seq<char>, i: int, source: Seq<char>) -> (ScanItem, int) {
    let q = quote_end(s, i + 1);
    if q >= s.len() {
        (Err(error_at(s, i, source, unterminated_string_message())), s.len() as int)
    } else {
        (Ok(token_at(s, i, source, TokenKindView::String(s.subrange(i + 1, q)))), q + 1)
    }
}

/// A word starting at `i`, looked up among the built-in words.
pub open spec fn scan_word(s: Seq<char>, i: int, source: Seq<char>) -> (ScanItem, int) {
    let e = run_end(s, i);
    let lexeme = s.subrange(i, e);
    match lookup_word(builtin_words(), lexeme) {
        Some(k) => (Ok(token_at(s, i, source, k)), e),
        None => (Err(error_at(s, i, source, unknown_word_message(lexeme))), e),
    }
}

/// The lexeme starting at `i`, chosen by its first character.
pub open spec fn scan(s: Seq<char>, i: int, source: Seq<char>) -> (ScanItem, int) {
    if is_digit(s[i]) {
        scan_number(s, i, source)
    } else if s[i] == '"' {
        scan_string(s, i, source)
    } else {
        scan_word(s, i, source)
    }
}

/// Every lexeme of `s` from index `i` on, scanned in order; a lexeme that
/// fails yields its error and scanning goes on after it.
pub open spec fn lex_items(s: Seq<char>, i: int, source: Seq<char>) -> Seq<ScanItem>
    decreases s.len() - i,
    via lex_items_decreases
{
    let j = skip_white(s, i);
    if j < 0 || j >= s.len() {
        Seq::empty()
    } else {
        let (item, k) = scan(s, j, source);
        seq![item] + lex_items(s, k, source)
    }
}

proof fn lemma_skip_white_bounds(s: Seq<char>, i: int)
    ensures
        i <= skip_white(s, i),
        0 <= i <= s.len() ==> skip_white(s, i) <= s.len(),
    decreases s.len() - i,
{
    if 0 <= i < s.len() && is_white_space(s[i]) {
        lemma_skip_white_bounds(s, i + 1);
    }
}

proof fn lemma_run_end_bounds(s: Seq<char>, i: int)
    ensures
        i <= run_end(s, i),
        0 <= i <= s.len() ==> run_end(s, i) <= s.len(),
        0 <= i < s.len() && !is_white_space(s[i]) ==> i < run_end(s, i),
    decreases s.len() - i,
{
    if 0 <= i < s.len() && !is_white_space(s[i]) {
        lemma_run_end_bounds(s, i + 1);
    }
}

proof fn lemma_quote_end_bounds(s: Seq<char>, i: int)
    ensures
        i <= quote_end(s, i),
        0 <= i <= s.len() ==> quote_end(s, i) <= s.len(),
        0 <= quote_end(s, i) < s.len() ==> s[quote_end(s, i)] == '"',
    decreases s.len() - i,
{
    if 0 <= i < s.len() && s[i] != '"' {
        lemma_quote_end_bounds(s, i + 1);
    }
}

/// Scanning a lexeme that starts at a non-white-space character consumes at
/// least that character and stays within the text.
proof fn lemma_scan_advances(s: Seq<char>, i: int, source: Seq<char>)
    requires
        0 <= i < s.len(),
        !is_white_space(s[i]),
    ensures
        i < scan(s, i, source).1 <= s.len(),
{
    lemma_run_end_bounds(s, i);
    lemma_quote_end_bounds(s, i + 1);
}

#[via_fn]
proof fn lex_items_decreases(s: Seq<char>, i: int, source: Seq<char>) {
    let j = skip_white(s, i);
    lemma_skip_white_bounds(s, i);
    if 0 <= j < s.len() {
        lemma_skip_white_not_white(s, i);
        lemma_scan_advances(s, j, source);
    }
}

proof fn lemma_skip_white_not_white(s: Seq<char>, i: int)
    ensures
        0 <= skip_white(s, i) < s.len() ==> !is_white_space(s[skip_white(s, i)]),
        skip_white(s, skip_white(s, i)) == skip_white(s, i),
    decreases s.len() - i,
{
    if 0 <= i < s.len() && is_white_space(s[i]) {
        lemma_skip_white_not_white(s, i + 1);
    }
}

/// The tokens among scan results, in order.
pub open spec fn tokens_of(items: Seq<ScanItem>) -> Seq<TokenView>
    decreases items.len(),
{
    if items.len() == 0 {
        Seq::empty()
    } else {
        let rest = tokens_of(items.drop_last());
        match items.last() {
            Ok(t) => rest.push(t),
            Err(_) => rest,
        }
    }
}

/// The errors among scan results, in order.
pub open spec fn errors_of(items: Seq<ScanItem>) -> Seq<ErrorView>
    decreases items.len(),
{
    if items.len() == 0 {
        Seq::empty()
    } else {
        let rest = errors_of(items.drop_last());
        match items.last() {
            Ok(_) => rest,
            Err(e) => rest.push(e),
        }
    }
}

/// Whether a path names a source file: it ends in `.chai`.
pub open spec fn has_source_extension(path: Seq<char>) -> bool {
    path.len() >= 5 && path.subrange(path.len() - 5, path.len() as int) == seq!['.', 'c', 'h', 'a', 'i']
}

pub open spec fn extension_message(path: Seq<char>) -> Seq<char> {
    "Source file '"@ + path + "' must use the '.chai' file extension."@
}

pub open spec fn unreadable_message(path: Seq<char>) -> Seq<char> {
    "Failed to open file '"@ + path + "' for reading"@
}

fn ends_with_extension(path: &String) -> (r: bool)
    ensures
        r == has_source_extension(path@),
{
    let p = path.as_str();
    let n = p.unicode_len();
    if n < 5 {
        return false;
    }
    let r = p.get_char(n - 5) == '.' && p.get_char(n - 4) == 'c' && p.get_char(n - 3) == 'h'
        && p.get_char(n - 2) == 'a' && p.get_char(n - 1) == 'i';
    proof {
        let tail = path@.subrange(n - 5, n as int);
        if r {
            assert(tail =~= seq!['.', 'c', 'h', 'a', 'i']);
        } else {
            if tail == seq!['.', 'c', 'h', 'a', 'i'] {
                assert(tail[0] == path@[n - 5]);
                assert(tail[1] == path@[n - 4]);
                assert(tail[2] == path@[n - 3]);
                assert(tail[3] == path@[n - 2]);
                assert(tail[4] == path@[n - 1]);
            }
        }
    }
    r
}

proof fn lemma_skip_white_exact(s: Seq<char>, p: int, i: int)
    requires
        0 <= p <= i <= s.len(),
        forall|k: int| p <= k < i ==> is_white_space(#[trigger] s[k]),
        i == s.len() || !is_white_space(s[i]),
    ensures
        skip_white(s, p) == i,
    decreases i - p,
{
    if p < i {
        lemma_skip_white_exact(s, p + 1, i);
    }
}

proof fn lemma_run_end_exact(s: Seq<char>, i: int, e: int)
    requires
        0 <= i <= e <= s.len(),
        forall|k: int| i <= k < e ==> !is_white_space(#[trigger] s[k]),
        e == s.len() || is_white_space(s[e]),
    ensures
        run_end(s, i) == e,
    decreases e - i,
{
    if i < e {
        lemma_run_end_exact(s, i + 1, e);
    }
}

proof fn lemma_quote_end_exact(s: Seq<char>, i: int, q: int)
    requires
        0 <= i <= q <= s.len(),
        forall|k: int| i <= k < q ==> #[trigger] s[k] != '"',
        q == s.len() || s[q] == '"',
    ensures
        quote_end(s, i) == q,
    decreases q - i,
{
    if i < q {
        lemma_quote_end_exact(s, i + 1, q);
    }
}

/// A lexeme of ASCII digits whose value fits in 64 bits scans to a `Number`
/// token of exactly that value, placed at the lexeme's first character, and
/// scanning goes on right after the lexeme.
pub proof fn lemma_number_lexeme(s: Seq<char>, p: int, i: int, e: int, source: Seq<char>)
    requires
        0 <= p <= i < e <= s.len(),
        forall|k: int| p <= k < i ==> is_white_space(#[trigger] s[k]),
        all_digits(s.subrange(i, e)),
        e == s.len() || is_white_space(s[e]),
        decimal_value(s.subrange(i, e)) <= u64::MAX,
    ensures
        lex_items(s, p, source) == seq![
            Ok::<TokenView, ErrorView>(token_at(s, i, source, TokenKindView::Number(decimal_value(s.subrange(i, e)) as u64))),
        ] + lex_items(s, e, source),
{
    assert forall|k: int| i <= k < e implies !is_white_space(#[trigger] s[k]) by {
        assert(is_digit(s.subrange(i, e)[k - i]));
    }
    assert(is_digit(s.subrange(i, e)[0]));
    lemma_skip_white_exact(s, p, i);
    lemma_run_end_exact(s, i, e);
}

/// Text with no double quote, wrapped in double quotes, scans to exactly
/// one `String` token whose payload is that text, unchanged.
pub proof fn lemma_quoted_text(t: Seq<char>, source: Seq<char>)
    requires
        forall|k: int| 0 <= k < t.len() ==> #[trigger] t[k] != '"',
    ensures
        lex_items(seq!['"'] + t + seq!['"'], 0, source) == seq![
            Ok::<TokenView, ErrorView>(TokenView { kind: TokenKindView::String(t), source, position: (0, 0) }),
        ],
{
    let s = seq!['"'] + t + seq!['"'];
    let q = t.len() + 1int;
    assert forall|k: int| 1 <= k < q implies #[trigger] s[k] != '"' by {
        assert(s[k] == t[k - 1]);
    }
    lemma_skip_white_exact(s, 0, 0);
    lemma_quote_end_exact(s, 1, q);
    assert(s.subrange(1, q) =~= t);
    assert(lex_items(s, q + 1, source) =~= Seq::<ScanItem>::empty());
}

/// A double quote with no closing quote after it is an error at the
/// opening quote, and nothing is made of the text after it.
pub proof fn lemma_unterminated_string(s: Seq<char>, p: int, i: int, source: Seq<char>)
    requires
        0 <= p <= i < s.len(),
        forall|k: int| p <= k < i ==> is_white_space(#[trigger] s[k]),
        s[i] == '"',
        forall|k: int| i < k < s.len() ==> #[trigger] s[k] != '"',
    ensures
        lex_items(s, p, source) == seq![
            Err::<TokenView, ErrorView>(error_at(s, i, source, unterminated_string_message())),
        ],
        errors_of(lex_items(s, p, source)).len() == 1,
{
    lemma_skip_white_exact(s, p, i);
    lemma_quote_end_exact(s, i + 1, s.len() as int);
    assert(lex_items(s, s.len() as int, source) =~= Seq::<ScanItem>::empty());
    assert(lex_items(s, p, source) =~= seq![
        Err::<TokenView, ErrorView>(error_at(s, i, source, unterminated_string_message())),
    ]);
    assert(lex_items(s, p, source).drop_last() =~= Seq::<ScanItem>::empty());
    assert(errors_of(Seq::<ScanItem>::empty()) == Seq::<ErrorView>::empty());
}

proof fn lemma_split_results(a: Seq<ScanItem>, b: Seq<ScanItem>)
    ensures
        tokens_of(a + b) == tokens_of(a) + tokens_of(b),
        errors_of(a + b) == errors_of(a) + errors_of(b),
    decreases b.len(),
{
    if b.len() == 0 {
        assert(a + b =~= a);
        assert(tokens_of(a) + tokens_of(b) =~= tokens_of(a));
        assert(errors_of(a) + errors_of(b) =~= errors_of(a));
    } else {
        lemma_split_results(a, b.drop_last());
        assert((a + b).drop_last() =~= a + b.drop_last());
        assert((a + b).last() == b.last());
        assert(tokens_of(a) + tokens_of(b) =~= match b.last() {
            Ok(t) => (tokens_of(a) + tokens_of(b.drop_last())).push(t),
            Err(_) => tokens_of(a) + tokens_of(b.drop_last()),
        });
        assert(errors_of(a) + errors_of(b) =~= match b.last() {
            Ok(_) => errors_of(a) + errors_of(b.drop_last()),
            Err(e) => (errors_of(a) + errors_of(b.drop_last())).push(e),
        });
    }
}

/// Scanning does not stop at a failing lexeme: the errors (and tokens) of
/// the text are those of its next lexeme followed by those of the rest,
/// so every failing lexeme contributes its own error.
pub proof fn lemma_errors_aggregate(s: Seq<char>, i: int, source: Seq<char>)
    requires
        0 <= skip_white(s, i) < s.len(),
    ensures
        ({
            let (item, next) = scan(s, skip_white(s, i), source);
            &&& errors_of(lex_items(s, i, source)) == errors_of(seq![item]) + errors_of(
                lex_items(s, next, source),
            )
            &&& tokens_of(lex_items(s, i, source)) == tokens_of(seq![item]) + tokens_of(
                lex_items(s, next, source),
            )
            &&& (item is Err ==> errors_of(seq![item]).len() == 1)
        }),
{
    let (item, next) = scan(s, skip_white(s, i), source);
    lemma_split_results(seq![item], lex_items(s, next, source));
    assert(seq![item].drop_last() =~= Seq::<ScanItem>::empty());
    assert(errors_of(Seq::<ScanItem>::empty()) == Seq::<ErrorView>::empty());
    assert(lex_items(s, i, source) == seq![item] + lex_items(s, next, source));
}

/// Text made only of white space holds no lexemes.
pub proof fn lemma_blank_text(s: Seq<char>, i: int, source: Seq<char>)
    requires
        0 <= i <= s.len(),
        forall|k: int| i <= k < s.len() ==> is_white_space(#[trigger] s[k]),
    ensures
        lex_items(s, i, source) == Seq::<ScanItem>::empty(),
{
    lemma_skip_white_exact(s, i, s.len() as int);
}

proof fn lemma_position_bounds(s: Seq<char>, i: int)
    requires
        0 <= i,
    ensures
        position_after(s, i).0 <= i,
        position_after(s, i).1 <= i,
    decreases i,
{
    if i > 0 {
        lemma_position_bounds(s, i - 1);
    }
}

pub open spec fn scan_view(r: Result<Token, ChaiError>) -> ScanItem {
    match r {
        Ok(t) => Ok(t@),
        Err(e) => Err(e@),
    }
}

/// Builds `prefix`, then the characters of `middle`, then `suffix`.
fn message_around(prefix: &str, middle: &Vec<char>, suffix: &str) -> (r: String)
    ensures
        r@ == prefix@ + middle@ + suffix@,
{
    let mut r = String::from_str(prefix);
    append_chars(&mut r, middle);
    r.append(suffix);
    r
}

/// A scanner over one source text, with its cursor and the position of the
/// cursor.
#[derive(Debug)]
pub struct Lexer {
    source: Vec<char>,
    source_path: String,
    index: usize,
    // Line and column
    position: (usize, usize),
    words: WordTable,
}

impl Lexer {
    /// The characters of the source text.
    pub closed spec fn text(&self) -> Seq<char> {
        self.source@
    }

    /// The name of the source, as tokens and errors carry it.
    pub closed spec fn source_name(&self) -> Seq<char> {
        self.source_path@
    }

    /// The index of the next character to scan.
    pub closed spec fn cursor(&self) -> int {
        self.index as int
    }

    pub closed spec fn wf(&self) -> bool {
        &&& self.index <= self.source@.len()
        &&& (self.position.0 as nat, self.position.1 as nat) == position_after(
            self.source@,
            self.index as int,
        )
        &&& self.words@ == builtin_words()
    }

    closed spec fn same_text(&self, other: &Lexer) -> bool {
        &&& self.source@ == other.source@
        &&& self.source_path@ == other.source_path@
        &&& self.words@ == other.words@
    }

    /// Rejects a source path that does not end in `.chai`.
    pub fn check_source_path(source_path: &String) -> (r: Result<(), ChaiError>)
        ensures
            r is Ok <==> has_source_extension(source_path@),
            r matches Err(e) ==> e@ == ErrorView::Standard(extension_message(source_path@)),
    {
        if ends_with_extension(source_path) {
            Ok(())
        } else {
            let mut m = String::from_str("Source file '");
            m.append(source_path.as_str());
            m.append("' must use the '.chai' file extension.");
            Err(ChaiError::StandardError(m))
        }
    }

    /// A lexer at the start of `contents`, the text read from `source_path`
    /// (`None` where it could not be read). The path is checked first, so a
    /// wrong extension is reported whatever `contents` holds.
    pub fn from_source_path(source_path: &String, contents: Option<String>) -> (r: Result<
        Lexer,
        ChaiError,
    >)
        ensures
            !has_source_extension(source_path@) ==> (r matches Err(e) && e@ == ErrorView::Standard(
                extension_message(source_path@),
            )),
            has_source_extension(source_path@) && contents is None ==> (r matches Err(e) && e@
                == ErrorView::Standard(unreadable_message(source_path@))),
            has_source_extension(source_path@) && contents is Some ==> (r matches Ok(l) && l.wf()
                && l.text() == contents->Some_0@ && l.source_name() == source_path@ && l.cursor()
                == 0),
    {
        match Lexer::check_source_path(source_path) {
            Err(e) => Err(e),
            Ok(()) => match contents {
                None => {
                    let mut m = String::from_str("Failed to open file '");
                    m.append(source_path.as_str());
                    m.append("' for reading");
                    Err(ChaiError::StandardError(m))
                },
                Some(text) => {
                    let source = chars_of(text.as_str());
                    Ok(Lexer {
                        source,
                        source_path: source_path.clone(),
                        index: 0,
                        position: (0, 0),
                        words: WordTable::builtin(),
                    })
                },
            },
        }
    }

    fn reached_end(&self) -> (r: bool)
        ensures
            r == (self.index >= self.source@.len()),
    {
        self.index >= self.source.len()
    }

    fn peek(&self) -> (c: char)
        requires
            self.index < self.source@.len(),
        ensures
            c == self.source@[self.index as int],
    {
        self.source[self.index]
    }

    fn advance(&mut self) -> (c: char)
        requires
            old(self).wf(),
            old(self).index < old(self).source@.len(),
        ensures
            final(self).wf(),
            final(self).same_text(old(self)),
            final(self).index == old(self).index + 1,
            c == old(self).source@[old(self).index as int],
    {
        let c = self.peek();
        // The counters stay below the text's length, which fits in a usize.
        let _len = self.source.len();
        proof {
            lemma_position_bounds(self.source@, self.index as int);
        }
        if c == '\n' {
            self.position.0 = self.position.0 + 1;
            self.position.1 = 0;
        } else {
            self.position.1 = self.position.1 + 1;
        }
        self.index = self.index + 1;
        c
    }

    fn skip_whitespace(&mut self)
        requires
            old(self).wf(),
        ensures
            final(self).wf(),
            final(self).same_text(old(self)),
            final(self).index == skip_white(old(self).source@, old(self).index as int),
    {
        while !self.reached_end() && is_white_space_char(self.peek())
            invariant
                self.wf(),
                self.same_text(old(self)),
                skip_white(self.source@, self.index as int) == skip_white(
                    old(self).source@,
                    old(self).index as int,
                ),
            decreases self.source@.len() - self.index,
        {
            self.advance();
        }
    }

    /// Moves the cursor to the end of the run of non-white-space characters.
    fn skip_run(&mut self)
        requires
            old(self).wf(),
        ensures
            final(self).wf(),
            final(self).same_text(old(self)),
            final(self).index == run_end(old(self).source@, old(self).index as int),
    {
        while !self.reached_end() && !is_white_space_char(self.peek())
            invariant
                self.wf(),
                self.same_text(old(self)),
                run_end(self.source@, self.index as int) == run_end(
                    old(self).source@,
                    old(self).index as int,
                ),
            decreases self.source@.len() - self.index,
        {
            self.advance();
        }
    }

    fn slice(&self, start: usize, end: usize) -> (r: Vec<char>)
        requires
            start <= end <= self.source@.len(),
        ensures
            r@ == self.source@.subrange(start as int, end as int),
    {
        let mut r: Vec<char> = Vec::new();
        let mut i = start;
        while i < end
            invariant
                start <= i <= end <= self.source@.len(),
                r@ == self.source@.subrange(start as int, i as int),
            decreases end - i,
        {
            r.push(self.source[i]);
            i = i + 1;
            assert(r@ =~= self.source@.subrange(start as int, i as int));
        }
        r
    }

    fn collect_number(&mut self) -> (r: Result<Token, ChaiError>)
        requires
            old(self).wf(),
            old(self).index < old(self).source@.len(),
        ensures
            final(self).wf(),
            final(self).same_text(old(self)),
            (scan_view(r), final(self).index as int) == scan_number(
                old(self).source@,
                old(self).index as int,
                old(self).source_path@,
            ),
    {
        let start = self.index;
        let position = self.position;
        self.skip_run();
        let end = self.index;
        proof {
            lemma_run_end_bounds(self.source@, start as int);
        }
        let lexeme = self.slice(start, end);
        match parse_numeral(&lexeme) {
            None => Err(
                ChaiError::SourceError(
                    self.source_path.clone(),
                    position,
                    message_around("Failed to convert '", &lexeme, "' to number literal."),
                ),
            ),
            Some(v) => Ok(
                Token { kind: TokenKind::Number(v), source: self.source_path.clone(), position },
            ),
        }
    }

    fn collect_string(&mut self) -> (r: Result<Token, ChaiError>)
        requires
            old(self).wf(),
            old(self).index < old(self).source@.len(),
        ensures
            final(self).wf(),
            final(self).same_text(old(self)),
            (scan_view(r), final(self).index as int) == scan_string(
                old(self).source@,
                old(self).index as int,
                old(self).source_path@,
            ),
    {
        let start = self.index;
        let position = self.position;
        self.advance();  // Skip leading double-quote
        while !self.reached_end() && self.peek() != '"'
            invariant
                self.wf(),
                self.same_text(old(self)),
                start < self.index,
                quote_end(self.source@, self.index as int) == quote_end(
                    self.source@,
                    start + 1,
                ),
            decreases self.source@.len() - self.index,
        {
            self.advance();
        }
        if self.reached_end() {
            let message = String::from_str(
                "Expected closing double-quote. Found end-of-file instead.",
            );
            return Err(ChaiError::SourceError(self.source_path.clone(), position, message));
        }
        let close = self.index;
        self.advance();  // Skip trailing double-quote
        let inner = self.slice(start + 1, close);
        let mut text = String::new();
        append_chars(&mut text, &inner);
        Ok(Token { kind: TokenKind::String(text), source: self.source_path.clone(), position })
    }

    fn collect_word(&mut self) -> (r: Result<Token, ChaiError>)
        requires
            old(self).wf(),
            old(self).index < old(self).source@.len(),
        ensures
            final(self).wf(),
            final(self).same_text(old(self)),
            (scan_view(r), final(self).index as int) == scan_word(
                old(self).source@,
                old(self).index as int,
                old(self).source_path@,
            ),
    {
        let start = self.index;
        let position = self.position;
        self.skip_run();
        let end = self.index;
        proof {
            lemma_run_end_bounds(self.source@, start as int);
        }
        let lexeme = self.slice(start, end);
        match self.words.lookup(&lexeme) {
            None => Err(
                ChaiError::SourceError(
                    self.source_path.clone(),
                    position,
                    message_around("Unknown word '", &lexeme, "' found."),
                ),
            ),
            Some(k) => Ok(Token { kind: k, source: self.source_path.clone(), position }),
        }
    }

    fn collect_token(&mut self) -> (r: Result<Token, ChaiError>)
        requires
            old(self).wf(),
            old(self).index < old(self).source@.len(),
        ensures
            final(self).wf(),
            final(self).same_text(old(self)),
            (scan_view(r), final(self).index as int) == scan(
                old(self).source@,
                old(self).index as int,
                old(self).source_path@,
            ),
    {
        let c = self.peek();
        if '0' <= c && c <= '9' {
            self.collect_number()
        } else if c == '"' {
            self.collect_string()
        } else {
            self.collect_word()
        }
    }

    /// Scans the rest of the source once, left to right. Every lexeme that
    /// fails is reported and scanning goes on after it: the result is all
    /// the tokens when no lexeme failed, else all the errors, in order.
    pub fn collect_tokens(&mut self) -> (r: Result<Vec<Token>, Vec<ChaiError>>)
        requires
            old(self).wf(),
        ensures
            final(self).wf(),
            final(self).text() == old(self).text(),
            final(self).source_name() == old(self).source_name(),
            final(self).cursor() == old(self).text().len(),
            ({
                let items = lex_items(old(self).text(), old(self).cursor(), old(self).source_name());
                match r {
                    Ok(tokens) => errors_of(items).len() == 0 && tokens@.map_values(
                        |t: Token| t@,
                    ) == tokens_of(items),
                    Err(errors) => errors_of(items).len() > 0 && errors@.map_values(
                        |e: ChaiError| e@,
                    ) == errors_of(items),
                }
            }),
    {
        let mut tokens: Vec<Token> = Vec::new();
        let mut errors: Vec<ChaiError> = Vec::new();
        let ghost s = self.source@;
        let ghost src = self.source_path@;
        let ghost all = lex_items(s, self.index as int, src);
        let ghost done: Seq<ScanItem> = Seq::empty();
        assert(all =~= done + lex_items(s, self.index as int, src));
        loop
            invariant
                self.wf(),
                self.same_text(old(self)),
                s == self.source@,
                src == self.source_path@,
                all == done + lex_items(s, self.index as int, src),
                tokens@.map_values(|t: Token| t@) == tokens_of(done),
                errors@.map_values(|e: ChaiError| e@) == errors_of(done),
            ensures
                self.wf(),
                self.same_text(old(self)),
                self.index == s.len(),
                all == done,
                tokens@.map_values(|t: Token| t@) == tokens_of(done),
                errors@.map_values(|e: ChaiError| e@) == errors_of(done),
            decreases s.len() - self.index,
        {
            let ghost i0 = self.index as int;
            // Jump to next word boundary
            self.skip_whitespace();
            proof {
                lemma_skip_white_not_white(s, i0);
                lemma_skip_white_bounds(s, i0);
            }
            if self.reached_end() {
                assert(lex_items(s, i0, src) =~= Seq::<ScanItem>::empty());
                assert(all =~= done);
                break;
            }
            let ghost j = self.index as int;
            let result = self.collect_token();
            proof {
                lemma_scan_advances(s, j, src);
                let item = scan_view(result);
                assert(lex_items(s, i0, src) == seq![item] + lex_items(s, self.index as int, src));
                assert(done.push(item).drop_last() =~= done);
                assert(all =~= done.push(item) + lex_items(s, self.index as int, src));
                done = done.push(item);
            }
            match result {
                Ok(t) => {
                    tokens.push(t);
                    assert(tokens@.map_values(|t: Token| t@) =~= tokens_of(done));
                },
                Err(e) => {
                    errors.push(e);
                    assert(errors@.map_values(|e: ChaiError| e@) =~= errors_of(done));
                },
            }
        }
        assert(errors@.map_values(|e: ChaiError| e@).len() == errors@.len());
        if errors.len() > 0 {
            Err(errors)
        } else {
            Ok(tokens)
        }
    }
}

} // verus!
