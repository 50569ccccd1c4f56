//! The lexical grammar, stated over sequences of glyphs: what counts as a
//! symbol, a number, a word or a string, and which tokens and errors a whole
//! text gives. Nothing here runs; the scanner is proved against it.

use crate::error::{ErrorKind, Raised};
use crate::text::{blank, void_glyph, white_space, Glyph};
use crate::tokens::{end_token, placeholder, KindView, TokenView};
use vstd::prelude::*;

verus! {

/// The glyph at index `i`, or the void glyph where the text has none.
pub open spec fn glyph_at(s: Seq<Glyph>, i: int) -> Glyph {
    if 0 <= i < s.len() {
        s[i]
    } else {
        void_glyph()
    }
}

/// The characters of the glyphs from index `from` up to, not including,
/// index `to`.
pub open spec fn span_text(s: Seq<Glyph>, from: int, to: int) -> Seq<char> {
    Seq::new((to - from) as nat, |k: int| glyph_at(s, from + k).ch)
}

/// The number of line feeds among the first `n` glyphs.
pub open spec fn newlines_before(s: Seq<Glyph>, n: int) -> nat
    decreases n,
{
    if n <= 0 {
        0
    } else {
        newlines_before(s, n - 1) + if n - 1 < s.len() && s[n - 1].ch == '\n' {
            1nat
        } else {
            0nat
        }
    }
}

/// The value of the line counter while the glyph at index `i` is the current
/// one: one more than the line feeds up to and including it. For a glyph
/// that is no line feed this is the number of its line, counted from one.
pub open spec fn line_at(s: Seq<Glyph>, i: int) -> nat {
    1 + newlines_before(s, i + 1)
}

/// The number of lines of a text: one more than its line feeds.
pub open spec fn line_count(s: Seq<Glyph>) -> nat {
    1 + newlines_before(s, s.len() as int)
}

/// There are no more line feeds among the first `n` glyphs than glyphs.
pub proof fn lemma_newlines_bound(s: Seq<Glyph>, n: int)
    ensures
        newlines_before(s, n) <= if n < 0 {
            0
        } else if n <= s.len() {
            n
        } else {
            s.len() as int
        },
    decreases n,
{
    if n > 0 {
        lemma_newlines_bound(s, n - 1);
    }
}

/// The token kind of a symbol that is one character long.
pub open spec fn single_symbol(c: char) -> Option<KindView> {
    if c == '(' {
        Some(KindView::LPar)
    } else if c == ')' {
        Some(KindView::RPar)
    } else if c == '[' {
        Some(KindView::LBrac)
    } else if c == ']' {
        Some(KindView::RBrac)
    } else if c == '{' {
        Some(KindView::LCurl)
    } else if c == '}' {
        Some(KindView::RCurl)
    } else if c == '.' {
        Some(KindView::Dot)
    } else if c == ',' {
        Some(KindView::Comma)
    } else if c == ':' {
        Some(KindView::Colon)
    } else if c == ';' {
        Some(KindView::Semicolon)
    } else if c == '*' {
        Some(KindView::Star)
    } else if c == '/' {
        Some(KindView::Slash)
    } else if c == '\n' {
        Some(KindView::Newline)
    } else if c == '\r' {
        Some(KindView::Empty)
    } else if c == '+' {
        Some(KindView::Plus)
    } else if c == '-' {
        Some(KindView::Minus)
    } else if c == '>' {
        Some(KindView::MoreThan)
    } else if c == '<' {
        Some(KindView::LessThan)
    } else if c == '=' {
        Some(KindView::Equal)
    } else if c == '!' {
        Some(KindView::Bang)
    } else if c == '&' {
        Some(KindView::Ampersand)
    } else if c == '|' {
        Some(KindView::Bar)
    } else {
        None
    }
}

/// The token kind of a symbol that is two characters long.
pub open spec fn double_symbol(c: char, d: char) -> Option<KindView> {
    if c == '+' && d == '=' {
        Some(KindView::PlusEqual)
    } else if c == '-' && d == '=' {
        Some(KindView::MinusEqual)
    } else if c == '>' && d == '=' {
        Some(KindView::MoreEqual)
    } else if c == '<' && d == '=' {
        Some(KindView::LessEqual)
    } else if c == '=' && d == '=' {
        Some(KindView::EqualEqual)
    } else if c == '!' && d == '=' {
        Some(KindView::BangEqual)
    } else if c == '&' && d == '&' {
        Some(KindView::And)
    } else if c == '|' && d == '|' {
        Some(KindView::Or)
    } else {
        None
    }
}

/// Whether a symbol or a string literal begins with `c`.
pub open spec fn symbol_char(c: char) -> bool {
    single_symbol(c) is Some || c == '"'
}

/// The lexeme of a token whose kind fixes its spelling. Literal kinds spell
/// their own text.
pub open spec fn spelling(kind: KindView) -> Seq<char> {
    match kind {
        KindView::RPar => ")"@,
        KindView::LPar => "("@,
        KindView::RBrac => "]"@,
        KindView::LBrac => "["@,
        KindView::RCurl => "}"@,
        KindView::LCurl => "{"@,
        KindView::Ampersand => "&"@,
        KindView::Dot => "."@,
        KindView::Comma => ","@,
        KindView::Semicolon => ";"@,
        KindView::Colon => ":"@,
        KindView::Bar => "|"@,
        KindView::Slash => "/"@,
        KindView::Plus => "+"@,
        KindView::Minus => "-"@,
        KindView::PlusEqual => "+="@,
        KindView::MinusEqual => "-="@,
        KindView::Star => "*"@,
        KindView::MoreThan => ">"@,
        KindView::MoreEqual => ">="@,
        KindView::LessThan => "<"@,
        KindView::LessEqual => "<="@,
        KindView::Bang => "!"@,
        KindView::BangEqual => "!="@,
        KindView::Equal => "="@,
        KindView::EqualEqual => "=="@,
        KindView::And => "&&"@,
        KindView::Or => "||"@,
        KindView::Func => "func"@,
        KindView::Matrix => "matrix"@,
        KindView::Out => "out"@,
        KindView::If => "if"@,
        KindView::Elif => "elif"@,
        KindView::Else => "else"@,
        KindView::For => "for"@,
        KindView::While => "while"@,
        KindView::Const => "const"@,
        KindView::End => "end"@,
        KindView::Type(text) => text,
        KindView::StringLiteral(text) => text,
        KindView::NumberLiteral(text) => text,
        KindView::EndOfFile => "<END OF FILE>"@,
        KindView::Empty => "empty"@,
        KindView::Newline => "newline"@,
    }
}

/// The token of kind `kind` in its fixed spelling, begun on line `line`.
pub open spec fn fixed_token(kind: KindView, line: nat) -> TokenView {
    TokenView { kind, lex: spelling(kind), line }
}

/// The index of the first character at or after `i` that is not white
/// space; the length of the text where all the rest is.
pub open spec fn skip_white(w: Seq<char>, i: int) -> int
    decreases w.len() - i,
{
    if 0 <= i < w.len() && white_space(w[i]) {
        skip_white(w, i + 1)
    } else {
        i
    }
}

/// The index just behind the last character before `j` that is not white
/// space; zero where all before `j` is.
pub open spec fn drop_white(w: Seq<char>, j: int) -> int
    decreases j,
{
    if 0 < j <= w.len() && white_space(w[j - 1]) {
        drop_white(w, j - 1)
    } else {
        j
    }
}

/// `w` without the white space at its two ends, white space being what
/// Unicode calls so.
pub open spec fn trimmed(w: Seq<char>) -> Seq<char> {
    let from = skip_white(w, 0);
    let to = drop_white(w, w.len() as int);
    if from < to {
        w.subrange(from, to)
    } else {
        Seq::empty()
    }
}

/// The reserved word that `w` spells once its ends are trimmed, if any.
pub open spec fn keyword(w: Seq<char>) -> Option<KindView> {
    let t = trimmed(w);
    if t == "func"@ {
        Some(KindView::Func)
    } else if t == "out"@ {
        Some(KindView::Out)
    } else if t == "if"@ {
        Some(KindView::If)
    } else if t == "elif"@ {
        Some(KindView::Elif)
    } else if t == "else"@ {
        Some(KindView::Else)
    } else if t == "for"@ {
        Some(KindView::For)
    } else if t == "while"@ {
        Some(KindView::While)
    } else if t == "matrix"@ {
        Some(KindView::Matrix)
    } else if t == "const"@ {
        Some(KindView::Const)
    } else if t == "end"@ {
        Some(KindView::End)
    } else {
        None
    }
}

/// Whether a glyph can stand inside a word: alphanumeric, or an underscore.
pub open spec fn word_glyph(g: Glyph) -> bool {
    g.alphanumeric || g.ch == '_'
}

/// Whether a glyph carries a number on: anything that is neither blank nor
/// the start of a symbol, and the decimal point.
pub open spec fn number_glyph(g: Glyph) -> bool {
    !blank(g.ch) && (!symbol_char(g.ch) || g.ch == '.')
}

/// Whether a glyph stands inside a string: anything but the quote.
pub open spec fn string_glyph(g: Glyph) -> bool {
    g.ch != '"'
}

/// Whether a glyph is blank.
pub open spec fn blank_glyph(g: Glyph) -> bool {
    blank(g.ch)
}

/// The first index at or after `i` whose glyph does not satisfy `p`; the
/// length of the text where all the rest does.
pub open spec fn run_end(s: Seq<Glyph>, i: int, p: spec_fn(Glyph) -> bool) -> int
    decreases s.len() - i,
{
    if 0 <= i < s.len() && p(s[i]) {
        run_end(s, i + 1, p)
    } else {
        i
    }
}

/// `w` without its underscores.
pub open spec fn elided(w: Seq<char>) -> Seq<char>
    decreases w.len(),
{
    if w.len() == 0 {
        Seq::empty()
    } else if w.last() == '_' {
        elided(w.drop_last())
    } else {
        elided(w.drop_last()).push(w.last())
    }
}

/// One step of the scanner on a glyph that is not blank: the token it
/// gives, the error it raises if any, and the index of the last glyph it
/// takes in.
pub struct Item {
    pub token: TokenView,
    pub raised: Option<Raised>,
    pub last: int,
}

/// The index just behind a number that begins at `i`.
pub open spec fn number_end(s: Seq<Glyph>, i: int) -> int {
    run_end(s, i + 1, |g: Glyph| number_glyph(g))
}

/// The index just behind a word that begins at `i`.
pub open spec fn word_end(s: Seq<Glyph>, i: int) -> int {
    run_end(s, i + 1, |g: Glyph| word_glyph(g))
}

/// The index of the quote that closes a string whose opening quote is at
/// `i`; the length of the text where none does.
pub open spec fn string_end(s: Seq<Glyph>, i: int) -> int {
    run_end(s, i + 1, |g: Glyph| string_glyph(g))
}

/// The word that begins at `i`: the longest run of word glyphs from there on,
/// empty where the glyph at `i` is none.
pub open spec fn word_text(s: Seq<Glyph>, i: int) -> Seq<char> {
    if word_glyph(glyph_at(s, i)) {
        span_text(s, i, word_end(s, i))
    } else {
        Seq::empty()
    }
}

/// The lexeme of the number that begins at `i`: its characters up to the
/// first blank or symbol other than a decimal point, underscores left out.
pub open spec fn number_text(s: Seq<Glyph>, i: int) -> Seq<char> {
    elided(span_text(s, i, number_end(s, i)))
}

/// Whether a glyph carries the first line of a string on: anything but the
/// quote and the line feed.
pub open spec fn head_glyph(g: Glyph) -> bool {
    g.ch != '"' && g.ch != '\n'
}

/// What stands on the line of the opening quote at `i`, behind that quote:
/// the string as far as its first line goes.
pub open spec fn string_head(s: Seq<Glyph>, i: int) -> Seq<char> {
    span_text(s, i + 1, run_end(s, i + 1, |g: Glyph| head_glyph(g)))
}

/// Where the scanner stands after the word classifier has run at `i`: behind
/// the word, or behind the one glyph that begins none.
pub open spec fn word_stop(s: Seq<Glyph>, i: int) -> int {
    if word_glyph(glyph_at(s, i)) {
        word_end(s, i)
    } else {
        i + 1
    }
}

/// What stands between the opening quote at `i` and the closing quote, or
/// the end of the text.
pub open spec fn string_text(s: Seq<Glyph>, i: int) -> Seq<char> {
    span_text(s, i + 1, string_end(s, i))
}

/// The step on a symbol at `i`: a string literal after a quote, a symbol of
/// two characters where the next character completes one, else the symbol
/// of one character. A string that is never closed gives a placeholder and
/// an error that quotes what there is of it on its first line.
pub open spec fn symbol_item(s: Seq<Glyph>, i: int) -> Item {
    let c = glyph_at(s, i).ch;
    let line = line_at(s, i);
    if c == '"' {
        let close = string_end(s, i);
        let text = string_text(s, i);
        if close < s.len() {
            Item {
                token: TokenView { kind: KindView::StringLiteral(text), lex: text, line },
                raised: None,
                last: close,
            }
        } else {
            Item {
                token: placeholder(line),
                raised: Some(
                    Raised {
                        kind: ErrorKind::UnterminatedStringError,
                        line,
                        offender: string_head(s, i),
                    },
                ),
                last: s.len() - 1,
            }
        }
    } else if i + 1 < s.len() && double_symbol(c, s[i + 1].ch) is Some {
        Item {
            token: fixed_token(double_symbol(c, s[i + 1].ch)->0, line),
            raised: None,
            last: i + 1,
        }
    } else {
        Item { token: fixed_token(single_symbol(c)->0, line), raised: None, last: i }
    }
}

/// The step on a number at `i`.
pub open spec fn number_item(s: Seq<Glyph>, i: int) -> Item {
    let text = number_text(s, i);
    Item {
        token: TokenView { kind: KindView::NumberLiteral(text), lex: text, line: line_at(s, i) },
        raised: None,
        last: number_end(s, i) - 1,
    }
}

/// The step on anything else at `i`: a reserved word gives its token; any
/// other word is a name that nothing declares, and gives a placeholder and
/// an error that quotes it; a glyph that begins no word gives a placeholder
/// and an error that quotes nothing.
pub open spec fn word_item(s: Seq<Glyph>, i: int) -> Item {
    let line = line_at(s, i);
    let word = word_text(s, i);
    if !word_glyph(glyph_at(s, i)) {
        Item {
            token: placeholder(line),
            raised: Some(
                Raised { kind: ErrorKind::IdentifierError, line, offender: Seq::empty() },
            ),
            last: i,
        }
    } else {
        match keyword(word) {
            Some(kind) => Item {
                token: fixed_token(kind, line),
                raised: None,
                last: word_end(s, i) - 1,
            },
            None => Item {
                token: placeholder(line),
                raised: Some(Raised { kind: ErrorKind::IdentifierError, line, offender: word }),
                last: word_end(s, i) - 1,
            },
        }
    }
}

/// The step on the glyph at `i`, which is not blank: symbols first, then
/// numbers, then words.
pub open spec fn item_at(s: Seq<Glyph>, i: int) -> Item {
    let g = glyph_at(s, i);
    if symbol_char(g.ch) {
        symbol_item(s, i)
    } else if g.numeric {
        number_item(s, i)
    } else {
        word_item(s, i)
    }
}

/// Where the scanner stands after its step at `i`: behind a blank, or behind
/// the item that begins there.
pub open spec fn next_index(s: Seq<Glyph>, i: int) -> int {
    if blank(glyph_at(s, i).ch) {
        i + 1
    } else {
        item_at(s, i).last + 1
    }
}

/// A run never ends before it begins, nor behind the end of the text.
pub proof fn lemma_run_end_bounds(s: Seq<Glyph>, i: int, p: spec_fn(Glyph) -> bool)
    requires
        0 <= i <= s.len(),
    ensures
        i <= run_end(s, i, p) <= s.len(),
        run_end(s, i, p) < s.len() ==> !p(s[run_end(s, i, p)]),
        forall|k: int| i <= k < run_end(s, i, p) ==> p(#[trigger] s[k]),
    decreases s.len() - i,
{
    if i < s.len() && p(s[i]) {
        lemma_run_end_bounds(s, i + 1, p);
    }
}

/// A run that has come as far as `k` ends where the run from `k` ends.
pub proof fn lemma_run_end_step(s: Seq<Glyph>, i: int, k: int, p: spec_fn(Glyph) -> bool)
    requires
        0 <= i <= k <= s.len(),
        forall|j: int| i <= j < k ==> p(#[trigger] s[j]),
    ensures
        run_end(s, i, p) == run_end(s, k, p),
    decreases k - i,
{
    if i < k {
        lemma_run_end_step(s, i + 1, k, p);
    }
}

/// Every step takes in at least the glyph it stands on, and none behind the
/// end of the text.
pub proof fn lemma_item_bounds(s: Seq<Glyph>, i: int)
    requires
        0 <= i < s.len(),
    ensures
        i <= item_at(s, i).last < s.len(),
{
    lemma_run_end_bounds(s, i + 1, |g: Glyph| number_glyph(g));
    lemma_run_end_bounds(s, i + 1, |g: Glyph| word_glyph(g));
    lemma_run_end_bounds(s, i + 1, |g: Glyph| string_glyph(g));
}

/// The scanner moves on with every step, and not past the end.
pub proof fn lemma_next_index(s: Seq<Glyph>, i: int)
    requires
        -1 <= i < s.len(),
    ensures
        i < next_index(s, i) <= s.len(),
{
    if i >= 0 {
        lemma_item_bounds(s, i);
    }
}

/// The tokens of the text from index `i` on: one for every item, and at the
/// end of the text the token that closes the sequence.
pub open spec fn tokens_from(s: Seq<Glyph>, i: int) -> Seq<TokenView>
    decreases s.len() - i,
    via tokens_from_decreases
{
    if i < -1 || i >= s.len() {
        seq![end_token(line_count(s))]
    } else if blank(glyph_at(s, i).ch) {
        tokens_from(s, i + 1)
    } else {
        seq![item_at(s, i).token] + tokens_from(s, item_at(s, i).last + 1)
    }
}

#[via_fn]
proof fn tokens_from_decreases(s: Seq<Glyph>, i: int) {
    if -1 <= i < s.len() {
        lemma_next_index(s, i);
    }
}

/// The errors that the text raises from index `i` on, in order.
pub open spec fn raised_from(s: Seq<Glyph>, i: int) -> Seq<Raised>
    decreases s.len() - i,
    via raised_from_decreases
{
    if i < -1 || i >= s.len() {
        Seq::empty()
    } else if blank(glyph_at(s, i).ch) {
        raised_from(s, i + 1)
    } else {
        match item_at(s, i).raised {
            Some(r) => seq![r] + raised_from(s, item_at(s, i).last + 1),
            None => raised_from(s, item_at(s, i).last + 1),
        }
    }
}

#[via_fn]
proof fn raised_from_decreases(s: Seq<Glyph>, i: int) {
    if -1 <= i < s.len() {
        lemma_next_index(s, i);
    }
}

/// The tokens of a whole text.
pub open spec fn scan_tokens(s: Seq<Glyph>) -> Seq<TokenView> {
    tokens_from(s, 0)
}

/// The errors of a whole text.
pub open spec fn scan_raised(s: Seq<Glyph>) -> Seq<Raised> {
    raised_from(s, 0)
}

} // verus!
