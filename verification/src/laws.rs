//! What holds of every text: theorems about the grammar, proved once and
//! for all.

use crate::error::{anchored, anchored_all, lemma_anchored_wf, ErrorKind, Raised};
use crate::grammar::{
    elided, glyph_at, head_glyph, item_at, lemma_item_bounds, lemma_run_end_bounds,
    lemma_run_end_step, line_at, line_count, newlines_before, number_end, number_glyph, number_text,
    raised_from, run_end, span_text, string_head, symbol_char, tokens_from, word_glyph,
};
use crate::text::{
    blank, glyphs_of, lemma_first_occurrence_from, lemma_lines_of_len, lines_of, occurs_at, Glyph,
};
use crate::tokens::{end_token, placeholder, TokenView};
use vstd::prelude::*;

verus! {

/// Every token sequence closes with the end token, and the end token stands
/// nowhere else in it: from whatever index the scan sets out, what it gives
/// is not empty, its last token is the end token on the last line, and no
/// token before the last has the kind `EndOfFile`.
pub proof fn lemma_tokens_close_once(s: Seq<Glyph>, i: int)
    ensures
        tokens_from(s, i).len() >= 1,
        tokens_from(s, i).last() == end_token(line_count(s)),
        forall|k: int|
            0 <= k < tokens_from(s, i).len() - 1 ==> !((#[trigger] tokens_from(s, i)[k]).kind
                is EndOfFile),
    decreases s.len() - i,
{
    if i < -1 || i >= s.len() {
    } else if blank(glyph_at(s, i).ch) {
        lemma_tokens_close_once(s, i + 1);
    } else {
        lemma_item_bounds(s, i);
        let item = item_at(s, i);
        lemma_tokens_close_once(s, item.last + 1);
        assert(!(item.token.kind is EndOfFile));
    }
}

/// A text of blanks alone gives the end token and nothing else, and raises
/// no error.
pub proof fn lemma_blank_text(s: Seq<Glyph>, i: int)
    requires
        -1 <= i,
        forall|k: int| i <= k < s.len() && 0 <= k ==> blank(#[trigger] s[k].ch),
    ensures
        tokens_from(s, i) == seq![end_token(line_count(s))],
        raised_from(s, i) == Seq::<Raised>::empty(),
    decreases s.len() - i,
{
    if i < s.len() {
        lemma_blank_text(s, i + 1);
    }
}

/// A glyph that nothing in the grammar begins with: neither blank, nor the
/// start of a symbol, nor numeric, nor fit for a word.
pub open spec fn unknown_glyph(g: Glyph) -> bool {
    !blank(g.ch) && !symbol_char(g.ch) && !g.numeric && !word_glyph(g)
}

/// A text in which every glyph is blank or unknown gives no token but
/// placeholders and the end token: every unknown glyph gives one
/// placeholder and raises one `IdentifierError` without offender, both on
/// the glyph's line, and nothing else is given or raised.
pub proof fn lemma_unknown_text(s: Seq<Glyph>, i: int)
    requires
        -1 <= i,
        forall|k: int|
            i <= k < s.len() && 0 <= k ==> blank(#[trigger] s[k].ch) || unknown_glyph(s[k]),
    ensures
        tokens_from(s, i).len() == raised_from(s, i).len() + 1,
        forall|k: int|
            0 <= k < raised_from(s, i).len() ==> {
                &&& (#[trigger] tokens_from(s, i)[k]) == placeholder(raised_from(s, i)[k].line)
                &&& raised_from(s, i)[k].kind == ErrorKind::IdentifierError
                &&& raised_from(s, i)[k].offender == Seq::<char>::empty()
            },
    decreases s.len() - i,
{
    if i >= s.len() {
    } else if blank(glyph_at(s, i).ch) {
        lemma_unknown_text(s, i + 1);
    } else {
        lemma_unknown_text(s, i + 1);
        let item = item_at(s, i);
        assert(item.last == i);
        assert(item.raised is Some);
        let rest_t = tokens_from(s, i + 1);
        let rest_r = raised_from(s, i + 1);
        assert(tokens_from(s, i) == seq![item.token] + rest_t);
        assert(raised_from(s, i) == seq![item.raised->0] + rest_r);
        assert forall|k: int| 0 <= k < raised_from(s, i).len() implies {
            &&& (#[trigger] tokens_from(s, i)[k]) == placeholder(raised_from(s, i)[k].line)
            &&& raised_from(s, i)[k].kind == ErrorKind::IdentifierError
            &&& raised_from(s, i)[k].offender == Seq::<char>::empty()
        } by {
            if k > 0 {
                assert(tokens_from(s, i)[k] == rest_t[k - 1]);
                assert(raised_from(s, i)[k] == rest_r[k - 1]);
            }
        }
    }
}

/// Line feeds only add up: among more glyphs there are no fewer.
pub proof fn lemma_newlines_grow(s: Seq<Glyph>, a: int, b: int)
    requires
        a <= b,
    ensures
        newlines_before(s, a) <= newlines_before(s, b),
    decreases b - a,
{
    if a < b {
        lemma_newlines_grow(s, a, b - 1);
    }
}

/// Every token lies on a line of the text: its line is at least one and at
/// most the number of lines.
pub proof fn lemma_token_lines(s: Seq<Glyph>, i: int)
    ensures
        forall|k: int|
            0 <= k < tokens_from(s, i).len() ==> 1 <= (#[trigger] tokens_from(s, i)[k]).line
                <= line_count(s),
    decreases s.len() - i,
{
    if i < -1 || i >= s.len() {
    } else if blank(glyph_at(s, i).ch) {
        lemma_token_lines(s, i + 1);
    } else {
        lemma_item_bounds(s, i);
        let item = item_at(s, i);
        lemma_token_lines(s, item.last + 1);
        lemma_newlines_grow(s, i + 1, s.len() as int);
        assert(item.token.line == line_at(s, i));
        let rest = tokens_from(s, item.last + 1);
        assert forall|k: int| 0 <= k < tokens_from(s, i).len() implies 1 <= (
        #[trigger] tokens_from(s, i)[k]).line <= line_count(s) by {
            if k > 0 {
                assert(tokens_from(s, i)[k] == rest[k - 1]);
            }
        }
    }
}

/// Leaving the underscores out of a text leaves none in it, so doing it
/// twice is doing it once: a number written with separators and the same
/// number written without them have one lexeme.
pub proof fn lemma_elided_twice(w: Seq<char>)
    ensures
        elided(elided(w)) == elided(w),
        forall|k: int| 0 <= k < elided(w).len() ==> (#[trigger] elided(w)[k]) != '_',
    decreases w.len(),
{
    if w.len() > 0 {
        lemma_elided_twice(w.drop_last());
        if w.last() != '_' {
            let e = elided(w.drop_last());
            assert(e.push(w.last()).drop_last() =~= e);
        }
    }
}

/// A text without underscores is its own lexeme.
pub proof fn lemma_elided_plain(w: Seq<char>)
    requires
        forall|k: int| 0 <= k < w.len() ==> (#[trigger] w[k]) != '_',
    ensures
        elided(w) == w,
    decreases w.len(),
{
    if w.len() > 0 {
        lemma_elided_plain(w.drop_last());
        assert(w.drop_last().push(w.last()) =~= w);
    }
}

/// Every diagnostic of a scan splits its line into prefix, offender and
/// suffix: put together again they are the line, character for character.
pub proof fn lemma_diagnostics_rebuild(lines: Seq<Seq<char>>, raised: Seq<Raised>)
    ensures
        forall|k: int|
            0 <= k < raised.len() ==> {
                let d = #[trigger] anchored_all(lines, raised)[k];
                d.prefix + d.offender + d.suffix == d.content
            },
{
    assert forall|k: int| 0 <= k < raised.len() implies {
        let d = #[trigger] anchored_all(lines, raised)[k];
        d.prefix + d.offender + d.suffix == d.content
    } by {
        lemma_anchored_wf(lines, raised[k]);
    }
}

/// A text has as many lines as `lines_of` gives for it.
pub proof fn lemma_lines_count(w: Seq<char>, n: int)
    requires
        0 <= n <= w.len(),
    ensures
        lines_of(w.take(n)).len() == 1 + newlines_before(glyphs_of(w), n),
    decreases n,
{
    if n > 0 {
        lemma_lines_count(w, n - 1);
        assert(w.take(n).drop_last() =~= w.take(n - 1));
        lemma_lines_of_len(w.take(n - 1));
    } else {
        assert(w.take(0) =~= Seq::<char>::empty());
    }
}

/// Every error is raised on a line of the text: where the lines handed to
/// the scanner are those of the text itself, no diagnostic is without its
/// line.
pub proof fn lemma_raised_lines(s: Seq<Glyph>, i: int)
    ensures
        forall|k: int|
            0 <= k < raised_from(s, i).len() ==> 1 <= (#[trigger] raised_from(s, i)[k]).line
                <= line_count(s),
    decreases s.len() - i,
{
    if i < -1 || i >= s.len() {
    } else if blank(glyph_at(s, i).ch) {
        lemma_raised_lines(s, i + 1);
    } else {
        lemma_item_bounds(s, i);
        let item = item_at(s, i);
        lemma_raised_lines(s, item.last + 1);
        lemma_newlines_grow(s, i + 1, s.len() as int);
        let rest = raised_from(s, item.last + 1);
        assert forall|k: int| 0 <= k < raised_from(s, i).len() implies 1 <= (
        #[trigger] raised_from(s, i)[k]).line <= line_count(s) by {
            if item.raised is Some {
                if k > 0 {
                    assert(raised_from(s, i)[k] == rest[k - 1]);
                } else {
                    assert(raised_from(s, i)[0] == item.raised->0);
                    assert(item.raised->0.line == line_at(s, i));
                }
            }
        }
    }
}

/// A decimal point inside a number does not end it: where everything between
/// the first glyph of a number and a point carries the number on, the number
/// runs on behind the point.
pub proof fn lemma_point_stays_inside(s: Seq<Glyph>, i: int, j: int)
    requires
        0 <= i < j < s.len(),
        forall|k: int| i < k < j ==> number_glyph(#[trigger] s[k]),
        s[j].ch == '.',
    ensures
        number_end(s, i) > j,
{
    assert(number_glyph(s[j]));
    lemma_run_end_step(s, i + 1, j + 1, |g: Glyph| number_glyph(g));
    lemma_run_end_bounds(s, j + 1, |g: Glyph| number_glyph(g));
}

/// What holds of every character of a text holds of every character of
/// its lexeme: leaving underscores out adds nothing.
pub proof fn lemma_elided_keeps(w: Seq<char>, p: spec_fn(char) -> bool)
    requires
        forall|k: int| 0 <= k < w.len() ==> p(#[trigger] w[k]),
    ensures
        forall|k: int| 0 <= k < elided(w).len() ==> p(#[trigger] elided(w)[k]),
    decreases w.len(),
{
    if w.len() > 0 {
        let d = w.drop_last();
        assert forall|k: int| 0 <= k < d.len() implies p(#[trigger] d[k]) by {
            assert(d[k] == w[k]);
        }
        lemma_elided_keeps(d, p);
        assert(p(w[w.len() - 1]));
        assert forall|k: int| 0 <= k < elided(w).len() implies p(#[trigger] elided(w)[k]) by {
            if w.last() != '_' && k == elided(d).len() {
                assert(elided(w)[k] == w.last());
            } else {
                assert(elided(w)[k] == elided(d)[k]);
            }
        }
    }
}

/// The lexeme of a number that begins with no blank holds no blank: no
/// space, no tab, no carriage return and no line feed.
pub proof fn lemma_number_holds_no_blank(s: Seq<Glyph>, i: int)
    requires
        0 <= i < s.len(),
        !blank(s[i].ch),
    ensures
        forall|k: int| 0 <= k < number_text(s, i).len() ==> !blank(#[trigger] number_text(s, i)[k]),
{
    let to = number_end(s, i);
    lemma_run_end_bounds(s, i + 1, |g: Glyph| number_glyph(g));
    let w = span_text(s, i, to);
    assert forall|k: int| 0 <= k < w.len() implies !blank(#[trigger] w[k]) by {
        if k > 0 {
            assert(number_glyph(s[i + k]));
        }
    }
    lemma_elided_keeps(w, |c: char| !blank(c));
}

/// The number of placeholders among `tokens`: those of kind `Empty`.
pub open spec fn placeholders(tokens: Seq<TokenView>) -> nat
    decreases tokens.len(),
{
    if tokens.len() == 0 {
        0
    } else {
        placeholders(tokens.drop_first()) + if tokens[0].kind is Empty {
            1nat
        } else {
            0nat
        }
    }
}

/// A scan gives one placeholder for every error it raises, and no other:
/// there are as many tokens of kind `Empty` as errors.
pub proof fn lemma_placeholder_for_every_error(s: Seq<Glyph>, i: int)
    ensures
        placeholders(tokens_from(s, i)) == raised_from(s, i).len(),
    decreases s.len() - i,
{
    if i < -1 || i >= s.len() {
        assert(tokens_from(s, i).drop_first() =~= Seq::<TokenView>::empty());
        assert(placeholders(Seq::<TokenView>::empty()) == 0);
    } else if blank(glyph_at(s, i).ch) {
        lemma_placeholder_for_every_error(s, i + 1);
    } else {
        lemma_item_bounds(s, i);
        let item = item_at(s, i);
        lemma_placeholder_for_every_error(s, item.last + 1);
        let rest = tokens_from(s, item.last + 1);
        assert(tokens_from(s, i).drop_first() =~= rest);
        assert(item.token.kind is Empty <==> item.raised is Some);
    }
}

/// Where the scanner is handed the lines of the very text it scans, the
/// line of every error is at hand: every diagnostic carries the line number
/// of its error, which is at least one, and the text of that line.
pub proof fn lemma_lines_at_hand(w: Seq<char>, i: int)
    ensures
        forall|k: int|
            0 <= k < raised_from(glyphs_of(w), i).len() ==> {
                let r = #[trigger] raised_from(glyphs_of(w), i)[k];
                &&& 1 <= r.line <= lines_of(w).len()
                &&& anchored(lines_of(w), r).line == r.line
                &&& anchored(lines_of(w), r).content == lines_of(w)[r.line - 1]
            },
{
    let s = glyphs_of(w);
    lemma_raised_lines(s, i);
    lemma_lines_count(w, w.len() as int);
    assert(w.take(w.len() as int) =~= w);
}

/// Where the line begins that holds the first `n` characters' end: the
/// index behind the last line feed among them, zero where there is none.
pub open spec fn line_start(w: Seq<char>, n: int) -> int
    decreases n,
{
    if n <= 0 {
        0
    } else if n - 1 < w.len() && w[n - 1] == '\n' {
        n
    } else {
        line_start(w, n - 1)
    }
}

/// The last line of the first `n` characters is what stands between the
/// last line feed among them and their end.
pub proof fn lemma_last_line(w: Seq<char>, n: int)
    requires
        0 <= n <= w.len(),
    ensures
        0 <= line_start(w, n) <= n,
        lines_of(w.take(n)).len() >= 1,
        lines_of(w.take(n)).last() == w.subrange(line_start(w, n), n),
    decreases n,
{
    if n == 0 {
        assert(w.take(0) =~= Seq::<char>::empty());
        assert(lines_of(w.take(0)).last() =~= w.subrange(0, 0));
    } else {
        lemma_last_line(w, n - 1);
        assert(w.take(n).drop_last() =~= w.take(n - 1));
        let before = lines_of(w.take(n - 1));
        if w[n - 1] == '\n' {
            assert(lines_of(w.take(n)).last() =~= w.subrange(n, n));
        } else {
            assert(before.last().push(w[n - 1]) =~= w.subrange(line_start(w, n), n));
        }
    }
}

/// A line that has been closed by a line feed stays as it is, however much
/// more of the text is read.
pub proof fn lemma_lines_stay(w: Seq<char>, n: int, m: int, k: int)
    requires
        0 <= n <= m <= w.len(),
        0 <= k < lines_of(w.take(n)).len() - 1,
    ensures
        lines_of(w.take(m)).len() >= lines_of(w.take(n)).len(),
        lines_of(w.take(m))[k] == lines_of(w.take(n))[k],
    decreases m - n,
{
    if m > n {
        lemma_lines_stay(w, n, m - 1, k);
        assert(w.take(m).drop_last() =~= w.take(m - 1));
    }
}

/// Between two indices with no line feed between them the line stays the
/// same: it begins where it began, and the count of line feeds stands.
pub proof fn lemma_same_line(w: Seq<char>, i: int, b: int)
    requires
        0 <= i <= b <= w.len(),
        forall|j: int| i <= j < b ==> #[trigger] w[j] != '\n',
    ensures
        line_start(w, b) == line_start(w, i),
        newlines_before(glyphs_of(w), b) == newlines_before(glyphs_of(w), i),
    decreases b - i,
{
    if i < b {
        lemma_same_line(w, i, b - 1);
        assert(w[b - 1] != '\n');
    }
}

/// A string that is never closed is still reported as such where the
/// scanner has the lines of the very text it scans: what stands behind the
/// opening quote on its line is found in that line, so that the diagnostic
/// keeps its kind and points at it.
pub proof fn lemma_open_string_keeps_its_kind(w: Seq<char>, i: int)
    requires
        0 <= i < w.len(),
        w[i] != '\n',
    ensures
        ({
            let s = glyphs_of(w);
            let d = anchored(
                lines_of(w),
                Raised {
                    kind: ErrorKind::UnterminatedStringError,
                    line: line_at(s, i),
                    offender: string_head(s, i),
                },
            );
            &&& d.kind == ErrorKind::UnterminatedStringError
            &&& d.line == line_at(s, i)
            &&& d.offender == string_head(s, i)
        }),
{
    let s = glyphs_of(w);
    let not_feed = |g: Glyph| g.ch != '\n';
    let b = run_end(s, i, not_feed);
    let e = run_end(s, i + 1, |g: Glyph| head_glyph(g));
    lemma_run_end_bounds(s, i, not_feed);
    lemma_run_end_bounds(s, i + 1, |g: Glyph| head_glyph(g));
    assert(not_feed(s[i]));
    assert(b >= i + 1);
    assert(e <= b) by {
        if e > b {
            assert(head_glyph(s[b]));
        }
    }
    assert forall|j: int| i <= j < b implies #[trigger] w[j] != '\n' by {
        assert(not_feed(s[j]));
    }
    lemma_same_line(w, i, b);
    lemma_same_line(w, i, i + 1);
    let a = line_start(w, i);
    let k = newlines_before(s, i) as int;
    lemma_last_line(w, i);
    lemma_last_line(w, b);
    lemma_lines_count(w, b);
    lemma_lines_count(w, w.len() as int);
    assert(w.take(w.len() as int) =~= w);
    let line = w.subrange(a, b);
    assert(lines_of(w)[k] == line) by {
        if b < w.len() {
            assert(w[b] == '\n') by {
                assert(!not_feed(s[b]));
            }
            assert(w.take(b + 1).drop_last() =~= w.take(b));
            lemma_lines_count(w, b + 1);
            assert(lines_of(w.take(b + 1))[k] == lines_of(w.take(b)).last());
            lemma_lines_stay(w, b + 1, w.len() as int, k);
        }
    }
    let head = string_head(s, i);
    assert(head =~= w.subrange(i + 1, e));
    assert(line.subrange(i + 1 - a, i + 1 - a + head.len()) =~= head);
    assert(occurs_at(line, head, i + 1 - a));
    lemma_first_occurrence_from(line, head, 0);
    lemma_newlines_grow(s, i + 1, s.len() as int);
}

} // verus!
