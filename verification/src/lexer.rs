//! The scanner: a cursor over the glyphs of a text, the classifiers that
//! read one token each, and the loop that drives them to the end.

use crate::error::{
    anchored, anchored_all, diag_views, line_text, line_texts, raised_seq, DarcyError, ErrorKind,
    Raised,
};
use crate::grammar::{
    blank_glyph, drop_white, elided, fixed_token, glyph_at, head_glyph, item_at, keyword,
    lemma_item_bounds, lemma_newlines_bound, lemma_run_end_step, line_at, line_count,
    newlines_before, number_end, number_glyph, number_item, raised_from, run_end, scan_raised,
    scan_tokens, skip_white, span_text, string_end, string_glyph, string_head, string_text,
    symbol_char, symbol_item, tokens_from, trimmed, word_glyph, word_item, word_stop, word_text,
};
use crate::laws::lemma_tokens_close_once;
use crate::text::{chars_of, classify_all, glyphs_of, is_blank, is_white_space, Glyph};
use crate::tokens::{
    end_token, placeholder, token_views, KindView, MatchResult, Token, TokenKind, TokenView,
};
use vstd::prelude::*;

verus! {

/// A scanner over one text.
///
/// `chars` is the text and `pos` the number of glyphs pulled from it so far;
/// `current` is the last glyph pulled, and before the first pull a space.
/// `line` counts the line feeds pulled, from one; the cursor is the only
/// place where lines are counted. `remaining` says whether `current` is yet
/// to be scanned, and `done` whether the closing token has been appended.
/// `lines` holds the text of every line, for the diagnostics.
pub struct Lexer {
    pub chars: Vec<Glyph>,
    pub pos: usize,
    pub tokens: Vec<Token>,
    pub line: usize,
    pub current: Glyph,
    pub remaining: bool,
    pub done: bool,
    pub lines: Vec<String>,
    pub errors: Vec<DarcyError>,
}

impl Lexer {
    /// The fields agree with each other.
    pub open spec fn wf(&self) -> bool {
        &&& self.pos <= self.chars.len() < usize::MAX
        &&& self.current == glyph_at(self.chars@, self.pos - 1)
        &&& self.line == 1 + newlines_before(self.chars@, self.pos as int)
        &&& !self.remaining ==> self.pos == self.chars.len()
        &&& self.done ==> {
            &&& !self.remaining
            &&& self.tokens@.len() >= 1
            &&& self.tokens@.last()@ == end_token(line_count(self.chars@))
        }
    }

    /// The index of the glyph that is to be scanned next: `-1` before the
    /// first pull, the length of the text once nothing remains.
    pub open spec fn cursor(&self) -> int {
        if self.remaining {
            self.pos - 1
        } else {
            self.chars.len() as int
        }
    }

    /// This scanner reads the same text as `other` and has the same lines.
    pub open spec fn same_input(&self, other: &Lexer) -> bool {
        self.chars == other.chars && self.lines == other.lines
    }

    /// This scanner differs from `other` in its cursor at most.
    pub open spec fn same_output(&self, other: &Lexer) -> bool {
        self.tokens == other.tokens && self.errors == other.errors && self.done == other.done
    }

    /// A scanner before its first pull.
    pub open spec fn fresh(&self) -> bool {
        &&& self.wf()
        &&& self.pos == 0
        &&& self.remaining
        &&& !self.done
        &&& self.tokens@.len() == 0
        &&& self.errors@.len() == 0
    }

    /// A scanner over glyphs that the caller has classified.
    pub fn from_glyphs(glyphs: Vec<Glyph>, lines: Vec<String>) -> (lexer: Self)
        requires
            glyphs.len() < usize::MAX,
        ensures
            lexer.fresh(),
            lexer.chars == glyphs,
            lexer.lines == lines,
    {
        Self {
            chars: glyphs,
            pos: 0,
            tokens: Vec::new(),
            line: 1,
            current: Glyph { ch: ' ', numeric: false, alphanumeric: false },
            remaining: true,
            done: false,
            lines,
            errors: Vec::new(),
        }
    }

    /// A scanner over `chars`, each classified as the standard library
    /// classifies it. `lines` is the text of every line of the same source.
    pub fn new(chars: Vec<char>, lines: Vec<String>) -> (lexer: Self)
        requires
            chars.len() < usize::MAX,
        ensures
            lexer.fresh(),
            lexer.chars@ == glyphs_of(chars@),
            lexer.lines == lines,
    {
        Self::from_glyphs(classify_all(&chars), lines)
    }

    /// A scanner over `chars` as `new` makes it, for a caller who does not
    /// know how long the text is: there is none for a text so long that its
    /// lines could not be counted.
    pub fn try_new(chars: Vec<char>, lines: Vec<String>) -> (made: Option<Self>)
        ensures
            made is Some <==> chars.len() < usize::MAX,
            made matches Some(lexer) ==> {
                &&& lexer.fresh()
                &&& lexer.chars@ == glyphs_of(chars@)
                &&& lexer.lines == lines
            },
    {
        if chars.len() < usize::MAX {
            Some(Self::new(chars, lines))
        } else {
            None
        }
    }

    /// Pulls the next glyph, if there is one, and says whether there was.
    /// A line feed that is pulled counts as a line at once.
    pub fn advance(&mut self) -> (more: bool)
        requires
            old(self).wf(),
        ensures
            final(self).wf(),
            final(self).same_input(old(self)),
            final(self).same_output(old(self)),
            more == final(self).remaining,
            final(self).cursor() == if old(self).cursor() < old(self).chars.len() {
                old(self).cursor() + 1
            } else {
                old(self).chars.len() as int
            },
            final(self).line == old(self).line + if more && final(self).current.ch == '\n' {
                1int
            } else {
                0int
            },
    {
        if self.remaining && self.pos < self.chars.len() {
            let g = self.chars[self.pos];
            self.current = g;
            self.pos = self.pos + 1;
            if g.ch == '\n' {
                proof {
                    lemma_newlines_bound(self.chars@, self.pos as int);
                }
                self.line = self.line + 1;
            }
            true
        } else {
            self.remaining = false;
            false
        }
    }

    /// The glyph behind the current one, which stays where it is.
    pub fn peek(&self) -> (next: Option<Glyph>)
        requires
            self.wf(),
        ensures
            next == if self.pos < self.chars.len() {
                Some(self.chars@[self.pos as int])
            } else {
                None
            },
    {
        if self.pos < self.chars.len() {
            Some(self.chars[self.pos])
        } else {
            None
        }
    }

    /// The number and the text of line `line`, counted from one; zero and
    /// nothing where the scanner has no such line.
    pub fn take_line(&self, line: usize) -> (found: (usize, Option<&String>))
        ensures
            found.1 is Some <==> 1 <= line <= self.lines.len(),
            found.1 matches Some(t) ==> *t == self.lines@[line - 1] && found.0 == line,
            found.1 is None ==> found.0 == 0,
    {
        match line_text(&self.lines, line) {
            Some(text) => (line, Some(text)),
            None => (0, None),
        }
    }

    /// Records an error of kind `kind`, raised on line `line` against
    /// `offender`, as a diagnostic tied to the text of that line.
    pub fn error(&mut self, kind: ErrorKind, line: usize, offender: &str)
        ensures
            final(self).same_input(old(self)),
            final(self).tokens == old(self).tokens,
            final(self).done == old(self).done,
            final(self).pos == old(self).pos,
            final(self).line == old(self).line,
            final(self).current == old(self).current,
            final(self).remaining == old(self).remaining,
            diag_views(final(self).errors@) == diag_views(old(self).errors@).push(
                anchored(
                    line_texts(old(self).lines@),
                    Raised { kind, line: line as nat, offender: offender@ },
                ),
            ),
    {
        let d = DarcyError::anchored(kind, line, offender.to_owned(), &self.lines);
        self.errors.push(d);
        assert(diag_views(self.errors@) =~= diag_views(old(self).errors@).push(d@));
    }

    /// Appends the token that closes the sequence, unless it is there
    /// already. The text must have been read to its end.
    pub fn end(&mut self)
        requires
            old(self).wf(),
            !old(self).remaining,
        ensures
            final(self).wf(),
            final(self).done,
            final(self).same_input(old(self)),
            final(self).errors == old(self).errors,
            final(self).cursor() == old(self).cursor(),
            token_views(final(self).tokens@) == if old(self).done {
                token_views(old(self).tokens@)
            } else {
                token_views(old(self).tokens@).push(end_token(line_count(old(self).chars@)))
            },
    {
        if !self.done {
            let t = Token::end(&self.line);
            self.tokens.push(t);
            self.done = true;
            assert(token_views(self.tokens@) =~= token_views(old(self).tokens@).push(t@));
        }
    }

    /// The reserved word that `word` spells once the white space at its ends
    /// is trimmed off, as a token begun on line `line`.
    pub fn match_keyword(&self, word: &String, line: usize) -> (found: Option<Token>)
        ensures
            match keyword(word@) {
                Some(kind) => found matches Some(t) && t@ == fixed_token(kind, line as nat),
                None => found is None,
            },
    {
        let t = trim(&chars_of(word.as_str()));
        if spells(&t, "func") {
            Some(Token::new(TokenKind::Func, "func", &line))
        } else if spells(&t, "out") {
            Some(Token::new(TokenKind::Out, "out", &line))
        } else if spells(&t, "if") {
            Some(Token::new(TokenKind::If, "if", &line))
        } else if spells(&t, "elif") {
            Some(Token::new(TokenKind::Elif, "elif", &line))
        } else if spells(&t, "else") {
            Some(Token::new(TokenKind::Else, "else", &line))
        } else if spells(&t, "for") {
            Some(Token::new(TokenKind::For, "for", &line))
        } else if spells(&t, "while") {
            Some(Token::new(TokenKind::While, "while", &line))
        } else if spells(&t, "matrix") {
            Some(Token::new(TokenKind::Matrix, "matrix", &line))
        } else if spells(&t, "const") {
            Some(Token::new(TokenKind::Const, "const", &line))
        } else if spells(&t, "end") {
            Some(Token::new(TokenKind::End, "end", &line))
        } else {
            None
        }
    }

    /// The name that `word` refers to. No scope is consulted yet: no name
    /// resolves.
    pub fn match_id(&self, word: &String) -> (found: Option<Token>)
        ensures
            found is None,
    {
        None
    }

    /// The token for `word`: a reserved word, else a name; no match where
    /// it is neither.
    pub fn match_word(&self, word: &String, line: usize) -> (found: MatchResult)
        ensures
            match keyword(word@) {
                Some(kind) => found matches MatchResult::Match(t) && t@ == fixed_token(
                    kind,
                    line as nat,
                ),
                None => found is NoMatch,
            },
    {
        match self.match_keyword(word, line) {
            Some(t) => MatchResult::Match(t),
            None => match self.match_id(word) {
                Some(t) => MatchResult::Match(t),
                None => MatchResult::NoMatch,
            },
        }
    }

    /// Pulls glyphs until one is not blank, at least one. `None` says that
    /// the text ended first; where nothing remained to begin with, nothing
    /// changes.
    pub fn skip_ws(&mut self) -> (found: Option<()>)
        requires
            old(self).wf(),
        ensures
            final(self).wf(),
            final(self).same_input(old(self)),
            final(self).same_output(old(self)),
            final(self).cursor() == if old(self).remaining {
                run_end(old(self).chars@, old(self).cursor() + 1, |g: Glyph| blank_glyph(g))
            } else {
                old(self).chars.len() as int
            },
            found is Some <==> final(self).remaining,
    {
        if !self.remaining {
            return None;
        }
        let ghost start = self.cursor();
        let ghost s = self.chars@;
        loop
            invariant
                self.wf(),
                self.remaining,
                old(self).remaining,
                self.same_input(old(self)),
                self.same_output(old(self)),
                s == self.chars@,
                -1 <= start <= self.cursor() < s.len(),
                start == old(self).cursor(),
                forall|j: int| start < j <= self.cursor() ==> blank_glyph(#[trigger] s[j]),
            decreases s.len() - self.cursor(),
        {
            let ghost here = self.cursor();
            proof {
                lemma_run_end_step(s, start + 1, here + 1, |g: Glyph| blank_glyph(g));
            }
            if self.advance() {
                if !is_blank(self.current.ch) {
                    return Some(());
                }
            } else {
                return None;
            }
        }
    }

    /// Reads the word that begins at the current glyph and stops on the
    /// glyph that ends it, or with nothing remaining where the text ends
    /// first. Where the current glyph begins no word, the word is empty, an
    /// `IdentifierError` without offender is recorded, and the cursor moves on
    /// by that one glyph. `None` says that there was no glyph to read.
    pub fn take_alphanum(&mut self) -> (found: Option<String>)
        requires
            old(self).wf(),
        ensures
            final(self).wf(),
            final(self).same_input(old(self)),
            final(self).tokens == old(self).tokens,
            final(self).done == old(self).done,
            found is Some <==> old(self).remaining,
            found is None ==> final(self).cursor() == old(self).cursor() && final(self).errors
                == old(self).errors,
            found matches Some(word) ==> {
                &&& word@ == word_text(old(self).chars@, old(self).cursor())
                &&& final(self).cursor() == word_stop(old(self).chars@, old(self).cursor())
                &&& diag_views(final(self).errors@) == if word_glyph(
                    glyph_at(old(self).chars@, old(self).cursor()),
                ) {
                    diag_views(old(self).errors@)
                } else {
                    diag_views(old(self).errors@).push(
                        anchored(
                            line_texts(old(self).lines@),
                            Raised {
                                kind: ErrorKind::IdentifierError,
                                line: line_at(old(self).chars@, old(self).cursor()),
                                offender: Seq::empty(),
                            },
                        ),
                    )
                }
            },
    {
        if !self.remaining {
            return None;
        }
        let ghost start = self.cursor();
        let ghost s = self.chars@;
        let line: usize = self.line;
        let mut word = String::new();
        if !is_word_glyph(self.current) {
            self.error(ErrorKind::IdentifierError, line, word.as_str());
            self.advance();
            return Some(word);
        }
        word.push(self.current.ch);
        assert(word@ =~= span_text(s, start, start + 1));
        loop
            invariant_except_break
                self.remaining,
                start <= self.cursor() < s.len(),
                forall|j: int| start < j <= self.cursor() ==> word_glyph(#[trigger] s[j]),
                word@ == span_text(s, start, self.cursor() + 1),
            invariant
                self.wf(),
                self.same_input(old(self)),
                self.same_output(old(self)),
                s == self.chars@,
                0 <= start < s.len(),
            ensures
                start < self.cursor() <= s.len(),
                run_end(s, start + 1, |g: Glyph| word_glyph(g)) == self.cursor(),
                word@ == span_text(s, start, self.cursor()),
            decreases s.len() - self.cursor(),
        {
            let ghost here = self.cursor();
            proof {
                lemma_run_end_step(s, start + 1, here + 1, |g: Glyph| word_glyph(g));
            }
            if self.advance() {
                let g = self.current;
                if is_word_glyph(g) {
                    word.push(g.ch);
                    assert(word@ =~= span_text(s, start, here + 2));
                } else {
                    break ;
                }
            } else {
                break ;
            }
        }
        Some(word)
    }

    /// Reads the number that begins at the current glyph and stops on the
    /// glyph that ends it, or with nothing remaining where the text ends
    /// first. Underscores are left out of the lexeme, and a decimal point is
    /// part of the number. `None` says that there was no glyph to read.
    pub fn take_number_literal(&mut self) -> (found: Option<Token>)
        requires
            old(self).wf(),
        ensures
            final(self).wf(),
            final(self).same_input(old(self)),
            final(self).same_output(old(self)),
            found is Some <==> old(self).remaining,
            found is None ==> final(self).cursor() == old(self).cursor(),
            found matches Some(token) ==> {
                &&& token@ == number_item(old(self).chars@, old(self).cursor()).token
                &&& final(self).cursor() == number_end(old(self).chars@, old(self).cursor())
            },
    {
        if !self.remaining {
            return None;
        }
        let ghost start = self.cursor();
        let ghost s = self.chars@;
        let line: usize = self.line;
        let mut buffer = String::new();
        assert(span_text(s, start, start + 1).drop_last() =~= Seq::<char>::empty());
        assert(elided(Seq::<char>::empty()) =~= Seq::<char>::empty());
        if self.current.ch != '_' {
            buffer.push(self.current.ch);
        }
        loop
            invariant_except_break
                self.remaining,
                start <= self.cursor() < s.len(),
                forall|j: int| start < j <= self.cursor() ==> number_glyph(#[trigger] s[j]),
                buffer@ == elided(span_text(s, start, self.cursor() + 1)),
            invariant
                self.wf(),
                self.same_input(old(self)),
                self.same_output(old(self)),
                s == self.chars@,
                -1 <= start < s.len(),
            ensures
                start < self.cursor() <= s.len(),
                run_end(s, start + 1, |g: Glyph| number_glyph(g)) == self.cursor(),
                buffer@ == elided(span_text(s, start, self.cursor())),
            decreases s.len() - self.cursor(),
        {
            let ghost here = self.cursor();
            proof {
                lemma_run_end_step(s, start + 1, here + 1, |g: Glyph| number_glyph(g));
            }
            if self.advance() {
                let g = self.current;
                if is_number_glyph(g) {
                    assert(span_text(s, start, here + 2).drop_last() =~= span_text(
                        s,
                        start,
                        here + 1,
                    ));
                    if g.ch != '_' {
                        buffer.push(g.ch);
                    }
                } else {
                    break ;
                }
            } else {
                break ;
            }
        }
        Some(Token::new(TokenKind::NumberLiteral(buffer.clone()), buffer.as_str(), &line))
    }

    /// Reads the string whose opening quote is the current glyph and stops
    /// on the closing quote. What stands between the quotes is taken as it
    /// is. Where the text ends before the string does, the cursor stops on
    /// the last glyph, an `UnterminatedStringError` that quotes what there is
    /// of the string on its first line is recorded, and there is no token.
    pub fn take_string_literal(&mut self) -> (found: Option<Token>)
        requires
            old(self).wf(),
            old(self).remaining,
        ensures
            final(self).wf(),
            final(self).remaining,
            final(self).same_input(old(self)),
            final(self).tokens == old(self).tokens,
            final(self).done == old(self).done,
            found is Some <==> string_end(old(self).chars@, old(self).cursor()) < old(
                self,
            ).chars.len(),
            found matches Some(t) ==> {
                &&& t@ == TokenView {
                    kind: KindView::StringLiteral(
                        string_text(old(self).chars@, old(self).cursor()),
                    ),
                    lex: string_text(old(self).chars@, old(self).cursor()),
                    line: line_at(old(self).chars@, old(self).cursor()),
                }
                &&& final(self).cursor() == string_end(old(self).chars@, old(self).cursor())
                &&& final(self).errors == old(self).errors
            },
            found is None ==> {
                &&& final(self).cursor() == old(self).chars.len() - 1
                &&& diag_views(final(self).errors@) == diag_views(old(self).errors@).push(
                    anchored(
                        line_texts(old(self).lines@),
                        Raised {
                            kind: ErrorKind::UnterminatedStringError,
                            line: line_at(old(self).chars@, old(self).cursor()),
                            offender: string_head(old(self).chars@, old(self).cursor()),
                        },
                    ),
                )
            },
    {
        let ghost start = self.cursor();
        let ghost s = self.chars@;
        let line: usize = self.line;
        let mut buffer = String::new();
        let mut head = String::new();
        let mut broken = false;
        let ghost mut stop: int = start + 1;
        assert(buffer@ =~= span_text(s, start + 1, start + 1));
        loop
            invariant
                self.wf(),
                self.remaining,
                self.same_input(old(self)),
                self.same_output(old(self)),
                s == self.chars@,
                -1 <= start <= self.cursor() < s.len(),
                start == old(self).cursor(),
                line == line_at(s, start),
                forall|j: int| start < j <= self.cursor() ==> string_glyph(#[trigger] s[j]),
                buffer@ == span_text(s, start + 1, self.cursor() + 1),
                start < stop <= self.cursor() + 1,
                !broken ==> stop == self.cursor() + 1,
                broken ==> s[stop].ch == '\n',
                forall|j: int| start < j < stop ==> head_glyph(#[trigger] s[j]),
                head@ == span_text(s, start + 1, stop),
            decreases s.len() - self.cursor(),
        {
            let ghost here = self.cursor();
            proof {
                lemma_run_end_step(s, start + 1, here + 1, |g: Glyph| string_glyph(g));
            }
            match self.peek() {
                Some(g) => {
                    self.advance();
                    if g.ch == '"' {
                        return Some(
                            Token::new(
                                TokenKind::StringLiteral(buffer.clone()),
                                buffer.as_str(),
                                &line,
                            ),
                        );
                    }
                    buffer.push(g.ch);
                    assert(buffer@ =~= span_text(s, start + 1, here + 2));
                    if !broken {
                        if g.ch == '\n' {
                            broken = true;
                        } else {
                            head.push(g.ch);
                            proof {
                                stop = here + 2;
                            }
                            assert(head@ =~= span_text(s, start + 1, here + 2));
                        }
                    }
                },
                None => {
                    proof {
                        lemma_run_end_step(s, start + 1, stop, |g: Glyph| head_glyph(g));
                    }
                    self.error(ErrorKind::UnterminatedStringError, line, head.as_str());
                    return None;
                },
            }
        }
    }

    /// Reads the word at the current glyph and gives its token: that of a
    /// reserved word, or a placeholder, with an `IdentifierError` recorded,
    /// for a name that nothing declares or for a glyph that begins no word.
    /// The cursor stops where `take_alphanum` leaves it. `None` says that
    /// there was no glyph to read.
    pub fn take_alphanum_and_match(&mut self) -> (found: Option<Token>)
        requires
            old(self).wf(),
        ensures
            final(self).wf(),
            final(self).same_input(old(self)),
            final(self).tokens == old(self).tokens,
            final(self).done == old(self).done,
            found is Some <==> old(self).remaining,
            found is None ==> final(self).cursor() == old(self).cursor() && final(self).errors
                == old(self).errors,
            found matches Some(token) ==> {
                &&& token@ == word_item(old(self).chars@, old(self).cursor()).token
                &&& final(self).cursor() == word_stop(old(self).chars@, old(self).cursor())
                &&& diag_views(final(self).errors@) == diag_views(old(self).errors@)
                    + anchored_all(
                    line_texts(old(self).lines@),
                    raised_seq(word_item(old(self).chars@, old(self).cursor()).raised),
                )
            },
    {
        let ghost s = self.chars@;
        let ghost start = self.cursor();
        let ghost lines = line_texts(self.lines@);
        let ghost item = word_item(s, start);
        let line: usize = self.line;
        let begins = is_word_glyph(self.current);
        let word = match self.take_alphanum() {
            Some(word) => word,
            None => {
                return None;
            },
        };
        if !begins {
            assert(diag_views(self.errors@) =~= diag_views(old(self).errors@) + anchored_all(
                lines,
                raised_seq(item.raised),
            ));
            return Some(placeholder_token(line));
        }
        match self.match_word(&word, line) {
            MatchResult::Match(t) => {
                assert(diag_views(self.errors@) =~= diag_views(old(self).errors@) + anchored_all(
                    lines,
                    raised_seq(item.raised),
                ));
                Some(t)
            },
            MatchResult::NoMatch => {
                self.error(ErrorKind::IdentifierError, line, word.as_str());
                assert(diag_views(self.errors@) =~= diag_views(old(self).errors@) + anchored_all(
                    lines,
                    raised_seq(item.raised),
                ));
                Some(placeholder_token(line))
            },
        }
    }

    /// Whether the glyph behind the current one is the character `d`.
    pub fn followed_by(&self, d: char) -> (b: bool)
        requires
            self.wf(),
        ensures
            b == (self.pos < self.chars.len() && self.chars@[self.pos as int].ch == d),
    {
        match self.peek() {
            Some(g) => g.ch == d,
            None => false,
        }
    }

    /// Reads the symbol or string that begins at the current glyph and
    /// stops on its last glyph. A symbol of two characters is preferred to
    /// one of one. There is no match, and nothing changes, where the current
    /// glyph begins neither.
    pub fn match_symbols(&mut self) -> (found: Option<Token>)
        requires
            old(self).wf(),
            old(self).remaining,
        ensures
            final(self).wf(),
            final(self).remaining,
            final(self).same_input(old(self)),
            final(self).tokens == old(self).tokens,
            final(self).done == old(self).done,
            found is Some <==> symbol_char(old(self).current.ch),
            found is None ==> final(self).cursor() == old(self).cursor() && final(self).errors
                == old(self).errors,
            found matches Some(t) ==> {
                &&& t@ == symbol_item(old(self).chars@, old(self).cursor()).token
                &&& final(self).cursor() == symbol_item(old(self).chars@, old(self).cursor()).last
                &&& diag_views(final(self).errors@) == diag_views(old(self).errors@)
                    + anchored_all(
                    line_texts(old(self).lines@),
                    raised_seq(symbol_item(old(self).chars@, old(self).cursor()).raised),
                )
            },
    {
        let ghost item = symbol_item(self.chars@, self.cursor());
        let ghost lines = line_texts(self.lines@);
        let line: usize = self.line;
        let found = match self.current.ch {
            '(' => Some(Token::new(TokenKind::LPar, "(", &line)),
            ')' => Some(Token::new(TokenKind::RPar, ")", &line)),
            '[' => Some(Token::new(TokenKind::LBrac, "[", &line)),
            ']' => Some(Token::new(TokenKind::RBrac, "]", &line)),
            '{' => Some(Token::new(TokenKind::LCurl, "{", &line)),
            '}' => Some(Token::new(TokenKind::RCurl, "}", &line)),
            '.' => Some(Token::new(TokenKind::Dot, ".", &line)),
            ',' => Some(Token::new(TokenKind::Comma, ",", &line)),
            ':' => Some(Token::new(TokenKind::Colon, ":", &line)),
            ';' => Some(Token::new(TokenKind::Semicolon, ";", &line)),
            '*' => Some(Token::new(TokenKind::Star, "*", &line)),
            '/' => Some(Token::new(TokenKind::Slash, "/", &line)),
            '\n' => Some(Token::new(TokenKind::Newline, "newline", &line)),
            '\r' => Some(Token::new(TokenKind::Empty, "empty", &line)),
            '+' => {
                if self.followed_by('=') {
                    self.advance();
                    Some(Token::new(TokenKind::PlusEqual, "+=", &line))
                } else {
                    Some(Token::new(TokenKind::Plus, "+", &line))
                }
            },
            '-' => {
                if self.followed_by('=') {
                    self.advance();
                    Some(Token::new(TokenKind::MinusEqual, "-=", &line))
                } else {
                    Some(Token::new(TokenKind::Minus, "-", &line))
                }
            },
            '>' => {
                if self.followed_by('=') {
                    self.advance();
                    Some(Token::new(TokenKind::MoreEqual, ">=", &line))
                } else {
                    Some(Token::new(TokenKind::MoreThan, ">", &line))
                }
            },
            '<' => {
                if self.followed_by('=') {
                    self.advance();
                    Some(Token::new(TokenKind::LessEqual, "<=", &line))
                } else {
                    Some(Token::new(TokenKind::LessThan, "<", &line))
                }
            },
            '=' => {
                if self.followed_by('=') {
                    self.advance();
                    Some(Token::new(TokenKind::EqualEqual, "==", &line))
                } else {
                    Some(Token::new(TokenKind::Equal, "=", &line))
                }
            },
            '!' => {
                if self.followed_by('=') {
                    self.advance();
                    Some(Token::new(TokenKind::BangEqual, "!=", &line))
                } else {
                    Some(Token::new(TokenKind::Bang, "!", &line))
                }
            },
            '&' => {
                if self.followed_by('&') {
                    self.advance();
                    Some(Token::new(TokenKind::And, "&&", &line))
                } else {
                    Some(Token::new(TokenKind::Ampersand, "&", &line))
                }
            },
            '|' => {
                if self.followed_by('|') {
                    self.advance();
                    Some(Token::new(TokenKind::Or, "||", &line))
                } else {
                    Some(Token::new(TokenKind::Bar, "|", &line))
                }
            },
            '"' => {
                match self.take_string_literal() {
                    Some(t) => Some(t),
                    None => Some(placeholder_token(line)),
                }
            },
            _ => None,
        };
        assert(found is Some ==> diag_views(self.errors@) =~= diag_views(old(self).errors@)
            + anchored_all(lines, raised_seq(item.raised)));
        found
    }

    /// Scans what remains of the text: blanks are passed over, and every
    /// other glyph begins the item that `item_at` describes, whose token
    /// is appended and whose error, if it raises one, is recorded. The loop
    /// itself pulls a glyph only behind a blank and behind a symbol; numbers
    /// and words leave it on the glyph that ended them. At the end of the
    /// text the closing token is appended, once. Gives the tokens and the
    /// diagnostics.
    pub fn scan(&mut self) -> (out: (&Vec<Token>, &Vec<DarcyError>))
        requires
            old(self).wf(),
        ensures
            final(self).wf(),
            final(self).done,
            final(self).same_input(old(self)),
            final(self).line == line_count(old(self).chars@),
            token_views(final(self).tokens@) == if old(self).done {
                token_views(old(self).tokens@)
            } else {
                token_views(old(self).tokens@) + tokens_from(old(self).chars@, old(self).cursor())
            },
            diag_views(final(self).errors@) == diag_views(old(self).errors@) + anchored_all(
                line_texts(old(self).lines@),
                raised_from(old(self).chars@, old(self).cursor()),
            ),
            final(self).tokens@.len() >= 1,
            final(self).tokens@.last()@ == end_token(line_count(old(self).chars@)),
            old(self).fresh() ==> {
                &&& forall|k: int|
                    0 <= k < final(self).tokens@.len() - 1 ==> !((
                    #[trigger] final(self).tokens@[k])@.kind is EndOfFile)
                &&& token_views(final(self).tokens@) == scan_tokens(old(self).chars@)
                &&& diag_views(final(self).errors@) == anchored_all(
                    line_texts(old(self).lines@),
                    scan_raised(old(self).chars@),
                )
            },
            *out.0 == final(self).tokens,
            *out.1 == final(self).errors,
    {
        let ghost s = self.chars@;
        let ghost lines = line_texts(self.lines@);
        let ghost start = self.cursor();
        let ghost tokens0 = token_views(self.tokens@);
        let ghost errors0 = diag_views(self.errors@);
        proof {
            assert(errors0 + anchored_all(lines, Seq::<Raised>::empty()) =~= errors0);
            if old(self).fresh() {
                assert(tokens0 + tokens_from(s, 0) =~= tokens_from(s, 0));
                assert(errors0 + anchored_all(lines, raised_from(s, 0)) =~= anchored_all(
                    lines,
                    raised_from(s, 0),
                ));
            }
        }
        while self.remaining
            invariant
                self.wf(),
                self.done == old(self).done,
                self.done ==> token_views(self.tokens@) == tokens0,
                self.same_input(old(self)),
                s == self.chars@,
                lines == line_texts(self.lines@),
                -1 <= self.cursor() <= s.len(),
                token_views(self.tokens@) + tokens_from(s, self.cursor()) == tokens0 + tokens_from(
                    s,
                    start,
                ),
                diag_views(self.errors@) + anchored_all(lines, raised_from(s, self.cursor()))
                    == errors0 + anchored_all(lines, raised_from(s, start)),
            decreases s.len() - self.cursor(),
        {
            let g = self.current;
            let ghost here = self.cursor();
            let ghost tokens1 = token_views(self.tokens@);
            let ghost errors1 = diag_views(self.errors@);
            if is_blank(g.ch) {
                self.advance();
            } else {
                let ghost item = item_at(s, here);
                proof {
                    lemma_item_bounds(s, here);
                }
                match self.match_symbols() {
                    Some(token) => {
                        self.tokens.push(token);
                        self.advance();
                    },
                    None => {
                        let found = if g.numeric {
                            let found = self.take_number_literal();
                            assert(diag_views(self.errors@) =~= errors1 + anchored_all(
                                lines,
                                raised_seq(item.raised),
                            ));
                            found
                        } else {
                            self.take_alphanum_and_match()
                        };
                        match found {
                            Some(token) => {
                                self.tokens.push(token);
                            },
                            None => {},
                        }
                    },
                }
                proof {
                    let rest_t = tokens_from(s, item.last + 1);
                    let rest_r = raised_from(s, item.last + 1);
                    assert(token_views(self.tokens@) =~= tokens1.push(item.token));
                    assert(tokens1.push(item.token) + rest_t =~= tokens1 + (seq![item.token]
                        + rest_t));
                    assert(raised_from(s, here) =~= raised_seq(item.raised) + rest_r);
                    assert(anchored_all(lines, raised_seq(item.raised) + rest_r) =~= anchored_all(
                        lines,
                        raised_seq(item.raised),
                    ) + anchored_all(lines, rest_r));
                    assert((errors1 + anchored_all(lines, raised_seq(item.raised))) + anchored_all(
                        lines,
                        rest_r,
                    ) =~= errors1 + (anchored_all(lines, raised_seq(item.raised)) + anchored_all(
                        lines,
                        rest_r,
                    )));
                }
            }
        }
        proof {
            assert(tokens_from(s, s.len() as int) =~= seq![end_token(line_count(s))]);
            assert(raised_from(s, s.len() as int) =~= Seq::<Raised>::empty());
            assert(diag_views(self.errors@) + anchored_all(lines, Seq::<Raised>::empty())
                =~= diag_views(self.errors@));
            assert(token_views(self.tokens@) + seq![end_token(line_count(s))] =~= token_views(
                self.tokens@,
            ).push(end_token(line_count(s))));
        }
        self.end();
        proof {
            if old(self).fresh() {
                lemma_tokens_close_once(s, 0);
                assert forall|k: int| 0 <= k < self.tokens@.len() - 1 implies !((
                #[trigger] self.tokens@[k])@.kind is EndOfFile) by {
                    assert(token_views(self.tokens@)[k] == self.tokens@[k]@);
                }
            }
        }
        (&self.tokens, &self.errors)
    }
}

/// Whether a symbol or a string literal begins with `c`.
pub fn is_symbol_char(c: char) -> (b: bool)
    ensures
        b == symbol_char(c),
{
    c == '(' || c == ')' || c == '[' || c == ']' || c == '{' || c == '}' || c == '.' || c == ','
        || c == ':' || c == ';' || c == '*' || c == '/' || c == '\n' || c == '\r' || c == '+'
        || c == '-' || c == '>' || c == '<' || c == '=' || c == '!' || c == '&' || c == '|' || c
        == '"'
}

/// Whether `g` can stand inside a word.
pub fn is_word_glyph(g: Glyph) -> (b: bool)
    ensures
        b == word_glyph(g),
{
    g.alphanumeric || g.ch == '_'
}

/// Whether `g` carries a number on.
pub fn is_number_glyph(g: Glyph) -> (b: bool)
    ensures
        b == number_glyph(g),
{
    !is_blank(g.ch) && (!is_symbol_char(g.ch) || g.ch == '.')
}

/// The placeholder for text that could not be classified.
pub fn placeholder_token(line: usize) -> (token: Token)
    ensures
        token@ == placeholder(line as nat),
{
    Token { kind: TokenKind::Empty, lex: String::new(), line }
}

/// `word` without the white space at its two ends.
pub fn trim(word: &Vec<char>) -> (t: Vec<char>)
    ensures
        t@ == trimmed(word@),
{
    let mut from: usize = 0;
    while from < word.len() && is_white_space(word[from])
        invariant
            from <= word.len(),
            skip_white(word@, 0) == skip_white(word@, from as int),
        decreases word.len() - from,
    {
        from = from + 1;
    }
    let mut to: usize = word.len();
    while to > 0 && is_white_space(word[to - 1])
        invariant
            to <= word.len(),
            drop_white(word@, word.len() as int) == drop_white(word@, to as int),
        decreases to,
    {
        to = to - 1;
    }
    let mut t: Vec<char> = Vec::new();
    if from < to {
        let mut i: usize = from;
        while i < to
            invariant
                from <= i <= to <= word.len(),
                t@ == word@.subrange(from as int, i as int),
            decreases to - i,
        {
            t.push(word[i]);
            i = i + 1;
            assert(t@ =~= word@.subrange(from as int, i as int));
        }
    }
    t
}

/// Whether `t` is the text `lit`.
pub fn spells(t: &Vec<char>, lit: &str) -> (b: bool)
    ensures
        b == (t@ == lit@),
{
    let l = chars_of(lit);
    if t.len() != l.len() {
        return false;
    }
    let mut i: usize = 0;
    while i < t.len()
        invariant
            i <= t.len(),
            t.len() == l.len(),
            l@ == lit@,
            forall|j: int| 0 <= j < i ==> t@[j] == l@[j],
        decreases t.len() - i,
    {
        if t[i] != l[i] {
            assert(t@[i as int] != lit@[i as int]);
            return false;
        }
        i = i + 1;
    }
    assert(t@ =~= l@);
    true
}

} // verus!
