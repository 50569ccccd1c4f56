//! Diagnostics: what went wrong, on which line, and how the offending text
//! sits in that line.

use crate::text::{
    chars_of, decimal, find_first, first_occurrence, lemma_first_occurrence_from, occurs_at,
    push_decimal, push_repeated, repeated, text_of_range,
};
use vstd::prelude::*;
use vstd::string::{StrSliceExecFns, StringExecFns};

verus! {

/// The kinds of diagnostic.
#[derive(Clone, Copy, Debug, PartialEq, Eq, Structural)]
pub enum ErrorKind {
    /// A name that is malformed, missing or unknown.
    IdentifierError,
    /// A sequence of symbols that means nothing.
    SyntaxError,
    /// A call with `args` arguments to something that takes `params`.
    ArgumentError { params: u8, args: u8 },
    /// A string literal whose closing quote never comes.
    UnterminatedStringError,
    /// A number that does not fit its type.
    OverflowError,
    /// The offending text was not found in the line it was reported for.
    InternalError,
}

/// A diagnostic as contracts speak of it.
pub struct DiagView {
    pub kind: ErrorKind,
    pub line: nat,
    pub content: Seq<char>,
    pub offender: Seq<char>,
    pub prefix: Seq<char>,
    pub suffix: Seq<char>,
}

impl DiagView {
    /// The line is the prefix, the offender and the suffix, in that order;
    /// a diagnostic without an offender has the whole line as its prefix.
    pub open spec fn wf(self) -> bool {
        &&& self.content == self.prefix + self.offender + self.suffix
        &&& self.offender.len() == 0 ==> self.prefix == self.content && self.suffix.len() == 0
    }
}

/// An error as a scanner raises it, before it is tied to the text of a line.
pub struct Raised {
    pub kind: ErrorKind,
    pub line: nat,
    pub offender: Seq<char>,
}

/// The diagnostic for a line whose text is not at hand.
pub open spec fn unavailable(kind: ErrorKind) -> DiagView {
    DiagView {
        kind,
        line: 0,
        content: Seq::empty(),
        offender: Seq::empty(),
        prefix: Seq::empty(),
        suffix: Seq::empty(),
    }
}

/// The diagnostic that points at nothing: the whole line is its prefix.
pub open spec fn whole_line(kind: ErrorKind, line: nat, content: Seq<char>) -> DiagView {
    DiagView {
        kind,
        line,
        content,
        offender: Seq::empty(),
        prefix: content,
        suffix: Seq::empty(),
    }
}

/// The diagnostic that points at `content[from..to]`.
pub open spec fn spanning(kind: ErrorKind, line: nat, content: Seq<char>, from: int, to: int)
    -> DiagView {
    if 0 <= from < to <= content.len() {
        DiagView {
            kind,
            line,
            content,
            offender: content.subrange(from, to),
            prefix: content.subrange(0, from),
            suffix: content.subrange(to, content.len() as int),
        }
    } else {
        whole_line(kind, line, content)
    }
}

/// The diagnostic that points at the first occurrence of `offender` in
/// `content`. Without an offender it points at nothing; with an offender that
/// does not occur in the line it becomes an `InternalError`.
pub open spec fn located(kind: ErrorKind, line: nat, offender: Seq<char>, content: Seq<char>)
    -> DiagView {
    if offender.len() == 0 {
        whole_line(kind, line, content)
    } else {
        match first_occurrence(content, offender) {
            Some(at) => spanning(kind, line, content, at, at + offender.len()),
            None => whole_line(ErrorKind::InternalError, line, content),
        }
    }
}

/// The texts of a vector of lines.
pub open spec fn line_texts(lines: Seq<String>) -> Seq<Seq<char>> {
    Seq::new(lines.len(), |i: int| lines[i]@)
}

/// The diagnostic for `raised`, given the text of every line. Lines count
/// from one; for a line that is not there, the diagnostic is `unavailable`.
pub open spec fn anchored(lines: Seq<Seq<char>>, raised: Raised) -> DiagView {
    if 1 <= raised.line <= lines.len() {
        located(raised.kind, raised.line, raised.offender, lines[raised.line - 1])
    } else {
        unavailable(raised.kind)
    }
}

/// The errors of an item as a sequence: one or none.
pub open spec fn raised_seq(raised: Option<Raised>) -> Seq<Raised> {
    match raised {
        Some(r) => seq![r],
        None => Seq::empty(),
    }
}

/// The diagnostics for a sequence of raised errors, given the text of
/// every line.
pub open spec fn anchored_all(lines: Seq<Seq<char>>, raised: Seq<Raised>) -> Seq<DiagView> {
    Seq::new(raised.len(), |k: int| anchored(lines, raised[k]))
}

/// The name of a kind, as the header of a report shows it.
pub open spec fn kind_name(kind: ErrorKind) -> Seq<char> {
    match kind {
        ErrorKind::IdentifierError => "IdentifierError"@,
        ErrorKind::SyntaxError => "SyntaxError"@,
        ErrorKind::ArgumentError { .. } => "ArgumentError"@,
        ErrorKind::UnterminatedStringError => "UnterminatedStringError"@,
        ErrorKind::OverflowError => "OverflowError"@,
        ErrorKind::InternalError => "InternalError"@,
    }
}

/// What a report says about an error: a function of its kind and of whether
/// there is an offender.
pub open spec fn message(kind: ErrorKind, offender: Seq<char>) -> Seq<char> {
    match kind {
        ErrorKind::IdentifierError => if offender.len() == 0 {
            "expected an identifier here, found nothing"@
        } else {
            "this identifier does not exist in the current scope or is an invalid keyword."@
        },
        ErrorKind::SyntaxError => if offender.len() == 0 {
            "expected a symbol here, found nothing"@
        } else {
            "this sequence of symbols is not recognized."@
        },
        ErrorKind::ArgumentError { params, args } => decimal(params as nat)
            + " parameters were specified but "@ + decimal(args as nat)
            + " arguments were passed."@,
        ErrorKind::UnterminatedStringError => if offender.len() == 0 {
            "expected a closing quote here, found nothing"@
        } else {
            "this string literal is never closed."@
        },
        ErrorKind::OverflowError => if offender.len() == 0 {
            "expected a number here, found nothing"@
        } else {
            "this number does not fit the range of its type."@
        },
        ErrorKind::InternalError => "the offending text could not be located in this line."@,
    }
}

/// The report of a diagnostic: a header with kind and line number, the line
/// itself, and under it carets below the offender, followed by the message.
pub open spec fn rendered(d: DiagView) -> Seq<char> {
    "--> "@ + kind_name(d.kind) + " at line "@ + decimal(d.line) + ":\n | offending line:\n | "@
        + d.prefix + d.offender + d.suffix + "\n | "@ + repeated(' ', d.prefix.len()) + repeated(
        '^',
        d.offender.len(),
    ) + " "@ + message(d.kind, d.offender)
}

/// Every diagnostic that `located` makes splits its line into prefix, offender
/// and suffix.
pub proof fn lemma_located_wf(kind: ErrorKind, line: nat, offender: Seq<char>, content: Seq<char>)
    ensures
        located(kind, line, offender, content).wf(),
{
    let d = located(kind, line, offender, content);
    if offender.len() > 0 {
        lemma_first_occurrence_from(content, offender, 0);
    }
    assert(d.content =~= d.prefix + d.offender + d.suffix);
}

/// Every diagnostic that `spanning` makes splits its line into prefix,
/// offender and suffix.
pub proof fn lemma_spanning_wf(kind: ErrorKind, line: nat, content: Seq<char>, from: int, to: int)
    ensures
        spanning(kind, line, content, from, to).wf(),
{
    let d = spanning(kind, line, content, from, to);
    assert(d.content =~= d.prefix + d.offender + d.suffix);
}

/// Every diagnostic that `anchored` makes splits its line into prefix,
/// offender and suffix.
pub proof fn lemma_anchored_wf(lines: Seq<Seq<char>>, raised: Raised)
    ensures
        anchored(lines, raised).wf(),
{
    let d = anchored(lines, raised);
    if 1 <= raised.line <= lines.len() {
        lemma_located_wf(raised.kind, raised.line, raised.offender, lines[raised.line - 1]);
    } else {
        assert(d.content =~= d.prefix + d.offender + d.suffix);
    }
}

/// A diagnostic: an error tied to the text of its line. Once made it does
/// not change, and its line is always prefix, offender and suffix in a row.
#[derive(Debug, PartialEq, Eq)]
pub struct DarcyError {
    kind: ErrorKind,
    line: usize,
    content: String,
    offender: String,
    prefix: String,
    suffix: String,
}

impl View for DarcyError {
    type V = DiagView;

    closed spec fn view(&self) -> DiagView {
        DiagView {
            kind: self.kind,
            line: self.line as nat,
            content: self.content@,
            offender: self.offender@,
            prefix: self.prefix@,
            suffix: self.suffix@,
        }
    }
}

/// The views of a vector of diagnostics, in order.
pub open spec fn diag_views(errors: Seq<DarcyError>) -> Seq<DiagView> {
    Seq::new(errors.len(), |i: int| errors[i]@)
}

/// The text of line `line` of `source`, counting from one.
pub fn line_text(source: &Vec<String>, line: usize) -> (text: Option<&String>)
    ensures
        text is Some <==> 1 <= line <= source.len(),
        text matches Some(t) ==> *t == source@[line - 1],
{
    if 1 <= line && line <= source.len() {
        Some(&source[line - 1])
    } else {
        None
    }
}

impl Clone for DarcyError {
    fn clone(&self) -> (d: Self)
        ensures
            d@ == self@,
    {
        proof {
            use_type_invariant(self);
        }
        Self {
            kind: self.kind,
            line: self.line,
            content: self.content.clone(),
            offender: self.offender.clone(),
            prefix: self.prefix.clone(),
            suffix: self.suffix.clone(),
        }
    }
}

impl DarcyError {
    #[verifier::type_invariant]
    spec fn inv(self) -> bool {
        self@.wf()
    }

    /// The diagnostic of kind `kind` for line `line`, whose text is `content`,
    /// pointing at the first occurrence of `offender` in it.
    pub fn new(kind: ErrorKind, line: &usize, offender: String, content: String) -> (d: Self)
        ensures
            d@ == located(kind, *line as nat, offender@, content@),
            d@.wf(),
    {
        proof {
            lemma_located_wf(kind, *line as nat, offender@, content@);
        }
        let text = chars_of(content.as_str());
        let wanted = chars_of(offender.as_str());
        if wanted.len() == 0 {
            Self::whole_line(kind, *line, content)
        } else {
            match find_first(&text, &wanted) {
                Some(at) => {
                    assert(occurs_at(text@, wanted@, at as int));
                    assert(at + wanted.len() <= text.len());
                    Self::spanning(kind, *line, content, at, at + wanted.len())
                },
                None => Self::whole_line(ErrorKind::InternalError, *line, content),
            }
        }
    }

    /// The diagnostic of kind `kind` for a line whose text is not at hand.
    pub fn unavailable(kind: ErrorKind) -> (d: Self)
        ensures
            d@ == unavailable(kind),
            d@.wf(),
    {
        let d = Self {
            kind,
            line: 0,
            content: String::new(),
            offender: String::new(),
            prefix: String::new(),
            suffix: String::new(),
        };
        assert(d@.content =~= d@.prefix + d@.offender + d@.suffix);
        d
    }

    /// The diagnostic of kind `kind` for line `line` that points at nothing:
    /// the whole line is its prefix.
    pub fn whole_line(kind: ErrorKind, line: usize, content: String) -> (d: Self)
        ensures
            d@ == whole_line(kind, line as nat, content@),
            d@.wf(),
    {
        let prefix = content.clone();
        assert(content@ =~= prefix@ + Seq::<char>::empty() + Seq::<char>::empty());
        Self { kind, line, content, offender: String::new(), prefix, suffix: String::new() }
    }

    /// The diagnostic of kind `kind` for line `line` that points at
    /// `content[from..to]`, counted in characters.
    pub fn spanning(kind: ErrorKind, line: usize, content: String, from: usize, to: usize) -> (d:
        Self)
        ensures
            d@ == spanning(kind, line as nat, content@, from as int, to as int),
            d@.wf(),
    {
        proof {
            lemma_spanning_wf(kind, line as nat, content@, from as int, to as int);
        }
        let text = chars_of(content.as_str());
        if from < to && to <= text.len() {
            let offender = text_of_range(&text, from, to);
            let prefix = text_of_range(&text, 0, from);
            let suffix = text_of_range(&text, to, text.len());
            Self { kind, line, content, offender, prefix, suffix }
        } else {
            Self::whole_line(kind, line, content)
        }
    }

    /// The diagnostic for an error of kind `kind` raised on line `line` against
    /// `offender`, given the text of every line.
    pub fn anchored(kind: ErrorKind, line: usize, offender: String, source: &Vec<String>) -> (d:
        Self)
        ensures
            d@ == anchored(
                line_texts(source@),
                Raised { kind, line: line as nat, offender: offender@ },
            ),
            d@.wf(),
    {
        match line_text(source, line) {
            Some(content) => Self::new(kind, &line, offender, content.clone()),
            None => Self::unavailable(kind),
        }
    }

    /// What kind of error this is.
    pub fn kind(&self) -> (kind: ErrorKind)
        ensures
            kind == self@.kind,
    {
        self.kind
    }

    /// The number of the line, counted from one; zero where the line was
    /// not at hand.
    pub fn line(&self) -> (line: usize)
        ensures
            line == self@.line,
    {
        self.line
    }

    /// The text of the line: prefix, offender and suffix in a row.
    pub fn content(&self) -> (text: &String)
        ensures
            text@ == self@.content,
            text@ == self@.prefix + self@.offender + self@.suffix,
    {
        proof {
            use_type_invariant(self);
        }
        &self.content
    }

    /// The text that is at fault; empty where nothing was found.
    pub fn offender(&self) -> (text: &String)
        ensures
            text@ == self@.offender,
    {
        &self.offender
    }

    /// What stands before the offender; the whole line where there is no
    /// offender.
    pub fn prefix(&self) -> (text: &String)
        ensures
            text@ == self@.prefix,
            self@.offender.len() == 0 ==> text@ == self@.content,
    {
        proof {
            use_type_invariant(self);
        }
        &self.prefix
    }

    /// What stands behind the offender; empty where there is no offender.
    pub fn suffix(&self) -> (text: &String)
        ensures
            text@ == self@.suffix,
            self@.offender.len() == 0 ==> text@.len() == 0,
    {
        proof {
            use_type_invariant(self);
        }
        &self.suffix
    }

    /// The report of this diagnostic, four lines without a final line break.
    pub fn render(&self) -> (text: String)
        ensures
            text@ == rendered(self@),
    {
        let mut out = String::new();
        out.append("--> ");
        out.append(name_text(self.kind));
        out.append(" at line ");
        push_decimal(&mut out, self.line);
        out.append(":\n | offending line:\n | ");
        out.append(self.prefix.as_str());
        out.append(self.offender.as_str());
        out.append(self.suffix.as_str());
        out.append("\n | ");
        push_repeated(&mut out, ' ', self.prefix.as_str().unicode_len());
        push_repeated(&mut out, '^', self.offender.as_str().unicode_len());
        out.append(" ");
        push_message(&mut out, self.kind, self.offender.as_str());
        assert(out@ =~= rendered(self@));
        out
    }
}

fn name_text(kind: ErrorKind) -> (name: &'static str)
    ensures
        name@ == kind_name(kind),
{
    match kind {
        ErrorKind::IdentifierError => "IdentifierError",
        ErrorKind::SyntaxError => "SyntaxError",
        ErrorKind::ArgumentError { .. } => "ArgumentError",
        ErrorKind::UnterminatedStringError => "UnterminatedStringError",
        ErrorKind::OverflowError => "OverflowError",
        ErrorKind::InternalError => "InternalError",
    }
}

fn push_message(out: &mut String, kind: ErrorKind, offender: &str)
    ensures
        final(out)@ == old(out)@ + message(kind, offender@),
{
    let nothing = offender.is_empty();
    match kind {
        ErrorKind::IdentifierError => {
            if nothing {
                out.append("expected an identifier here, found nothing");
            } else {
                out.append(
                    "this identifier does not exist in the current scope or is an invalid keyword.",
                );
            }
        },
        ErrorKind::SyntaxError => {
            if nothing {
                out.append("expected a symbol here, found nothing");
            } else {
                out.append("this sequence of symbols is not recognized.");
            }
        },
        ErrorKind::ArgumentError { params, args } => {
            push_decimal(out, params as usize);
            out.append(" parameters were specified but ");
            push_decimal(out, args as usize);
            out.append(" arguments were passed.");
            assert(out@ =~= old(out)@ + message(kind, offender@));
        },
        ErrorKind::UnterminatedStringError => {
            if nothing {
                out.append("expected a closing quote here, found nothing");
            } else {
                out.append("this string literal is never closed.");
            }
        },
        ErrorKind::OverflowError => {
            if nothing {
                out.append("expected a number here, found nothing");
            } else {
                out.append("this number does not fit the range of its type.");
            }
        },
        ErrorKind::InternalError => {
            out.append("the offending text could not be located in this line.");
        },
    }
}

/// The diagnostic for a call on line `line` with `args` arguments to
/// something that takes `params`: it points at what stands between the first
/// opening and the first closing parenthesis of the line. Where the line has
/// no such pair it is an `InternalError`.
pub open spec fn argument_diagnostic(lines: Seq<Seq<char>>, line: nat, params: u8, args: u8)
    -> DiagView {
    let kind = ErrorKind::ArgumentError { params, args };
    if 1 <= line <= lines.len() {
        let content = lines[line - 1];
        match (first_occurrence(content, seq!['(']), first_occurrence(content, seq![')'])) {
            (Some(open), Some(close)) => if open < close {
                spanning(kind, line, content, open + 1, close)
            } else {
                whole_line(ErrorKind::InternalError, line, content)
            },
            _ => whole_line(ErrorKind::InternalError, line, content),
        }
    } else {
        unavailable(kind)
    }
}

/// An error together with the line it was found on, not yet tied to the
/// text of that line.
#[derive(Debug, PartialEq, Eq, Clone)]
pub enum Errors {
    /// Line and offending name.
    IdentifierError(usize, String),
    /// Line and offending symbols.
    SyntaxError(usize, String),
    /// Line, number of parameters, number of arguments.
    ArgumentError(usize, u8, u8),
}

impl Errors {
    /// The diagnostic for this error, given the text of every line.
    pub open spec fn diagnostic(self, lines: Seq<Seq<char>>) -> DiagView {
        match self {
            Errors::IdentifierError(line, offender) => anchored(
                lines,
                Raised { kind: ErrorKind::IdentifierError, line: line as nat, offender: offender@ },
            ),
            Errors::SyntaxError(line, offender) => anchored(
                lines,
                Raised { kind: ErrorKind::SyntaxError, line: line as nat, offender: offender@ },
            ),
            Errors::ArgumentError(line, params, args) => argument_diagnostic(
                lines,
                line as nat,
                params,
                args,
            ),
        }
    }

    /// Ties this error to the text of its line in `source`.
    pub fn locate(&self, source: &Vec<String>) -> (d: DarcyError)
        ensures
            d@ == self.diagnostic(line_texts(source@)),
            d@.wf(),
    {
        match self {
            Errors::IdentifierError(line, offender) => DarcyError::anchored(
                ErrorKind::IdentifierError,
                *line,
                offender.clone(),
                source,
            ),
            Errors::SyntaxError(line, offender) => DarcyError::anchored(
                ErrorKind::SyntaxError,
                *line,
                offender.clone(),
                source,
            ),
            Errors::ArgumentError(line, params, args) => {
                let kind = ErrorKind::ArgumentError { params: *params, args: *args };
                match line_text(source, *line) {
                    Some(content) => {
                        let text = chars_of(content.as_str());
                        let opening: Vec<char> = vec!['('];
                        let closing: Vec<char> = vec![')'];
                        assert(opening@ =~= seq!['(']);
                        assert(closing@ =~= seq![')']);
                        let open = find_first(&text, &opening);
                        let close = find_first(&text, &closing);
                        match (open, close) {
                            (Some(open), Some(close)) => {
                                if open < close {
                                    DarcyError::spanning(
                                        kind,
                                        *line,
                                        content.clone(),
                                        open + 1,
                                        close,
                                    )
                                } else {
                                    DarcyError::whole_line(
                                        ErrorKind::InternalError,
                                        *line,
                                        content.clone(),
                                    )
                                }
                            },
                            _ => DarcyError::whole_line(
                                ErrorKind::InternalError,
                                *line,
                                content.clone(),
                            ),
                        }
                    },
                    None => DarcyError::unavailable(kind),
                }
            },
        }
    }

    /// The report of this error against `source`: the text that `render`
    /// gives for its diagnostic.
    pub fn report(&self, source: Vec<String>) -> (text: String)
        ensures
            text@ == rendered(self.diagnostic(line_texts(source@))),
    {
        self.locate(&source).render()
    }
}

} // verus!
