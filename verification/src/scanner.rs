//! The scanner: from characters to tokens.
//!
//! Scanning is resumable. Whenever the scanner has read the text of a number
//! it stops and hands the text out; the host decodes it to a double and gives
//! the bits back, and scanning goes on. Everything else the scanner decides
//! itself.

use vstd::prelude::*;
use crate::token::{Kind, SpecToken, Token, TokenType, copy_tokens, is_stream, tokens_model};

verus! {

/// A character that the scanner could not place.
#[derive(Debug)]
pub struct ScanError {
    pub line: usize,
    pub message: String,
    pub lexeme: Option<String>,
}

/// Model of a [`ScanError`].
pub struct SpecScanError {
    pub line: usize,
    pub message: Seq<char>,
    pub lexeme: Option<Seq<char>>,
}

impl View for ScanError {
    type V = SpecScanError;

    open spec fn view(&self) -> SpecScanError {
        SpecScanError {
            line: self.line,
            message: self.message@,
            lexeme: match self.lexeme {
                Some(text) => Some(text@),
                None => None,
            },
        }
    }
}

impl Clone for ScanError {
    fn clone(&self) -> (r: Self)
        ensures
            r@ == self@,
    {
        ScanError {
            line: self.line,
            message: self.message.clone(),
            lexeme: match &self.lexeme {
                Some(text) => Some(text.clone()),
                None => None,
            },
        }
    }
}

/// The models of a vector of scan errors, in order.
pub open spec fn errors_model(errors: Vec<ScanError>) -> Seq<SpecScanError> {
    Seq::new(errors@.len(), |i: int| errors[i]@)
}

/// What a scan produced: the tokens, and the errors met on the way.
#[derive(Debug)]
pub struct ScanResult {
    pub tokens: Vec<Token>,
    pub errors: Vec<ScanError>,
}

/// Model of a [`ScanResult`].
pub struct SpecScanResult {
    pub tokens: Seq<SpecToken>,
    pub errors: Seq<SpecScanError>,
}

impl View for ScanResult {
    type V = SpecScanResult;

    open spec fn view(&self) -> SpecScanResult {
        SpecScanResult { tokens: tokens_model(self.tokens), errors: errors_model(self.errors) }
    }
}

/// How a call of [`Scanner::scan_tokens`] ended.
#[derive(Debug)]
pub enum Scanned {
    /// The text of a number was read. It is to be decoded and handed to
    /// [`Scanner::number`] before scanning goes on.
    Number(String),
    /// The source is used up: `Ok` if no error was met, else `Err`.
    Finished(Result<ScanResult, ScanResult>),
}

/// Model of a [`Scanned`].
pub enum SpecScanned {
    Number(Seq<char>),
    Finished(Result<SpecScanResult, SpecScanResult>),
}

impl View for Scanned {
    type V = SpecScanned;

    open spec fn view(&self) -> SpecScanned {
        match self {
            Scanned::Number(text) => SpecScanned::Number(text@),
            Scanned::Finished(Ok(result)) => SpecScanned::Finished(Ok(result@)),
            Scanned::Finished(Err(result)) => SpecScanned::Finished(Err(result@)),
        }
    }
}

/// `0` to `9`.
pub open spec fn digit(c: char) -> bool {
    '0' <= c <= '9'
}

/// A letter of the Latin alphabet or an underscore.
pub open spec fn alpha(c: char) -> bool {
    'a' <= c <= 'z' || 'A' <= c <= 'Z' || c == '_'
}

/// A digit, a letter or an underscore.
pub open spec fn alphanumeric(c: char) -> bool {
    digit(c) || alpha(c)
}

/// Tests [`digit`].
pub fn is_digit(c: &char) -> (r: bool)
    ensures
        r == digit(*c),
{
    *c >= '0' && *c <= '9'
}

/// Tests [`alpha`].
pub fn is_alpha(c: &char) -> (r: bool)
    ensures
        r == alpha(*c),
{
    (*c >= 'a' && *c <= 'z') || (*c >= 'A' && *c <= 'Z') || *c == '_'
}

/// Tests [`alphanumeric`].
pub fn is_alphanumeric(c: &char) -> (r: bool)
    ensures
        r == alphanumeric(*c),
{
    is_digit(c) || is_alpha(c)
}

/// The runs of characters that the scanner reads in one go.
pub enum Run {
    /// Digits.
    Digits,
    /// Letters, digits and underscores.
    Word,
    /// The rest of a line.
    Comment,
    /// The inside of a string.
    Text,
}

impl Run {
    /// Whether a character continues a run.
    pub open spec fn keeps(self, c: char) -> bool {
        match self {
            Run::Digits => digit(c),
            Run::Word => alphanumeric(c),
            Run::Comment => c != '\n',
            Run::Text => c != '"',
        }
    }
}

impl Run {
    /// Tests [`Run::keeps`].
    pub fn continues(&self, c: &char) -> (r: bool)
        ensures
            r == self.keeps(*c),
    {
        match self {
            Run::Digits => is_digit(c),
            Run::Word => is_alphanumeric(c),
            Run::Comment => *c != '\n',
            Run::Text => *c != '"',
        }
    }
}

/// Where the run that starts at `pos` ends: the first position at or after
/// `pos` whose character does not continue it, or the end of the source.
pub open spec fn span(source: Seq<char>, pos: int, run: Run) -> int
    decreases source.len() - pos,
{
    if 0 <= pos < source.len() && run.keeps(source[pos]) {
        span(source, pos + 1, run)
    } else {
        pos
    }
}

/// The number of line ends among the characters from `from` up to `to`.
pub open spec fn newlines(source: Seq<char>, from: int, to: int) -> int
    decreases to - from,
{
    if to <= from {
        0
    } else {
        newlines(source, from, to - 1) + if source[to - 1] == '\n' {
            1int
        } else {
            0int
        }
    }
}

/// What the scanner finds at one position.
pub enum Found {
    /// A token of this kind.
    Token(Kind),
    /// The text of a number, not yet decoded.
    Number,
    /// White space or a comment.
    Nothing,
    /// An error with its message and, for a stray character, its text.
    Error(Seq<char>, Option<Seq<char>>),
}

/// One step of the scanner: what it found, where it goes on and on which line.
pub struct Step {
    pub found: Found,
    pub next: int,
    pub line: int,
}

/// What stands at `start`, which must lie inside the source.
pub open spec fn scan_at(source: Seq<char>, start: int, line: int) -> Step {
    let c = source[start];
    let paired = start + 1 < source.len() && source[start + 1] == '=';
    let one = |kind: Kind| Step { found: Found::Token(kind), next: start + 1, line };
    let two = |kind: Kind| Step { found: Found::Token(kind), next: start + 2, line };
    if c == '(' {
        one(Kind::LeftParen)
    } else if c == ')' {
        one(Kind::RightParen)
    } else if c == '{' {
        one(Kind::LeftBrace)
    } else if c == '}' {
        one(Kind::RightBrace)
    } else if c == ',' {
        one(Kind::Comma)
    } else if c == '.' {
        one(Kind::Dot)
    } else if c == '-' {
        one(Kind::Minus)
    } else if c == '+' {
        one(Kind::Plus)
    } else if c == ';' {
        one(Kind::Semicolon)
    } else if c == '*' {
        one(Kind::Star)
    } else if c == '!' {
        if paired {
            two(Kind::BangEqual)
        } else {
            one(Kind::Bang)
        }
    } else if c == '=' {
        if paired {
            two(Kind::EqualEqual)
        } else {
            one(Kind::Equal)
        }
    } else if c == '<' {
        if paired {
            two(Kind::LessEqual)
        } else {
            one(Kind::Less)
        }
    } else if c == '>' {
        if paired {
            two(Kind::GreaterEqual)
        } else {
            one(Kind::Greater)
        }
    } else if c == '/' {
        if start + 1 < source.len() && source[start + 1] == '/' {
            Step { found: Found::Nothing, next: span(source, start + 2, Run::Comment), line }
        } else {
            one(Kind::Slash)
        }
    } else if c == ' ' || c == '\r' || c == '\t' {
        Step { found: Found::Nothing, next: start + 1, line }
    } else if c == '\n' {
        Step { found: Found::Nothing, next: start + 1, line: line + 1 }
    } else if c == '"' {
        let end = span(source, start + 1, Run::Text);
        let line = line + newlines(source, start + 1, end);
        if end >= source.len() {
            Step { found: Found::Error("Unterminated string literal"@, None), next: end, line }
        } else {
            Step {
                found: Found::Token(Kind::String(source.subrange(start + 1, end))),
                next: end + 1,
                line,
            }
        }
    } else if digit(c) {
        let whole = span(source, start + 1, Run::Digits);
        let end = if whole + 1 < source.len() && source[whole] == '.' && digit(source[whole + 1]) {
            span(source, whole + 2, Run::Digits)
        } else {
            whole
        };
        Step { found: Found::Number, next: end, line }
    } else if alpha(c) {
        let end = span(source, start + 1, Run::Word);
        Step {
            found: Found::Token(Token::keyword_or_identifier(source.subrange(start, end))),
            next: end,
            line,
        }
    } else {
        Step { found: Found::Error("Unexpected character."@, Some(seq![c])), next: start + 1, line }
    }
}

/// A run ends inside the source, at or after its start.
pub proof fn lemma_span_bounds(source: Seq<char>, pos: int, run: Run)
    requires
        0 <= pos <= source.len(),
    ensures
        pos <= span(source, pos, run) <= source.len(),
    decreases source.len() - pos,
{
    if pos < source.len() && run.keeps(source[pos]) {
        lemma_span_bounds(source, pos + 1, run);
    }
}

/// There are no more line ends than characters.
pub proof fn lemma_newlines_bounds(source: Seq<char>, from: int, to: int)
    requires
        from <= to,
    ensures
        0 <= newlines(source, from, to) <= to - from,
    decreases to - from,
{
    if from < to {
        lemma_newlines_bounds(source, from, to - 1);
    }
}

/// Every step moves forward and stays inside the source, and the line grows
/// by no more than the step is long.
pub proof fn lemma_scan_at_advances(source: Seq<char>, start: int, line: int)
    requires
        0 <= start < source.len(),
    ensures
        start < scan_at(source, start, line).next <= source.len(),
        line <= scan_at(source, start, line).line <= line + (scan_at(source, start, line).next
            - start),
{
    lemma_span_bounds(source, start + 1, Run::Text);
    lemma_span_bounds(source, start + 1, Run::Digits);
    lemma_span_bounds(source, start + 1, Run::Word);
    if start + 2 <= source.len() {
        lemma_span_bounds(source, start + 2, Run::Comment);
    }
    let whole = span(source, start + 1, Run::Digits);
    if whole + 2 <= source.len() {
        lemma_span_bounds(source, whole + 2, Run::Digits);
    }
    lemma_newlines_bounds(source, start + 1, span(source, start + 1, Run::Text));
}

/// The scanner's state.
pub struct Scanner {
    source: Vec<char>,
    start: usize,
    current: usize,
    line: usize,
    tokens: Vec<Token>,
    errors: Vec<ScanError>,
    awaiting: bool,
    finished: bool,
}

/// Model of a [`Scanner`].
pub struct SpecScanner {
    /// The characters to scan.
    pub source: Seq<char>,
    /// Where the last lexeme read starts.
    pub start: usize,
    /// Where scanning goes on.
    pub current: usize,
    /// The line of `current`, counted from 1.
    pub line: usize,
    /// The tokens read so far.
    pub tokens: Seq<SpecToken>,
    /// The errors met so far.
    pub errors: Seq<SpecScanError>,
    /// The text from `start` to `current` is a number that waits for its bits.
    pub awaiting: bool,
    /// The end marker has been written.
    pub finished: bool,
}

impl SpecScanner {
    /// The positions lie inside the source, in order, and the line count is
    /// in step with them.
    pub open spec fn well_formed(self) -> bool {
        &&& self.start <= self.current <= self.source.len() < usize::MAX
        &&& 1 <= self.line <= self.current + 1
        &&& self.finished ==> !self.awaiting && is_stream(self.tokens)
    }

    /// The text of the last lexeme read.
    pub open spec fn lexeme(self) -> Seq<char> {
        self.source.subrange(self.start as int, self.current as int)
    }

    /// The state after one step from `current`.
    pub open spec fn advance(self) -> SpecScanner {
        let step = scan_at(self.source, self.current as int, self.line as int);
        let moved = SpecScanner {
            start: self.current,
            current: step.next as usize,
            line: step.line as usize,
            ..self
        };
        match step.found {
            Found::Token(kind) => SpecScanner {
                tokens: self.tokens.push(
                    SpecToken { kind, lexeme: moved.lexeme(), line: moved.line },
                ),
                ..moved
            },
            Found::Number => SpecScanner { awaiting: true, ..moved },
            Found::Nothing => moved,
            Found::Error(message, lexeme) => SpecScanner {
                errors: self.errors.push(SpecScanError { line: moved.line, message, lexeme }),
                ..moved
            },
        }
    }

    /// The state after taking the bits of the number that the scanner waits
    /// for. A scanner that waits for none stays as it is.
    pub open spec fn number(self, bits: u64) -> SpecScanner {
        if self.awaiting {
            SpecScanner {
                tokens: self.tokens.push(
                    SpecToken { kind: Kind::Number(bits), lexeme: self.lexeme(), line: self.line },
                ),
                awaiting: false,
                ..self
            }
        } else {
            self
        }
    }

    /// The state in which scanning next stops: at the next number, or at the
    /// end of the source with the end marker written.
    pub open spec fn run(self) -> SpecScanner
        decreases self.source.len() - self.current,
    {
        if self.awaiting || self.finished {
            self
        } else if self.current >= self.source.len() {
            SpecScanner {
                tokens: self.tokens.push(
                    SpecToken { kind: Kind::EOF, lexeme: Seq::empty(), line: self.line },
                ),
                start: self.current,
                finished: true,
                ..self
            }
        } else {
            let next = self.advance();
            if self.current < next.current <= next.source.len() == self.source.len() {
                next.run()
            } else {
                next
            }
        }
    }

    /// What the scanner reports in this state.
    pub open spec fn outcome(self) -> SpecScanned {
        let result = SpecScanResult { tokens: self.tokens, errors: self.errors };
        if self.awaiting {
            SpecScanned::Number(self.lexeme())
        } else if self.errors.len() == 0 {
            SpecScanned::Finished(Ok(result))
        } else {
            SpecScanned::Finished(Err(result))
        }
    }
}

/// `String::push`: appends one character to the text.
#[verifier::external_body]
fn push_char(text: &mut String, c: char)
    ensures
        final(text)@ == old(text)@.push(c),
{
    text.push(c)
}

/// The characters of a string, in order.
pub fn to_chars(text: &str) -> (r: Vec<char>)
    ensures
        r@ == text@,
{
    let mut out: Vec<char> = Vec::new();
    for c in it: text.chars()
        invariant
            out@ == it.seq().take(it.index() as int),
            it.seq() == text@,
    {
        out.push(c);
    }
    out
}

/// The string of the characters from `from` up to `to`.
pub fn from_chars(chars: &Vec<char>, from: usize, to: usize) -> (r: String)
    requires
        from <= to <= chars.len(),
    ensures
        r@ == chars@.subrange(from as int, to as int),
{
    let mut out = String::new();
    let mut i: usize = from;
    while i < to
        invariant
            from <= i <= to <= chars.len(),
            out@ == chars@.subrange(from as int, i as int),
        decreases to - i,
    {
        push_char(&mut out, chars[i]);
        i += 1;
    }
    out
}

/// Copies a vector of scan errors.
pub fn copy_errors(errors: &Vec<ScanError>) -> (r: Vec<ScanError>)
    ensures
        errors_model(r) == errors_model(*errors),
{
    let mut out: Vec<ScanError> = Vec::new();
    let mut i: usize = 0;
    while i < errors.len()
        invariant
            i <= errors.len(),
            out.len() == i,
            forall|k: int| 0 <= k < i ==> out[k]@ == errors[k]@,
        decreases errors.len() - i,
    {
        out.push(errors[i].clone());
        i += 1;
    }
    assert(errors_model(out) =~= errors_model(*errors));
    out
}

impl View for Scanner {
    type V = SpecScanner;

    closed spec fn view(&self) -> SpecScanner {
        SpecScanner {
            source: self.source@,
            start: self.start,
            current: self.current,
            line: self.line,
            tokens: tokens_model(self.tokens),
            errors: errors_model(self.errors),
            awaiting: self.awaiting,
            finished: self.finished,
        }
    }
}

impl Scanner {
    /// A scanner at the start of a source.
    pub fn new(source: String) -> (r: Self)
        requires
            source@.len() < usize::MAX,
        ensures
            r@ == (SpecScanner {
                source: source@,
                start: 0,
                current: 0,
                line: 1,
                tokens: Seq::empty(),
                errors: Seq::empty(),
                awaiting: false,
                finished: false,
            }),
            r@.well_formed(),
    {
        let chars = to_chars(source.as_str());
        let r = Scanner {
            source: chars,
            start: 0,
            current: 0,
            line: 1,
            tokens: Vec::new(),
            errors: Vec::new(),
            awaiting: false,
            finished: false,
        };
        assert(tokens_model(r.tokens) =~= Seq::empty());
        assert(errors_model(r.errors) =~= Seq::empty());
        r
    }

    /// Whether the scanner has read the text of a number and waits for its
    /// bits.
    pub fn is_waiting(&self) -> (r: bool)
        ensures
            r == self@.awaiting,
    {
        self.awaiting
    }

    /// Whether the end marker has been written.
    pub fn is_finished(&self) -> (r: bool)
        ensures
            r == self@.finished,
    {
        self.finished
    }

    /// Whether the source is used up.
    pub fn is_at_end(&self) -> (r: bool)
        ensures
            r == (self@.current >= self@.source.len()),
    {
        self.current >= self.source.len()
    }

    /// Passes the character at `current`, if there is one, and returns it.
    pub fn advance(&mut self) -> (r: Option<char>)
        requires
            old(self)@.well_formed(),
            !old(self)@.finished,
        ensures
            r == if old(self)@.current < old(self)@.source.len() {
                Some(old(self)@.source[old(self)@.current as int])
            } else {
                None
            },
            final(self)@ == (SpecScanner {
                current: if r is Some {
                    (old(self)@.current + 1) as usize
                } else {
                    old(self)@.current
                },
                ..old(self)@
            }),
            final(self)@.well_formed(),
    {
        if self.current < self.source.len() {
            let c = self.source[self.current];
            self.current += 1;
            Some(c)
        } else {
            None
        }
    }

    /// The character at `current`, if there is one.
    pub fn peek(&self) -> (r: Option<char>)
        ensures
            r == if self@.current < self@.source.len() {
                Some(self@.source[self@.current as int])
            } else {
                None
            },
    {
        if self.current < self.source.len() {
            Some(self.source[self.current])
        } else {
            None
        }
    }

    /// The character after the one at `current`, if there is one.
    pub fn peek_next(&self) -> (r: Option<char>)
        requires
            self@.well_formed(),
        ensures
            r == if self@.current + 1 < self@.source.len() {
                Some(self@.source[self@.current + 1])
            } else {
                None
            },
    {
        if self.current + 1 < self.source.len() {
            Some(self.source[self.current + 1])
        } else {
            None
        }
    }

    /// The text from `start` to `current`.
    pub fn get_current_lexeme(&self) -> (r: String)
        requires
            self@.well_formed(),
        ensures
            r@ == self@.lexeme(),
    {
        from_chars(&self.source, self.start, self.current)
    }

    /// Appends a token of the given kind for the text from `start` to
    /// `current`.
    fn add_token(&mut self, token_type: TokenType)
        requires
            old(self)@.well_formed(),
        ensures
            final(self)@ == (SpecScanner {
                tokens: old(self)@.tokens.push(
                    SpecToken {
                        kind: token_type@,
                        lexeme: old(self)@.lexeme(),
                        line: old(self)@.line,
                    },
                ),
                ..old(self)@
            }),
    {
        let lexeme = self.get_current_lexeme();
        let token = Token::new(token_type, lexeme, self.line);
        self.tokens.push(token);
        assert(tokens_model(self.tokens) =~= tokens_model(old(self).tokens).push(token@));
    }

    /// Appends an error on the current line.
    fn add_error(&mut self, message: String, lexeme: Option<String>)
        ensures
            final(self)@ == (SpecScanner {
                errors: old(self)@.errors.push(
                    SpecScanError {
                        line: old(self)@.line,
                        message: message@,
                        lexeme: match lexeme {
                            Some(text) => Some(text@),
                            None => None,
                        },
                    },
                ),
                ..old(self)@
            }),
    {
        let error = ScanError { line: self.line, message, lexeme };
        self.errors.push(error);
        assert(errors_model(self.errors) =~= errors_model(old(self).errors).push(error@));
    }

    /// Moves `current` to the end of the run that starts there.
    fn skip(&mut self, run: Run)
        requires
            old(self)@.well_formed(),
        ensures
            final(self)@ == (SpecScanner { current: final(self)@.current, ..old(self)@ }),
            final(self)@.current == span(old(self)@.source, old(self)@.current as int, run),
            old(self)@.current <= final(self)@.current <= old(self)@.source.len(),
    {
        proof {
            lemma_span_bounds(self@.source, self@.current as int, run);
        }
        while self.current < self.source.len() && run.continues(&self.source[self.current])
            invariant
                old(self)@.current <= self.current <= self.source.len(),
                self@ == (SpecScanner { current: self.current, ..old(self)@ }),
                span(self@.source, self.current as int, run) == span(
                    old(self)@.source,
                    old(self)@.current as int,
                    run,
                ),
            decreases self.source.len() - self.current,
        {
            self.current += 1;
        }
    }

    /// Reads a string, whose opening quote has just been passed.
    fn scan_string(&mut self)
        requires
            old(self)@.well_formed(),
            !old(self)@.awaiting,
            !old(self)@.finished,
            old(self)@.start + 1 == old(self)@.current,
            old(self)@.source[old(self)@.start as int] == '"',
        ensures
            final(self)@ == (SpecScanner { current: old(self)@.start, ..old(self)@ }).advance(),
    {
        let ghost before = self@;
        let ghost source = self@.source;
        let ghost first = self@.current as int;
        proof {
            lemma_span_bounds(source, first, Run::Text);
            lemma_scan_at_advances(source, self@.start as int, self@.line as int);
        }
        while self.current < self.source.len() && self.source[self.current] != '"'
            invariant
                first <= self.current <= self.source.len() < usize::MAX,
                self@ == (SpecScanner { current: self.current, line: self.line, ..before }),
                span(source, self.current as int, Run::Text) == span(source, first, Run::Text),
                self.line == before.line + newlines(source, first, self.current as int),
                1 <= self.line <= self.current + 1,
                before.start < first,
                source == self.source@,
            decreases self.source.len() - self.current,
        {
            if self.source[self.current] == '\n' {
                self.line += 1;
            }
            self.current += 1;
        }
        if self.is_at_end() {
            self.add_error(String::from_str("Unterminated string literal"), None);
            return ;
        }
        self.current += 1;
        let value = from_chars(&self.source, self.start + 1, self.current - 1);
        self.add_token(TokenType::String(value));
    }

    /// Reads the text of a number, whose first digit has just been passed,
    /// and waits for its bits.
    fn scan_number(&mut self)
        requires
            old(self)@.well_formed(),
            !old(self)@.awaiting,
            !old(self)@.finished,
            old(self)@.start + 1 == old(self)@.current,
            digit(old(self)@.source[old(self)@.start as int]),
        ensures
            final(self)@ == (SpecScanner { current: old(self)@.start, ..old(self)@ }).advance(),
    {
        proof {
            lemma_scan_at_advances(self@.source, self@.start as int, self@.line as int);
        }
        self.skip(Run::Digits);
        if self.peek() == Some('.') {
            if let Some(after) = self.peek_next() {
                if is_digit(&after) {
                    self.current += 2;
                    self.skip(Run::Digits);
                }
            }
        }
        self.awaiting = true;
    }

    /// Reads a word, whose first character has just been passed.
    fn scan_identifier(&mut self)
        requires
            old(self)@.well_formed(),
            !old(self)@.awaiting,
            !old(self)@.finished,
            old(self)@.start + 1 == old(self)@.current,
            alpha(old(self)@.source[old(self)@.start as int]),
            !digit(old(self)@.source[old(self)@.start as int]),
        ensures
            final(self)@ == (SpecScanner { current: old(self)@.start, ..old(self)@ }).advance(),
    {
        proof {
            lemma_scan_at_advances(self@.source, self@.start as int, self@.line as int);
        }
        self.skip(Run::Word);
        let lexeme = self.get_current_lexeme();
        self.add_token(Token::match_keyword(lexeme.as_str()));
    }

    /// Passes the character at `current` if it is the expected one.
    fn match_lookahead(&mut self, expected: char) -> (r: bool)
        requires
            old(self)@.well_formed(),
        ensures
            r == (old(self)@.current < old(self)@.source.len() && old(self)@.source[old(
                self,
            )@.current as int] == expected),
            final(self)@ == (SpecScanner {
                current: if r {
                    (old(self)@.current + 1) as usize
                } else {
                    old(self)@.current
                },
                ..old(self)@
            }),
    {
        if self.is_at_end() {
            return false;
        }
        if self.source[self.current] != expected {
            return false;
        }
        self.current += 1;
        true
    }

    /// Reads what stands at `current`: a token, the text of a number, an
    /// error, or nothing but white space or a comment.
    pub fn scan_token(&mut self)
        requires
            old(self)@.well_formed(),
            !old(self)@.awaiting,
            !old(self)@.finished,
            old(self)@.current < old(self)@.source.len(),
        ensures
            final(self)@ == old(self)@.advance(),
            final(self)@.well_formed(),
            final(self)@.current > old(self)@.current,
    {
        proof {
            lemma_scan_at_advances(self@.source, self@.current as int, self@.line as int);
        }
        self.start = self.current;
        let c = match self.advance() {
            Some(c) => c,
            None => {
                return ;
            },
        };
        if c == '(' {
            self.add_token(TokenType::LeftParen);
        } else if c == ')' {
            self.add_token(TokenType::RightParen);
        } else if c == '{' {
            self.add_token(TokenType::LeftBrace);
        } else if c == '}' {
            self.add_token(TokenType::RightBrace);
        } else if c == ',' {
            self.add_token(TokenType::Comma);
        } else if c == '.' {
            self.add_token(TokenType::Dot);
        } else if c == '-' {
            self.add_token(TokenType::Minus);
        } else if c == '+' {
            self.add_token(TokenType::Plus);
        } else if c == ';' {
            self.add_token(TokenType::Semicolon);
        } else if c == '*' {
            self.add_token(TokenType::Star);
        } else if c == '!' {
            if self.match_lookahead('=') {
                self.add_token(TokenType::BangEqual);
            } else {
                self.add_token(TokenType::Bang);
            }
        } else if c == '=' {
            if self.match_lookahead('=') {
                self.add_token(TokenType::EqualEqual);
            } else {
                self.add_token(TokenType::Equal);
            }
        } else if c == '<' {
            if self.match_lookahead('=') {
                self.add_token(TokenType::LessEqual);
            } else {
                self.add_token(TokenType::Less);
            }
        } else if c == '>' {
            if self.match_lookahead('=') {
                self.add_token(TokenType::GreaterEqual);
            } else {
                self.add_token(TokenType::Greater);
            }
        } else if c == '/' {
            if self.match_lookahead('/') {
                self.skip(Run::Comment);
            } else {
                self.add_token(TokenType::Slash);
            }
        } else if c == ' ' || c == '\r' || c == '\t' {
        } else if c == '\n' {
            self.line += 1;
        } else if c == '"' {
            self.scan_string();
        } else if is_digit(&c) {
            self.scan_number();
        } else if is_alpha(&c) {
            self.scan_identifier();
        } else {
            let mut text = String::new();
            push_char(&mut text, c);
            assert(text@ =~= seq![c]);
            self.add_error(String::from_str("Unexpected character."), Some(text));
        }
    }

    /// Takes the bits of the number that the scanner waits for. A scanner
    /// that waits for none stays as it is.
    pub fn number(&mut self, bits: u64)
        requires
            old(self)@.well_formed(),
        ensures
            final(self)@ == old(self)@.number(bits),
            final(self)@.well_formed(),
    {
        if self.awaiting {
            self.add_token(TokenType::Number(bits));
            self.awaiting = false;
        }
    }

    /// What the scanner has to report.
    fn report(&self) -> (r: Scanned)
        requires
            self@.well_formed(),
        ensures
            r@ == self@.outcome(),
    {
        if self.awaiting {
            Scanned::Number(self.get_current_lexeme())
        } else {
            let result = ScanResult {
                tokens: copy_tokens(&self.tokens),
                errors: copy_errors(&self.errors),
            };
            if self.errors.len() == 0 {
                Scanned::Finished(Ok(result))
            } else {
                Scanned::Finished(Err(result))
            }
        }
    }

    /// Scans on until the text of a number has been read or the source is
    /// used up, and reports which. At the end of the source the end marker is
    /// written, once.
    pub fn scan_tokens(&mut self) -> (r: Scanned)
        requires
            old(self)@.well_formed(),
        ensures
            final(self)@ == old(self)@.run(),
            final(self)@.well_formed(),
            r@ == final(self)@.outcome(),
            r@ matches SpecScanned::Finished(Ok(result)) ==> is_stream(result.tokens),
            r@ matches SpecScanned::Finished(Err(result)) ==> is_stream(result.tokens),
    {
        while !self.awaiting && !self.finished && self.current < self.source.len()
            invariant
                self@.well_formed(),
                self@.run() == old(self)@.run(),
            decreases self.source.len() - self.current,
        {
            let ghost before = self@;
            self.scan_token();
            assert(before.run() == before.advance().run());
        }
        assert(self@.awaiting || self@.finished ==> self@.run() == self@);
        if !self.awaiting && !self.finished {
            self.start = self.current;
            self.add_token(TokenType::EOF);
            self.finished = true;
            assert(self@.lexeme() =~= Seq::empty());
        }
        self.report()
    }
}

} // verus!
