//! The lexer: from a line to its tokens.

use crate::text::is_name_char;
use crate::text::joined;
use crate::text::white_space;
use crate::text::name_char;
use vstd::prelude::*;
use vstd::string::StringExecFns;

verus! {

/// An operator understood by the lexer.
#[derive(Debug, Clone, Copy, PartialEq, Eq, Structural)]
pub enum Operator {
    Redirect,
    Assign,
}

/// The kind of string segment.
#[derive(Debug, Clone, Copy, PartialEq, Eq, Structural)]
pub enum SegmentKind {
    /// A literal string segment.
    Literal,
    /// A variable interpolation segment.
    Variable,
}

/// A fragment of a string token.
#[derive(Debug, PartialEq, Eq)]
pub struct Segment {
    /// The text of the segment. Excludes the interpolation character ($) if not literal.
    pub text: String,
    /// The kind of string segment. Indicates e.g. whether this segment represents an interpolation.
    pub kind: SegmentKind,
}

/// A token produced by the lexer.
#[derive(Debug, PartialEq, Eq)]
pub enum Token {
    Operator(Operator),
    String(Vec<Segment>),
}

/// Why a line could not be split into tokens.
#[derive(Debug, Clone, Copy, PartialEq, Eq, Structural)]
pub enum LexError {
    /// The line ended inside a region opened by the given quote character.
    UnterminatedQuote(char),
}

impl LexError {
    /// The words that tell the user of this error.
    pub open spec fn text(self) -> Seq<char> {
        match self {
            LexError::UnterminatedQuote(quote) => "Unexpectedly reached end of "@.push(quote)
                + "-quoted string"@,
        }
    }

    /// The words that tell the user of this error.
    pub fn message(&self) -> (message: String)
        ensures
            message@ == self.text(),
    {
        match self {
            LexError::UnterminatedQuote(quote) => {
                let mut message = "Unexpectedly reached end of ".to_owned();
                message.push(*quote);
                message.append("-quoted string");
                message
            },
        }
    }
}

/// The mathematical value of a [`Segment`].
pub struct SegmentView {
    pub text: Seq<char>,
    pub kind: SegmentKind,
}

/// The mathematical value of a [`Token`].
pub enum TokenView {
    Operator(Operator),
    String(Seq<SegmentView>),
}

impl View for Segment {
    type V = SegmentView;

    open spec fn view(&self) -> SegmentView {
        SegmentView { text: self.text@, kind: self.kind }
    }
}

/// The values of a sequence of segments, in order.
pub open spec fn segment_views(segments: Seq<Segment>) -> Seq<SegmentView> {
    segments.map_values(|s: Segment| s@)
}

impl View for Token {
    type V = TokenView;

    open spec fn view(&self) -> TokenView {
        match self {
            Token::Operator(op) => TokenView::Operator(*op),
            Token::String(segments) => TokenView::String(segment_views(segments@)),
        }
    }
}

/// The values of a sequence of tokens, in order.
pub open spec fn token_views(tokens: Seq<Token>) -> Seq<TokenView> {
    tokens.map_values(|t: Token| t@)
}

impl Clone for Segment {
    fn clone(&self) -> (copy: Self)
        ensures
            copy@ == self@,
    {
        Segment { text: self.text.clone(), kind: self.kind }
    }
}

impl Clone for Token {
    fn clone(&self) -> (copy: Self)
        ensures
            copy@ == self@,
    {
        match self {
            Token::Operator(op) => Token::Operator(*op),
            Token::String(segments) => {
                let mut copies: Vec<Segment> = Vec::new();
                assert(segment_views(copies@) =~= segment_views(segments@.take(0)));
                for i in 0..segments.len()
                    invariant
                        segment_views(copies@) == segment_views(segments@.take(i as int)),
                {
                    let segment = segments[i].clone();
                    assert(segment_views(copies@.push(segment)) =~= segment_views(
                        segments@.take(i as int),
                    ).push(segment@));
                    assert(segment_views(segments@.take(i + 1)) =~= segment_views(
                        segments@.take(i as int),
                    ).push(segments[i as int]@));
                    copies.push(segment);
                }
                assert(segments@.take(segments@.len() as int) =~= segments@);
                Token::String(copies)
            },
        }
    }
}

/// The character that begins the name of a variable.
pub const INTERPOLATION_CHAR: char = '$';

/// The character that, inside quotes, takes the next character as it is.
pub const ESCAPE_CHAR: char = '\\';

impl Operator {
    /// The operator that the character `c` stands for outside quotes, if any.
    pub open spec fn of_char(c: char) -> Option<Operator> {
        if c == '>' {
            Some(Operator::Redirect)
        } else if c == '=' {
            Some(Operator::Assign)
        } else {
            None
        }
    }

    /// The character that is written for this operator.
    pub open spec fn symbol(self) -> char {
        match self {
            Operator::Redirect => '>',
            Operator::Assign => '=',
        }
    }

    /// The name of this operator.
    pub open spec fn name_text(self) -> Seq<char> {
        match self {
            Operator::Redirect => "Redirect"@,
            Operator::Assign => "Assign"@,
        }
    }

    /// The name of this operator.
    pub fn name(self) -> (name: &'static str)
        ensures
            name@ == self.name_text(),
    {
        match self {
            Operator::Redirect => "Redirect",
            Operator::Assign => "Assign",
        }
    }

    /// The operator that the character `c` stands for outside quotes, if any.
    pub fn from_char(c: char) -> (r: Option<Operator>)
        ensures
            r == Operator::of_char(c),
    {
        if c == '>' {
            Some(Operator::Redirect)
        } else if c == '=' {
            Some(Operator::Assign)
        } else {
            None
        }
    }

    /// The character that is written for this operator.
    pub fn to_char(self) -> (c: char)
        ensures
            c == self.symbol(),
            Operator::of_char(c) == Some(self),
    {
        match self {
            Operator::Redirect => '>',
            Operator::Assign => '=',
        }
    }
}

/// A character that stands for no operator.
#[derive(Debug, Clone, Copy, PartialEq, Eq, Structural)]
pub struct UnknownOperator(pub char);

impl UnknownOperator {
    /// The words that tell the user of this error.
    pub open spec fn text(self) -> Seq<char> {
        "Unknown operator: "@.push(self.0)
    }

    /// The words that tell the user of this error.
    pub fn message(&self) -> (message: String)
        ensures
            message@ == self.text(),
    {
        let mut message = "Unknown operator: ".to_owned();
        message.push(self.0);
        message
    }
}

impl From<Operator> for char {
    fn from(op: Operator) -> (c: char) {
        op.to_char()
    }
}

impl vstd::std_specs::convert::FromSpecImpl<Operator> for char {
    open spec fn obeys_from_spec() -> bool {
        true
    }

    open spec fn from_spec(op: Operator) -> char {
        op.symbol()
    }
}

impl TryFrom<char> for Operator {
    type Error = UnknownOperator;

    fn try_from(c: char) -> (r: Result<Operator, UnknownOperator>) {
        match Operator::from_char(c) {
            Some(op) => Ok(op),
            None => Err(UnknownOperator(c)),
        }
    }
}

impl vstd::std_specs::convert::TryFromSpecImpl<char> for Operator {
    open spec fn obeys_try_from_spec() -> bool {
        true
    }

    open spec fn try_from_spec(c: char) -> Result<Operator, UnknownOperator> {
        match Operator::of_char(c) {
            Some(op) => Ok(op),
            None => Err(UnknownOperator(c)),
        }
    }
}

impl Segment {
    /// A literal segment without text.
    pub fn empty_literal() -> (s: Self)
        ensures
            s@ == SegmentView::empty(SegmentKind::Literal),
    {
        Self { text: String::new(), kind: SegmentKind::Literal }
    }

    /// A variable segment whose name is yet to be read.
    pub fn empty_variable() -> (s: Self)
        ensures
            s@ == SegmentView::empty(SegmentKind::Variable),
    {
        Self { text: String::new(), kind: SegmentKind::Variable }
    }
}

impl SegmentView {
    /// A segment of the given kind without text.
    pub open spec fn empty(kind: SegmentKind) -> SegmentView {
        SegmentView { text: Seq::empty(), kind }
    }
}

/// Where the lexer stands with respect to quotes.
#[derive(Debug, Clone, Copy, PartialEq, Eq, Structural)]
pub enum Mode {
    /// Outside any quoted region.
    Plain,
    /// Inside a region opened by `quote`. `escaped` holds right after an unescaped backslash,
    /// `interpolating` while the characters read belong to a variable's name.
    Quoted { quote: char, escaped: bool, interpolating: bool },
}

/// What the lexer knows after reading a prefix of a line: the finished tokens, the segments of
/// the string token that is being read, if one is, and the quoting mode.
pub struct Scan {
    pub tokens: Seq<TokenView>,
    pub current: Option<Seq<SegmentView>>,
    pub mode: Mode,
}

/// Whether `c` opens a quoted region.
pub open spec fn is_quote(c: char) -> bool {
    c == '\'' || c == '"'
}

impl Scan {
    /// The state before any character is read.
    pub open spec fn start() -> Scan {
        Scan { tokens: Seq::empty(), current: None, mode: Mode::Plain }
    }

    /// Ends the pending string token, if there is one, and emits it.
    pub open spec fn flush(self) -> Scan {
        match self.current {
            Some(segments) => Scan {
                tokens: self.tokens.push(TokenView::String(segments)),
                current: None,
                mode: self.mode,
            },
            None => self,
        }
    }

    /// Makes sure a string token is pending: a new one starts with one empty literal segment.
    pub open spec fn open(self) -> Scan {
        match self.current {
            Some(_) => self,
            None => Scan {
                tokens: self.tokens,
                current: Some(seq![SegmentView::empty(SegmentKind::Literal)]),
                mode: self.mode,
            },
        }
    }

    /// Starts a new, empty segment of the given kind in the pending token.
    pub open spec fn begin(self, kind: SegmentKind) -> Scan {
        Scan {
            tokens: self.tokens,
            current: Some(self.current.unwrap().push(SegmentView::empty(kind))),
            mode: self.mode,
        }
    }

    /// Appends `c` to the text of the last segment of the pending token.
    pub open spec fn extend(self, c: char) -> Scan {
        let segments = self.current.unwrap();
        let last = segments.last();
        Scan {
            tokens: self.tokens,
            current: Some(
                segments.drop_last().push(SegmentView { text: last.text.push(c), kind: last.kind }),
            ),
            mode: self.mode,
        }
    }

    /// The same state in another quoting mode.
    pub open spec fn with_mode(self, mode: Mode) -> Scan {
        Scan { tokens: self.tokens, current: self.current, mode }
    }

    /// Reads the character `c` outside quotes.
    pub open spec fn step_plain(self, c: char) -> Scan {
        if let Some(op) = Operator::of_char(c) {
            let flushed = self.flush();
            Scan {
                tokens: flushed.tokens.push(TokenView::Operator(op)),
                current: None,
                mode: Mode::Plain,
            }
        } else if is_quote(c) {
            self.open().with_mode(Mode::Quoted { quote: c, escaped: false, interpolating: false })
        } else if white_space(c) {
            self.flush()
        } else if c == INTERPOLATION_CHAR {
            self.open().begin(SegmentKind::Variable)
        } else {
            self.open().extend(c)
        }
    }

    /// Reads the character `c` inside a region opened by `quote`.
    pub open spec fn step_quoted(self, quote: char, escaped: bool, interpolating: bool, c: char) -> Scan {
        if escaped {
            self.extend(c).with_mode(Mode::Quoted { quote, escaped: false, interpolating })
        } else if c == ESCAPE_CHAR {
            self.with_mode(Mode::Quoted { quote, escaped: true, interpolating })
        } else if quote == '"' && c == INTERPOLATION_CHAR {
            self.begin(SegmentKind::Variable).with_mode(
                Mode::Quoted { quote, escaped: false, interpolating: true },
            )
        } else {
            let literal = if interpolating && !is_name_char(c) {
                self.begin(SegmentKind::Literal)
            } else {
                self
            };
            let interpolating = interpolating && is_name_char(c);
            if c == quote {
                literal.with_mode(Mode::Plain)
            } else {
                literal.extend(c).with_mode(Mode::Quoted { quote, escaped: false, interpolating })
            }
        }
    }

    /// Reads one character.
    pub open spec fn step(self, c: char) -> Scan {
        match self.mode {
            Mode::Plain => self.step_plain(c),
            Mode::Quoted { quote, escaped, interpolating } => self.step_quoted(
                quote,
                escaped,
                interpolating,
                c,
            ),
        }
    }

    /// What the line lexes to when it ends in this state.
    pub open spec fn finish(self) -> Result<Seq<TokenView>, LexError> {
        match self.mode {
            Mode::Plain => Ok(self.flush().tokens),
            Mode::Quoted { quote, .. } => Err(LexError::UnterminatedQuote(quote)),
        }
    }

    /// A pending token has at least one segment, and a quoted region lies inside a pending token.
    pub open spec fn wf(self) -> bool {
        &&& self.current matches Some(segments) ==> segments.len() > 0
        &&& self.mode is Quoted ==> self.current is Some
    }
}

/// The state of the lexer after it has read all of `line`, character by character from the left.
pub open spec fn scan(line: Seq<char>) -> Scan
    decreases line.len(),
{
    if line.len() == 0 {
        Scan::start()
    } else {
        scan(line.drop_last()).step(line.last())
    }
}

/// The tokens of `line`, or the reason why it has none.
pub open spec fn lex_spec(line: Seq<char>) -> Result<Seq<TokenView>, LexError> {
    scan(line).finish()
}


/// The lexer at work. The segment that is being read is held apart from the finished ones of
/// the pending token, so that a character is appended in place.
struct Lexer {
    tokens: Vec<Token>,
    pending: bool,
    finished: Vec<Segment>,
    text: String,
    kind: SegmentKind,
    mode: Mode,
}

impl View for Lexer {
    type V = Scan;

    closed spec fn view(&self) -> Scan {
        Scan {
            tokens: token_views(self.tokens@),
            current: if self.pending {
                Some(
                    segment_views(self.finished@).push(
                        SegmentView { text: self.text@, kind: self.kind },
                    ),
                )
            } else {
                None
            },
            mode: self.mode,
        }
    }
}

impl Lexer {
    /// Nothing is kept of a token that is not pending.
    spec fn inv(&self) -> bool {
        &&& !self.pending ==> self.finished@.len() == 0 && self.text@.len() == 0 && self.kind
            == SegmentKind::Literal
        &&& self.mode is Quoted ==> self.pending
    }

    fn new() -> (lexer: Self)
        ensures
            lexer.inv(),
            lexer@ == Scan::start(),
    {
        let lexer = Lexer {
            tokens: Vec::new(),
            pending: false,
            finished: Vec::new(),
            text: String::new(),
            kind: SegmentKind::Literal,
            mode: Mode::Plain,
        };
        assert(token_views(lexer.tokens@) =~= Seq::empty());
        lexer
    }

    fn flush(&mut self)
        requires
            old(self).inv(),
            old(self).mode is Plain,
        ensures
            final(self).inv(),
            final(self)@ == old(self)@.flush(),
    {
        if self.pending {
            let mut segments = Vec::new();
            std::mem::swap(&mut segments, &mut self.finished);
            let mut text = String::new();
            std::mem::swap(&mut text, &mut self.text);
            segments.push(Segment { text, kind: self.kind });
            proof {
                assert(segment_views(segments@) =~= old(self)@.current.unwrap());
                assert(token_views(self.tokens@.push(Token::String(segments))) =~= token_views(
                    self.tokens@,
                ).push(TokenView::String(segment_views(segments@))));
            }
            self.tokens.push(Token::String(segments));
            self.pending = false;
            self.kind = SegmentKind::Literal;
        }
    }

    fn open(&mut self)
        requires
            old(self).inv(),
        ensures
            final(self).inv(),
            final(self).pending,
            final(self)@ == old(self)@.open(),
    {
        if !self.pending {
            self.pending = true;
            assert(segment_views(self.finished@) =~= Seq::empty());
            assert(self.text@ =~= Seq::empty());
            assert(segment_views(self.finished@).push(
                SegmentView { text: self.text@, kind: self.kind },
            ) =~= seq![SegmentView::empty(SegmentKind::Literal)]);
        }
    }

    fn begin(&mut self, kind: SegmentKind)
        requires
            old(self).inv(),
            old(self).pending,
        ensures
            final(self).inv(),
            final(self).pending,
            final(self)@ == old(self)@.begin(kind),
    {
        let mut text = String::new();
        std::mem::swap(&mut text, &mut self.text);
        let segment = Segment { text, kind: self.kind };
        assert(segment_views(self.finished@.push(segment)) =~= segment_views(
            self.finished@,
        ).push(segment@));
        self.finished.push(segment);
        self.kind = kind;
    }

    fn extend(&mut self, c: char)
        requires
            old(self).inv(),
            old(self).pending,
        ensures
            final(self).inv(),
            final(self).pending,
            final(self)@ == old(self)@.extend(c),
    {
        self.text.push(c);
        assert(final(self)@.current.unwrap() =~= old(self)@.extend(c).current.unwrap());
    }

    fn step(&mut self, c: char)
        requires
            old(self).inv(),
        ensures
            final(self).inv(),
            final(self)@ == old(self)@.step(c),
    {
        match self.mode {
            Mode::Plain => {
                if let Some(op) = Operator::from_char(c) {
                    self.flush();
                    assert(token_views(self.tokens@.push(Token::Operator(op))) =~= token_views(
                        self.tokens@,
                    ).push(TokenView::Operator(op)));
                    self.tokens.push(Token::Operator(op));
                } else if c == '\'' || c == '"' {
                    self.open();
                    self.mode = Mode::Quoted { quote: c, escaped: false, interpolating: false };
                } else if c.is_whitespace() {
                    self.flush();
                } else {
                    self.open();
                    if c == INTERPOLATION_CHAR {
                        self.begin(SegmentKind::Variable);
                    } else {
                        self.extend(c);
                    }
                }
            },
            Mode::Quoted { quote, escaped, interpolating } => {
                if escaped {
                    self.extend(c);
                    self.mode = Mode::Quoted { quote, escaped: false, interpolating };
                } else if c == ESCAPE_CHAR {
                    self.mode = Mode::Quoted { quote, escaped: true, interpolating };
                } else if quote == '"' && c == INTERPOLATION_CHAR {
                    self.begin(SegmentKind::Variable);
                    self.mode = Mode::Quoted { quote, escaped: false, interpolating: true };
                } else {
                    let named = name_char(c);
                    if interpolating && !named {
                        self.begin(SegmentKind::Literal);
                    }
                    if c == quote {
                        self.mode = Mode::Plain;
                    } else {
                        self.extend(c);
                        self.mode = Mode::Quoted {
                            quote,
                            escaped: false,
                            interpolating: interpolating && named,
                        };
                    }
                }
            },
        }
    }
}

/// The value of what [`lex`] returns.
pub open spec fn lexed_view(r: Result<Vec<Token>, LexError>) -> Result<Seq<TokenView>, LexError> {
    match r {
        Ok(tokens) => Ok(token_views(tokens@)),
        Err(e) => Err(e),
    }
}

/// Tokenizes the line. This handles quoting and removes whitespace.
pub fn lex(line: &str) -> (r: Result<Vec<Token>, LexError>)
    ensures
        lexed_view(r) == lex_spec(line@),
{
    let mut lexer = Lexer::new();
    for c in it: line.chars()
        invariant
            lexer.inv(),
            it.seq() == line@,
            lexer@ == scan(line@.take(it.index() as int)),
    {
        proof {
            let read = line@.take(it.index() + 1);
            assert(read.drop_last() =~= line@.take(it.index() as int));
            assert(read.last() == c);
        }
        lexer.step(c);
    }
    assert(line@.take(line@.len() as int) =~= line@);
    match lexer.mode {
        Mode::Plain => {
            lexer.flush();
            Ok(lexer.tokens)
        },
        Mode::Quoted { quote, .. } => Err(LexError::UnterminatedQuote(quote)),
    }
}


/// While a region opened by `quote` is being read, any character but `quote` leaves it open.
proof fn lemma_quote_stays_open(state: Scan, quote: char, c: char)
    requires
        state.mode matches Mode::Quoted { quote: q, .. } && q == quote,
        c != quote,
    ensures
        state.step(c).mode matches Mode::Quoted { quote: q, .. } && q == quote,
{
}

/// A region opened by `quote` is still open after any characters among which `quote` is not.
proof fn lemma_quote_open_after(opened: Seq<char>, quote: char, rest: Seq<char>)
    requires
        scan(opened).mode matches Mode::Quoted { quote: q, .. } && q == quote,
        !rest.contains(quote),
    ensures
        scan(opened + rest).mode matches Mode::Quoted { quote: q, .. } && q == quote,
    decreases rest.len(),
{
    if rest.len() == 0 {
        assert(opened + rest =~= opened);
    } else {
        let front = rest.drop_last();
        assert forall|c: char| front.contains(c) implies rest.contains(c) by {
            let i = choose|i: int| 0 <= i < front.len() && front[i] == c;
            assert(rest[i] == c);
        }
        lemma_quote_open_after(opened, quote, front);
        assert((opened + rest).drop_last() =~= opened + front);
        assert((opened + rest).last() == rest.last());
        assert(rest.contains(rest.last()));
        lemma_quote_stays_open(scan(opened + front), quote, rest.last());
    }
}

/// A quote that is opened outside quotes and whose character does not come again is never
/// closed: the line fails to lex, and the error names the quote.
pub proof fn lemma_unterminated_quote(before: Seq<char>, quote: char, rest: Seq<char>)
    requires
        scan(before).mode is Plain,
        is_quote(quote),
        !rest.contains(quote),
    ensures
        lex_spec(before.push(quote) + rest) == Err::<Seq<TokenView>, LexError>(
            LexError::UnterminatedQuote(quote),
        ),
{
    let opened = before.push(quote);
    assert(opened.drop_last() =~= before);
    assert(opened.last() == quote);
    lemma_quote_open_after(opened, quote, rest);
}

/// Whether `c` is a character of a plain word: no whitespace, no operator, no quote, and not
/// the interpolation marker.
pub open spec fn is_word_char(c: char) -> bool {
    !white_space(c) && is_plain_char(c)
}

/// Whether `c` means nothing to the lexer but what it is: no operator, no quote, and not the
/// interpolation marker.
pub open spec fn is_plain_char(c: char) -> bool {
    Operator::of_char(c) is None && !is_quote(c) && c != INTERPOLATION_CHAR
}

/// Whether the line holds plain words and whitespace only.
pub open spec fn is_plain(line: Seq<char>) -> bool {
    forall|i: int| 0 <= i < line.len() ==> is_plain_char(#[trigger] line[i])
}

/// The words of a line: its longest runs of characters that are no whitespace, in order.
pub open spec fn words(line: Seq<char>) -> Seq<Seq<char>>
    decreases line.len(),
{
    if line.len() == 0 {
        Seq::empty()
    } else if white_space(line.last()) {
        words(line.drop_last())
    } else if line.len() >= 2 && !white_space(line[line.len() - 2]) {
        let front = words(line.drop_last());
        front.drop_last().push(front.last().push(line.last()))
    } else {
        words(line.drop_last()).push(seq![line.last()])
    }
}

/// The token of a plain word: a string of one literal segment.
pub open spec fn word_token(word: Seq<char>) -> TokenView {
    TokenView::String(seq![SegmentView { text: word, kind: SegmentKind::Literal }])
}

/// The tokens of a sequence of plain words.
pub open spec fn word_tokens(words: Seq<Seq<char>>) -> Seq<TokenView> {
    words.map_values(|w: Seq<char>| word_token(w))
}

/// The text of the segments, one after the other.
pub open spec fn segments_text(segments: Seq<SegmentView>) -> Seq<char>
    decreases segments.len(),
{
    if segments.len() == 0 {
        Seq::empty()
    } else {
        segments_text(segments.drop_last()) + segments.last().text
    }
}

/// The text of a token: that of its segments for a string, the symbol for an operator.
pub open spec fn token_text(token: TokenView) -> Seq<char> {
    match token {
        TokenView::Operator(op) => seq![op.symbol()],
        TokenView::String(segments) => segments_text(segments),
    }
}

/// The texts of the tokens, in order.
pub open spec fn token_texts(tokens: Seq<TokenView>) -> Seq<Seq<char>> {
    tokens.map_values(|t: TokenView| token_text(t))
}

/// The words with a single space between each two neighbours.
pub open spec fn spaced(words: Seq<Seq<char>>) -> Seq<char> {
    joined(words, seq![' '])
}

/// Whether each of the words is a plain word: not empty, and made of word characters.
pub open spec fn are_words(words: Seq<Seq<char>>) -> bool {
    forall|i: int|
        0 <= i < words.len() ==> (#[trigger] words[i]).len() > 0 && forall|j: int|
            0 <= j < words[i].len() ==> is_word_char(#[trigger] words[i][j])
}

/// After a plain line the lexer is outside quotes, has emitted the finished words and holds
/// the word that the line ends in, if it ends in one.
proof fn lemma_scan_plain(line: Seq<char>)
    requires
        is_plain(line),
    ensures
        scan(line).mode is Plain,
        line.len() == 0 || white_space(line.last()) ==> scan(line).current is None && scan(
            line,
        ).tokens == word_tokens(words(line)),
        line.len() > 0 && !white_space(line.last()) ==> words(line).len() > 0 && scan(
            line,
        ).current == Some(
            seq![SegmentView { text: words(line).last(), kind: SegmentKind::Literal }],
        ) && scan(line).tokens == word_tokens(words(line).drop_last()),
    decreases line.len(),
{
    if line.len() == 0 {
        assert(word_tokens(words(line)) =~= Seq::empty());
    } else {
        let front = line.drop_last();
        let c = line.last();
        assert(is_plain_char(line[line.len() - 1]));
        assert forall|i: int| 0 <= i < front.len() implies is_plain_char(#[trigger] front[i]) by {
            assert(front[i] == line[i]);
        }
        lemma_scan_plain(front);
        let before = scan(front);
        if white_space(c) {
            if front.len() > 0 && !white_space(front.last()) {
                let w = words(front);
                assert(word_tokens(w) =~= word_tokens(w.drop_last()).push(word_token(w.last())));
            }
        } else if front.len() > 0 && !white_space(front.last()) {
            assert(line[line.len() - 2] == front.last());
            let w = words(front);
            let grown = w.drop_last().push(w.last().push(c));
            assert(grown.drop_last() =~= w.drop_last());
            assert(before.extend(c).current.unwrap() =~= seq![
                SegmentView { text: grown.last(), kind: SegmentKind::Literal },
            ]);
        } else {
            if line.len() >= 2 {
                assert(line[line.len() - 2] == front.last());
            }
            let w = words(front);
            let grown = w.push(seq![c]);
            assert(grown.drop_last() =~= w);
            assert(before.open().extend(c).current.unwrap() =~= seq![
                SegmentView { text: grown.last(), kind: SegmentKind::Literal },
            ]);
        }
    }
}

/// A line that holds plain words and whitespace only lexes to one token for each of its
/// words, in order, and the text of each token is its word.
pub proof fn lemma_lex_plain(line: Seq<char>)
    requires
        is_plain(line),
    ensures
        lex_spec(line) == Ok::<Seq<TokenView>, LexError>(word_tokens(words(line))),
        token_texts(word_tokens(words(line))) == words(line),
{
    lemma_scan_plain(line);
    if line.len() > 0 && !white_space(line.last()) {
        let w = words(line);
        assert(word_tokens(w) =~= word_tokens(w.drop_last()).push(word_token(w.last())));
    }
    lemma_word_texts(words(line));
}

/// The text of the token of a plain word is the word.
pub proof fn lemma_word_texts(words: Seq<Seq<char>>)
    ensures
        token_texts(word_tokens(words)) == words,
{
    assert forall|i: int| 0 <= i < words.len() implies token_texts(word_tokens(words))[i]
        == words[i] by {
        let segments = seq![SegmentView { text: words[i], kind: SegmentKind::Literal }];
        assert(segments.drop_last() =~= Seq::empty());
        assert(segments_text(segments.drop_last()) =~= Seq::empty());
        assert(segments_text(segments) =~= words[i]);
    }
    assert(token_texts(word_tokens(words)) =~= words);
}


/// The words of a line that ends in a plain word begin with the words of what stands before
/// that word, where a word does not stand there, and end with that word.
proof fn lemma_words_append(line: Seq<char>, word: Seq<char>)
    requires
        line.len() == 0 || white_space(line.last()),
        word.len() > 0,
        forall|j: int| 0 <= j < word.len() ==> !white_space(#[trigger] word[j]),
    ensures
        words(line + word) == words(line).push(word),
    decreases word.len(),
{
    let all = line + word;
    let c = word.last();
    let front = word.drop_last();
    assert(all.drop_last() =~= line + front);
    assert(all.last() == c);
    assert(!white_space(word[word.len() - 1]));
    if front.len() == 0 {
        assert(line + front =~= line);
        if all.len() >= 2 {
            assert(all[all.len() - 2] == line.last());
        }
        assert(seq![c] =~= word);
    } else {
        assert forall|j: int| 0 <= j < front.len() implies !white_space(#[trigger] front[j]) by {
            assert(front[j] == word[j]);
        }
        lemma_words_append(line, front);
        assert(all[all.len() - 2] == front.last());
        assert(!white_space(word[word.len() - 2]));
        let before = words(line).push(front);
        assert(before.drop_last() =~= words(line));
        assert(front.push(c) =~= word);
    }
}

/// Plain words that are joined by single spaces are the words of the line that this gives,
/// and the line is plain.
pub proof fn lemma_words_spaced(words: Seq<Seq<char>>)
    requires
        are_words(words),
    ensures
        is_plain(spaced(words)),
        self::words(spaced(words)) == words,
        words.len() > 0 ==> spaced(words).len() > 0 && !white_space(spaced(words).last()),
    decreases words.len(),
{
    if words.len() == 0 {
        assert(words =~= Seq::<Seq<char>>::empty());
    } else {
        let word = words.last();
        let front = words.drop_last();
        assert(word.len() > 0);
        assert forall|j: int| 0 <= j < word.len() implies is_word_char(#[trigger] word[j]) by {
            assert(is_word_char(words[words.len() - 1][j]));
        }
        assert(is_word_char(word[word.len() - 1]));
        assert(are_words(front)) by {
            assert forall|i: int| 0 <= i < front.len() implies (#[trigger] front[i]).len() > 0
                && forall|j: int| 0 <= j < front[i].len() ==> is_word_char(#[trigger] front[i][j]) by {
                assert(front[i] == words[i]);
            }
        }
        if words.len() == 1 {
            lemma_words_append(Seq::empty(), word);
            assert(Seq::<char>::empty() + word =~= word);
            assert(self::words(Seq::<char>::empty()).push(word) =~= words);
        } else {
            lemma_words_spaced(front);
            let line = spaced(front).push(' ');
            assert(spaced(words) =~= line + word);
            assert(line.drop_last() =~= spaced(front));
            assert(line.last() == ' ');
            assert(self::words(line) == front);
            lemma_words_append(line, word);
            assert(front.push(word) =~= words);
            assert forall|i: int| 0 <= i < (line + word).len() implies is_plain_char(
                #[trigger] (line + word)[i],
            ) by {
                if i < spaced(front).len() {
                    assert((line + word)[i] == spaced(front)[i]);
                } else if i == spaced(front).len() {
                } else {
                    assert((line + word)[i] == word[i - line.len()]);
                    assert(is_word_char(word[i - line.len()]));
                }
            }
        }
    }
}

/// The words of a plain line are plain words.
pub proof fn lemma_words_are_words(line: Seq<char>)
    requires
        is_plain(line),
    ensures
        are_words(words(line)),
        line.len() > 0 && !white_space(line.last()) ==> words(line).len() > 0,
    decreases line.len(),
{
    if line.len() > 0 {
        let front = line.drop_last();
        let c = line.last();
        assert(is_plain_char(line[line.len() - 1]));
        assert forall|i: int| 0 <= i < front.len() implies is_plain_char(#[trigger] front[i]) by {
            assert(front[i] == line[i]);
        }
        lemma_words_are_words(front);
        let before = words(front);
        let after = words(line);
        if white_space(c) {
        } else if line.len() >= 2 && !white_space(line[line.len() - 2]) {
            assert(line[line.len() - 2] == front.last());
            let grown = before.last().push(c);
            assert forall|i: int| 0 <= i < after.len() implies (#[trigger] after[i]).len() > 0
                && forall|j: int| 0 <= j < after[i].len() ==> is_word_char(#[trigger] after[i][j]) by {
                if i < after.len() - 1 {
                    assert(after[i] == before[i]);
                } else {
                    assert(after[i] == grown);
                    assert forall|j: int| 0 <= j < grown.len() implies is_word_char(
                        #[trigger] grown[j],
                    ) by {
                        if j < grown.len() - 1 {
                            assert(grown[j] == before[before.len() - 1][j]);
                        }
                    }
                }
            }
        } else {
            assert forall|i: int| 0 <= i < after.len() implies (#[trigger] after[i]).len() > 0
                && forall|j: int| 0 <= j < after[i].len() ==> is_word_char(#[trigger] after[i][j]) by {
                if i < after.len() - 1 {
                    assert(after[i] == before[i]);
                }
            }
        }
    }
}

/// Lexing a line of plain words and joining the texts of its tokens with single spaces gives
/// a line with the same words: it lexes to the same tokens, and the texts of these are the
/// words of the line.
pub proof fn lemma_lex_round_trip(line: Seq<char>)
    requires
        is_plain(line),
    ensures
        lex_spec(line) is Ok,
        token_texts(lex_spec(line)->Ok_0) == words(line),
        words(spaced(token_texts(lex_spec(line)->Ok_0))) == words(line),
        lex_spec(spaced(token_texts(lex_spec(line)->Ok_0))) == lex_spec(line),
{
    lemma_lex_plain(line);
    lemma_words_are_words(line);
    lemma_words_spaced(words(line));
    lemma_lex_plain(spaced(words(line)));
}

/// Plain words that are joined by single spaces lex to one token for each word, in order, and
/// the text of each token is its word.
pub proof fn lemma_lex_spaced(words: Seq<Seq<char>>)
    requires
        are_words(words),
    ensures
        lex_spec(spaced(words)) == Ok::<Seq<TokenView>, LexError>(word_tokens(words)),
        token_texts(word_tokens(words)) == words,
{
    lemma_words_spaced(words);
    lemma_lex_plain(spaced(words));
}


/// Whether each string among the tokens has a segment and begins with a literal one.
pub open spec fn strings_begin_literal(tokens: Seq<TokenView>) -> bool {
    forall|i: int|
        0 <= i < tokens.len() ==> ((#[trigger] tokens[i]) matches TokenView::String(segments)
            ==> segments.len() > 0 && segments[0].kind == SegmentKind::Literal)
}

/// Whatever the lexer has read, a pending token has a segment and begins with a literal one,
/// as each finished string does, and a quoted region lies inside a pending token.
pub proof fn lemma_scan_wf(line: Seq<char>)
    ensures
        scan(line).wf(),
        strings_begin_literal(scan(line).tokens),
        scan(line).current matches Some(segments) ==> segments[0].kind == SegmentKind::Literal,
    decreases line.len(),
{
    if line.len() > 0 {
        lemma_scan_wf(line.drop_last());
        let before = scan(line.drop_last());
        let after = before.step(line.last());
        assert(strings_begin_literal(before.flush().tokens));
        assert(strings_begin_literal(after.tokens));
    }
}

/// Every string token of a line has a segment and begins with a literal one.
pub proof fn lemma_lex_strings(line: Seq<char>)
    ensures
        lex_spec(line) matches Ok(tokens) ==> strings_begin_literal(tokens),
{
    lemma_scan_wf(line);
    assert(strings_begin_literal(scan(line).flush().tokens));
}

} // verus!
