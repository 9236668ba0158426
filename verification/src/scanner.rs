use vstd::prelude::*;
use vstd::string::*;

use crate::compiler::CompilationError;
use crate::compiler::CompilationState;
use crate::compiler::CompilationStatus;
use crate::model::Template;
use crate::strings::SourcePosition;
use crate::strings::SourceView;
use crate::strings::StringView;
use crate::strings::char_to_string;
use crate::strings::spec_pos_after;
use crate::strings::str_eq;

verus! {

// ---------------------------------------------------------------------------
// Character classes of the instruction language.
// ---------------------------------------------------------------------------
/// Whitespace separating words inside an instruction.
pub open spec fn is_space_char(c: char) -> bool {
    c == ' ' || c == '\t' || c == '\n'
}

/// A character that may open an identifier.
pub open spec fn is_word_start_char(c: char) -> bool {
    ('a' <= c && c <= 'z') || ('A' <= c && c <= 'Z') || c == '_'
}

/// A character accepted inside an identifier.
pub open spec fn is_word_inner_char(c: char) -> bool {
    ('a' <= c && c <= 'z') || ('A' <= c && c <= 'Z') || c == '.' || c == '-' || c == '_'
}

/// A character that ends an identifier.
pub open spec fn is_terminator_char(c: char) -> bool {
    is_space_char(c) || c == '}'
}

// ---------------------------------------------------------------------------
// The functional model of scanning, over the window's characters. Indices
// are relative to the scanned window.
// ---------------------------------------------------------------------------
/// A character span inside the scanned window, both bounds inclusive.
pub struct WindowSpec {
    pub from: int,
    pub to: int,
}

/// Classification of a bare word by the fixed, case-sensitive tables.
pub enum WordClassSpec {
    Function(FunctionName),
    KeyWord(KeyWordName),
    Identifier,
}

/// What kind of word token an instruction holds at one place.
pub enum WordKindSpec {
    /// A bare word, classified by the fixed tables.
    Word(WordClassSpec),
    /// A quoted literal; the payload span excludes the quotes and is absent
    /// for an empty literal.
    Literal(Option<WindowSpec>),
}

/// One word token inside an instruction.
pub struct WordTokenSpec {
    pub window: WindowSpec,
    pub kind: WordKindSpec,
}

/// One top-level token.
pub enum TopKindSpec {
    PlainText,
    Instruction(Seq<WordTokenSpec>),
}

pub struct TopTokenSpec {
    pub window: WindowSpec,
    pub kind: TopKindSpec,
}

/// A structured lexical error as the model predicts it: every text field,
/// the offending span where one is known, and the diagnostic position.
pub struct ErrorSpec {
    pub name: Seq<char>,
    pub desc: Seq<char>,
    pub cause: Seq<char>,
    pub suggestion: Seq<char>,
    pub window: Option<WindowSpec>,
    pub position: Option<SourcePosition>,
}

/// The fixed classification tables: five functions, four keywords,
/// everything else is an identifier.
pub open spec fn spec_classify_word(w: Seq<char>) -> WordClassSpec {
    if w == "IMPORT"@ {
        WordClassSpec::Function(FunctionName::IMPORT)
    } else if w == "INSERT"@ {
        WordClassSpec::Function(FunctionName::INSERT)
    } else if w == "GET"@ {
        WordClassSpec::Function(FunctionName::GET)
    } else if w == "IF"@ {
        WordClassSpec::Function(FunctionName::IF)
    } else if w == "END"@ {
        WordClassSpec::Function(FunctionName::END)
    } else if w == "AS"@ {
        WordClassSpec::KeyWord(KeyWordName::AS)
    } else if w == "FROM"@ {
        WordClassSpec::KeyWord(KeyWordName::FROM)
    } else if w == "PARAMS"@ {
        WordClassSpec::KeyWord(KeyWordName::PARAMS)
    } else if w == "TO"@ {
        WordClassSpec::KeyWord(KeyWordName::TO)
    } else {
        WordClassSpec::Identifier
    }
}

/// Least index at or after `i` holding `target`, if any.
pub open spec fn spec_find_from(s: Seq<char>, target: char, i: int) -> Option<int>
    decreases s.len() - i,
{
    if i < 0 || i >= s.len() {
        None
    } else if s[i] == target {
        Some(i)
    } else {
        spec_find_from(s, target, i + 1)
    }
}

pub proof fn lemma_find_from(s: Seq<char>, target: char, i: int)
    requires
        i >= 0,
    ensures
        spec_find_from(s, target, i) matches Some(j) ==> i <= j < s.len() && s[j] == target
            && forall|k: int| i <= k < j ==> s[k] != target,
        spec_find_from(s, target, i) is None ==> forall|k: int|
            i <= k < s.len() ==> s[k] != target,
    decreases s.len() - i,
{
    if 0 <= i < s.len() && s[i] != target {
        lemma_find_from(s, target, i + 1);
    }
}

/// Outcome of looking for the start of the next word.
pub enum WordBeginStep {
    /// The instruction's closing brace stands at this index.
    End(int),
    /// An identifier opens at this index.
    Ident(int),
    /// A string literal's opening quote stands at this index.
    Lit(int),
    /// A character that may not begin a word stands at this index.
    Bad(int),
    /// The window ended while skipping whitespace.
    Exhausted,
}

/// Scans forward from `i` for the start of the next word, skipping
/// whitespace.
pub open spec fn spec_word_begin_from(s: Seq<char>, i: int) -> WordBeginStep
    decreases s.len() - i,
{
    if i < 0 || i >= s.len() {
        WordBeginStep::Exhausted
    } else if is_space_char(s[i]) {
        spec_word_begin_from(s, i + 1)
    } else if is_word_start_char(s[i]) {
        WordBeginStep::Ident(i)
    } else if s[i] == '}' {
        WordBeginStep::End(i)
    } else if s[i] == '\'' {
        WordBeginStep::Lit(i)
    } else {
        WordBeginStep::Bad(i)
    }
}

pub proof fn lemma_word_begin_from(s: Seq<char>, i: int)
    requires
        i >= 0,
    ensures
        match spec_word_begin_from(s, i) {
            WordBeginStep::End(j) => i <= j < s.len(),
            WordBeginStep::Ident(j) => i <= j < s.len(),
            WordBeginStep::Lit(j) => i <= j < s.len(),
            WordBeginStep::Bad(j) => i <= j < s.len(),
            WordBeginStep::Exhausted => true,
        },
    decreases s.len() - i,
{
    if 0 <= i < s.len() && is_space_char(s[i]) {
        lemma_word_begin_from(s, i + 1);
    }
}

/// The word-begin classification as the scanner calls it: a closing brace
/// directly under the cursor resolves at once, anything else is looked for
/// from the following index on.
pub open spec fn spec_word_begin_at(s: Seq<char>, cur: int) -> WordBeginStep {
    if 0 <= cur < s.len() && s[cur] == '}' {
        WordBeginStep::End(cur)
    } else {
        spec_word_begin_from(s, cur + 1)
    }
}

/// Outcome of scanning for the end of an identifier.
pub enum IdentEndStep {
    /// A terminator stands at this index; the word ends just before it.
    Done(int),
    /// A character that may not stand inside a word sits at this index.
    Bad(int),
    /// The window ended inside the word.
    Exhausted,
}

/// Scans forward from `i` over identifier characters for the first
/// terminator.
pub open spec fn spec_ident_end_from(s: Seq<char>, i: int) -> IdentEndStep
    decreases s.len() - i,
{
    if i < 0 || i >= s.len() {
        IdentEndStep::Exhausted
    } else if is_terminator_char(s[i]) {
        IdentEndStep::Done(i)
    } else if is_word_inner_char(s[i]) {
        spec_ident_end_from(s, i + 1)
    } else {
        IdentEndStep::Bad(i)
    }
}

pub proof fn lemma_ident_end_from(s: Seq<char>, i: int)
    requires
        i >= 0,
    ensures
        match spec_ident_end_from(s, i) {
            IdentEndStep::Done(j) => i <= j < s.len(),
            IdentEndStep::Bad(j) => i <= j < s.len(),
            IdentEndStep::Exhausted => true,
        },
    decreases s.len() - i,
{
    if 0 <= i < s.len() && !is_terminator_char(s[i]) && is_word_inner_char(s[i]) {
        lemma_ident_end_from(s, i + 1);
    }
}

/// Where the inner word scan failed: index values are relative to the
/// instruction's own window.
pub enum InnerErrSpec {
    /// A word begins with a character that may not begin one.
    BadBegin(int),
    /// An identifier holds a character that may not stand in one.
    BadInWord(int),
    /// The window ended while looking for the next word.
    EndAtBegin,
    /// The window ended inside an identifier.
    EndInWord,
    /// The window ended before a literal's closing quote.
    EndInLit,
}

/// The word token for an identifier spanning `[start, end]` of `t`.
pub open spec fn spec_ident_word(t: Seq<char>, start: int, end: int) -> WordTokenSpec {
    WordTokenSpec {
        window: WindowSpec { from: start, to: end },
        kind: WordKindSpec::Word(spec_classify_word(t.subrange(start, end + 1))),
    }
}

/// The word token for a string literal whose quotes stand at `start` and
/// `end` of the instruction's window.
pub open spec fn spec_literal_word(start: int, end: int) -> WordTokenSpec {
    WordTokenSpec {
        window: WindowSpec { from: start, to: end },
        kind: WordKindSpec::Literal(
            if start + 1 <= end - 1 {
                Some(WindowSpec { from: start + 1, to: end - 1 })
            } else {
                None
            },
        ),
    }
}

/// The inner scanning loop: words collected from cursor index `cur` of the
/// instruction window `t` until its closing brace, or the first failure.
pub open spec fn spec_scan_words(t: Seq<char>, cur: int) -> Result<Seq<WordTokenSpec>, InnerErrSpec>
    decreases t.len() - cur,
    via spec_scan_words_decreases
{
    match spec_word_begin_at(t, cur) {
        WordBeginStep::End(j) => Ok(Seq::empty()),
        WordBeginStep::Exhausted => Err(InnerErrSpec::EndAtBegin),
        WordBeginStep::Bad(j) => Err(InnerErrSpec::BadBegin(j)),
        WordBeginStep::Ident(j) => match spec_ident_end_from(t, j + 1) {
            IdentEndStep::Done(k) => match spec_scan_words(t, k) {
                Ok(ws) => Ok(seq![spec_ident_word(t, j, k - 1)] + ws),
                Err(e) => Err(e),
            },
            IdentEndStep::Bad(k) => Err(InnerErrSpec::BadInWord(k)),
            IdentEndStep::Exhausted => Err(InnerErrSpec::EndInWord),
        },
        WordBeginStep::Lit(j) => match spec_find_from(t, '\'', j + 1) {
            Some(k) => match spec_scan_words(t, k) {
                Ok(ws) => Ok(seq![spec_literal_word(j, k)] + ws),
                Err(e) => Err(e),
            },
            None => Err(InnerErrSpec::EndInLit),
        },
    }
}

#[via_fn]
proof fn spec_scan_words_decreases(t: Seq<char>, cur: int) {
    match spec_word_begin_at(t, cur) {
        WordBeginStep::Ident(j) => {
            if j != cur {
                lemma_word_begin_from(t, cur + 1);
            }
            lemma_ident_end_from(t, j + 1);
        },
        WordBeginStep::Lit(j) => {
            if j != cur {
                lemma_word_begin_from(t, cur + 1);
            }
            lemma_find_from(t, '\'', j + 1);
        },
        _ => {},
    }
}

// ---------------------------------------------------------------------------
// The errors the model predicts, with every text field spelled out.
// ---------------------------------------------------------------------------
pub open spec fn spec_unclosed_error(p: SourcePosition, at: int) -> ErrorSpec {
    ErrorSpec {
        name: "ERR_UNCLOSED_INSTRUCTION"@,
        desc: "instruction start does not have an instruction end"@,
        cause: "unwanted instruction start in plain text or missing close"@,
        suggestion: "insert '}' or remove unwanted instruction start"@,
        window: Some(WindowSpec { from: at, to: at }),
        position: Some(p),
    }
}

pub open spec fn spec_invalid_word_begin_error(c: char, p: SourcePosition, at: int) -> ErrorSpec {
    ErrorSpec {
        name: "ERR_INVALID_WORD_BEGIN"@,
        desc: "cannot scan word in instruction"@,
        cause: "invalid character '"@ + seq![c] + "' found at begin of word"@,
        suggestion: "remove character '"@ + seq![c]
            + "' from word beginning. Such chars are not allowed there"@,
        window: Some(WindowSpec { from: at, to: at }),
        position: Some(p),
    }
}

pub open spec fn spec_source_end_at_begin_error(p: SourcePosition) -> ErrorSpec {
    ErrorSpec {
        name: "ERR_UNEXPECTED_SOURCE_END"@,
        desc: "cannot scan for next word"@,
        cause: "source ends mid instruction"@,
        suggestion: "end instruction before source end"@,
        window: None,
        position: Some(p),
    }
}

pub open spec fn spec_invalid_char_in_word_error(c: char, p: SourcePosition, at: int) -> ErrorSpec {
    ErrorSpec {
        name: "ERR_INVALID_CHAR_IN_WORD"@,
        desc: "cannot scan word in instruction"@,
        cause: "invalid character '"@ + seq![c] + "' found in word"@,
        suggestion: "remove character '"@ + seq![c]
            + "' from word. Such chars are not allowed there"@,
        window: Some(WindowSpec { from: at, to: at }),
        position: Some(p),
    }
}

pub open spec fn spec_source_end_in_word_error(p: SourcePosition) -> ErrorSpec {
    ErrorSpec {
        name: "ERR_UNEXPECTED_SOURCE_END"@,
        desc: "cannot scan word"@,
        cause: "source ends mid word"@,
        suggestion: "end instruction before source end"@,
        window: None,
        position: Some(p),
    }
}

pub open spec fn spec_literal_end_error(p: SourcePosition) -> ErrorSpec {
    ErrorSpec {
        name: "ERR_UNEXPECTED_STRING_LITERAL_END"@,
        desc: "cannot scan string literal"@,
        cause: "source ends mid literal"@,
        suggestion: "end literal before source end"@,
        window: None,
        position: Some(p),
    }
}

/// The full error an inner failure produces: `t` is the instruction
/// window's content, `p` the diagnostic position at its start, and `base`
/// the instruction window's offset inside the window the error's span is
/// expressed in.
pub open spec fn spec_inner_error(
    t: Seq<char>,
    ie: InnerErrSpec,
    p: SourcePosition,
    base: int,
) -> ErrorSpec {
    match ie {
        InnerErrSpec::BadBegin(j) => spec_invalid_word_begin_error(
            t[j],
            spec_pos_after(p, t.subrange(0, j + 1)),
            base + j,
        ),
        InnerErrSpec::BadInWord(j) => spec_invalid_char_in_word_error(
            t[j],
            spec_pos_after(p, t.subrange(0, j + 1)),
            base + j,
        ),
        InnerErrSpec::EndAtBegin => spec_source_end_at_begin_error(spec_pos_after(p, t)),
        InnerErrSpec::EndInWord => spec_source_end_in_word_error(spec_pos_after(p, t)),
        InnerErrSpec::EndInLit => spec_literal_end_error(spec_pos_after(p, t)),
    }
}

// ---------------------------------------------------------------------------
// The outer scan model.
// ---------------------------------------------------------------------------
pub open spec fn spec_plain_token(from: int, to: int) -> TopTokenSpec {
    TopTokenSpec { window: WindowSpec { from, to }, kind: TopKindSpec::PlainText }
}

/// Shifts a word token, collected relative to its instruction's window, to
/// indices relative to the outer window that starts `base` earlier.
pub open spec fn spec_shift_word(w: WordTokenSpec, base: int) -> WordTokenSpec {
    WordTokenSpec {
        window: WindowSpec { from: base + w.window.from, to: base + w.window.to },
        kind: match w.kind {
            WordKindSpec::Word(c) => WordKindSpec::Word(c),
            WordKindSpec::Literal(None) => WordKindSpec::Literal(None),
            WordKindSpec::Literal(Some(pw)) => WordKindSpec::Literal(
                Some(WindowSpec { from: base + pw.from, to: base + pw.to }),
            ),
        },
    }
}

pub open spec fn spec_instruction_token(start: int, end: int, ws: Seq<WordTokenSpec>) -> TopTokenSpec {
    TopTokenSpec {
        window: WindowSpec { from: start, to: end },
        kind: TopKindSpec::Instruction(Seq::new(ws.len(), |i: int| spec_shift_word(ws[i], start))),
    }
}

/// The outer scanning loop over the window content `s`: `cur` is the
/// cursor, `last` the index of the last character already carried by an
/// emitted token, `p` the diagnostic position at `cur`. Yields the tokens
/// emitted from here on and the error that stops the scan, if one does.
pub open spec fn spec_scan_outer(s: Seq<char>, cur: int, last: int, p: SourcePosition) -> (
    Seq<TopTokenSpec>,
    Option<ErrorSpec>,
)
    decreases s.len() - cur,
    via spec_scan_outer_decreases
{
    match spec_find_from(s, '{', cur + 1) {
        None => {
            if s.len() > 0 && s.len() - 1 >= last + 1 {
                (seq![spec_plain_token(last + 1, s.len() - 1)], None::<ErrorSpec>)
            } else {
                (Seq::empty(), None::<ErrorSpec>)
            }
        },
        Some(start) => {
            let lead: Seq<TopTokenSpec> = if start > last + 1 {
                seq![spec_plain_token(last + 1, start - 1)]
            } else {
                Seq::empty()
            };
            let p_start = spec_pos_after(p, s.subrange(cur + 1, start + 1));
            match spec_find_from(s, '}', start + 1) {
                None => (lead, Some(spec_unclosed_error(p_start, start))),
                Some(end) => {
                    let t = s.subrange(start, end + 1);
                    let p_end = spec_pos_after(p, s.subrange(cur + 1, end + 1));
                    match spec_scan_words(t, 0) {
                        Ok(ws) => {
                            let rest = spec_scan_outer(s, end, end, p_end);
                            (
                                lead + seq![spec_instruction_token(start, end, ws)] + rest.0,
                                rest.1,
                            )
                        },
                        Err(ie) => (lead, Some(spec_inner_error(t, ie, p_end, start))),
                    }
                },
            }
        },
    }
}

#[via_fn]
proof fn spec_scan_outer_decreases(s: Seq<char>, cur: int, last: int, p: SourcePosition) {
    match spec_find_from(s, '{', cur + 1) {
        Some(start) => {
            lemma_find_from(s, '{', cur + 1);
            lemma_find_from(s, '}', start + 1);
        },
        None => {},
    }
}

// ---------------------------------------------------------------------------
// How executable tokens and errors realize the model: spans are relative
// to `base`, the window that was scanned.
// ---------------------------------------------------------------------------
pub open spec fn window_matches(v: StringView, w: WindowSpec, base: StringView) -> bool {
    &&& v.original == base.original
    &&& v.from == base.from + w.from
    &&& v.to == base.from + w.to
}

pub open spec fn word_token_matches(t: Token, ws: WordTokenSpec, base: StringView) -> bool {
    &&& window_matches(t.view, ws.window, base)
    &&& match ws.kind {
        WordKindSpec::Word(c) => match c {
            WordClassSpec::Function(f) => t.ttype matches TokenType::Function(g) && g == f,
            WordClassSpec::KeyWord(k) => t.ttype matches TokenType::KeyWord(l) && l == k,
            WordClassSpec::Identifier => t.ttype is Identifier,
        },
        WordKindSpec::Literal(None) => t.ttype matches TokenType::StringLiteral(pl) && pl
            is None,
        WordKindSpec::Literal(Some(pw)) => t.ttype matches TokenType::StringLiteral(pl) && (
        pl matches Some(pv) && window_matches(pv, pw, base)),
    }
}

pub open spec fn top_token_matches(t: Token, ts: TopTokenSpec, base: StringView) -> bool {
    &&& window_matches(t.view, ts.window, base)
    &&& match ts.kind {
        TopKindSpec::PlainText => t.ttype is PlainText,
        TopKindSpec::Instruction(ws) => t.ttype matches TokenType::Instruction(it) && (
        it.words@.len() == ws.len() && forall|i: int|
            0 <= i < ws.len() ==> word_token_matches(#[trigger] it.words@[i], ws[i], base)),
    }
}

pub open spec fn error_matches(e: CompilationError, es: ErrorSpec, base: StringView) -> bool {
    &&& e.name@ == es.name
    &&& e.desc@ == es.desc
    &&& e.cause@ == es.cause
    &&& e.suggestion@ == es.suggestion
    &&& match es.window {
        None => e.view is None,
        Some(w) => e.view matches Some(v) && window_matches(v, w, base),
    }
    &&& e.position == es.position
}

// ---------------------------------------------------------------------------
// The token vocabulary.
// ---------------------------------------------------------------------------
/// The fixed set of instruction functions.
#[derive(Clone, Copy, PartialEq, Eq, Debug)]
pub enum FunctionName {
    IMPORT,
    INSERT,
    GET,
    IF,
    END,
}

/// The fixed set of instruction keywords.
#[derive(Clone, Copy, PartialEq, Eq, Debug)]
pub enum KeyWordName {
    FROM,
    AS,
    TO,
    PARAMS,
}

/// The ordered words collected inside one instruction.
#[derive(Debug)]
pub struct InstructionToken<'this> {
    pub words: Vec<Token<'this>>,
}

impl<'this> InstructionToken<'this> {
    pub fn new(list: Vec<Token<'this>>) -> (r: Self)
        ensures
            r.words == list,
    {
        Self { words: list }
    }
}

/// What a token stands for. Word-level kinds appear only inside an
/// `Instruction`'s word list; a string literal's payload window excludes
/// the quotes and is absent for an empty literal.
#[derive(Debug)]
pub enum TokenType<'this> {
    Function(FunctionName),
    KeyWord(KeyWordName),
    StringLiteral(Option<StringView<'this>>),
    Identifier,
    Instruction(InstructionToken<'this>),
    PlainText,
}

impl<'this> TokenType<'this> {
    /// Classifies one bare instruction word by the fixed, case-sensitive
    /// tables; anything outside them is an identifier.
    pub fn from_instruction_word<'call>(view: &'call str) -> (r: TokenType<'this>)
        ensures
            r == match spec_classify_word(view@) {
                WordClassSpec::Function(f) => TokenType::<'this>::Function(f),
                WordClassSpec::KeyWord(k) => TokenType::<'this>::KeyWord(k),
                WordClassSpec::Identifier => TokenType::<'this>::Identifier,
            },
    {
        if str_eq(view, "IMPORT") {
            TokenType::Function(FunctionName::IMPORT)
        } else if str_eq(view, "INSERT") {
            TokenType::Function(FunctionName::INSERT)
        } else if str_eq(view, "GET") {
            TokenType::Function(FunctionName::GET)
        } else if str_eq(view, "IF") {
            TokenType::Function(FunctionName::IF)
        } else if str_eq(view, "END") {
            TokenType::Function(FunctionName::END)
        } else if str_eq(view, "AS") {
            TokenType::KeyWord(KeyWordName::AS)
        } else if str_eq(view, "FROM") {
            TokenType::KeyWord(KeyWordName::FROM)
        } else if str_eq(view, "PARAMS") {
            TokenType::KeyWord(KeyWordName::PARAMS)
        } else if str_eq(view, "TO") {
            TokenType::KeyWord(KeyWordName::TO)
        } else {
            TokenType::Identifier
        }
    }
}

/// One token: the verbatim source span it covers and its kind.
#[derive(Debug)]
pub struct Token<'this> {
    pub view: StringView<'this>,
    pub ttype: TokenType<'this>,
}

impl<'this> Token<'this> {
    /// Builds the word token for a bare word spanning `view`.
    pub fn word_from_source<'call>(view: &'call StringView<'this>) -> (r: Token<'this>)
        requires
            view.wf(),
        ensures
            r.view == *view,
            r.ttype == match spec_classify_word(view.content()) {
                WordClassSpec::Function(f) => TokenType::<'this>::Function(f),
                WordClassSpec::KeyWord(k) => TokenType::<'this>::KeyWord(k),
                WordClassSpec::Identifier => TokenType::<'this>::Identifier,
            },
    {
        Token { view: *view, ttype: TokenType::from_instruction_word(view.cut()) }
    }
}

/// The scan result: an ordered, append-only sequence of top-level tokens.
#[derive(Debug)]
pub struct TokenModel<'this> {
    pub tokenstream: Vec<Token<'this>>,
}

impl<'this> TokenModel<'this> {
    pub fn new() -> (r: TokenModel<'this>)
        ensures
            r.tokenstream@.len() == 0,
    {
        Self { tokenstream: Vec::new() }
    }

    pub fn append(&mut self, tok: Token<'this>)
        ensures
            final(self).tokenstream@ == old(self).tokenstream@.push(tok),
    {
        self.tokenstream.push(tok);
    }
}

// ---------------------------------------------------------------------------
// Builders for the concrete error values.
// ---------------------------------------------------------------------------
fn unclosed_error<'this>(p: SourcePosition, v: StringView<'this>) -> (e: CompilationError<'this>)
    ensures
        e.name@ == spec_unclosed_error(p, 0).name,
        e.desc@ == spec_unclosed_error(p, 0).desc,
        e.cause@ == spec_unclosed_error(p, 0).cause,
        e.suggestion@ == spec_unclosed_error(p, 0).suggestion,
        e.view == Some(v),
        e.position == Some(p),
{
    CompilationError {
        name: String::from_str("ERR_UNCLOSED_INSTRUCTION"),
        desc: String::from_str("instruction start does not have an instruction end"),
        cause: String::from_str("unwanted instruction start in plain text or missing close"),
        suggestion: String::from_str("insert '}' or remove unwanted instruction start"),
        view: Some(v),
        position: Some(p),
    }
}

fn invalid_word_begin_error<'this>(c: char, p: SourcePosition, v: StringView<'this>) -> (e:
    CompilationError<'this>)
    ensures
        e.name@ == spec_invalid_word_begin_error(c, p, 0).name,
        e.desc@ == spec_invalid_word_begin_error(c, p, 0).desc,
        e.cause@ == spec_invalid_word_begin_error(c, p, 0).cause,
        e.suggestion@ == spec_invalid_word_begin_error(c, p, 0).suggestion,
        e.view == Some(v),
        e.position == Some(p),
{
    let c_str = char_to_string(c);
    let mut cause = String::from_str("invalid character '");
    cause.append(c_str.as_str());
    cause.append("' found at begin of word");
    let mut suggestion = String::from_str("remove character '");
    suggestion.append(c_str.as_str());
    suggestion.append("' from word beginning. Such chars are not allowed there");
    CompilationError {
        name: String::from_str("ERR_INVALID_WORD_BEGIN"),
        desc: String::from_str("cannot scan word in instruction"),
        cause,
        suggestion,
        view: Some(v),
        position: Some(p),
    }
}

fn source_end_at_begin_error<'this>(p: SourcePosition) -> (e: CompilationError<'this>)
    ensures
        e.name@ == spec_source_end_at_begin_error(p).name,
        e.desc@ == spec_source_end_at_begin_error(p).desc,
        e.cause@ == spec_source_end_at_begin_error(p).cause,
        e.suggestion@ == spec_source_end_at_begin_error(p).suggestion,
        e.view is None,
        e.position == Some(p),
{
    CompilationError {
        name: String::from_str("ERR_UNEXPECTED_SOURCE_END"),
        desc: String::from_str("cannot scan for next word"),
        cause: String::from_str("source ends mid instruction"),
        suggestion: String::from_str("end instruction before source end"),
        view: None,
        position: Some(p),
    }
}

fn invalid_char_in_word_error<'this>(c: char, p: SourcePosition, v: StringView<'this>) -> (e:
    CompilationError<'this>)
    ensures
        e.name@ == spec_invalid_char_in_word_error(c, p, 0).name,
        e.desc@ == spec_invalid_char_in_word_error(c, p, 0).desc,
        e.cause@ == spec_invalid_char_in_word_error(c, p, 0).cause,
        e.suggestion@ == spec_invalid_char_in_word_error(c, p, 0).suggestion,
        e.view == Some(v),
        e.position == Some(p),
{
    let c_str = char_to_string(c);
    let mut cause = String::from_str("invalid character '");
    cause.append(c_str.as_str());
    cause.append("' found in word");
    let mut suggestion = String::from_str("remove character '");
    suggestion.append(c_str.as_str());
    suggestion.append("' from word. Such chars are not allowed there");
    CompilationError {
        name: String::from_str("ERR_INVALID_CHAR_IN_WORD"),
        desc: String::from_str("cannot scan word in instruction"),
        cause,
        suggestion,
        view: Some(v),
        position: Some(p),
    }
}

fn source_end_in_word_error<'this>(p: SourcePosition) -> (e: CompilationError<'this>)
    ensures
        e.name@ == spec_source_end_in_word_error(p).name,
        e.desc@ == spec_source_end_in_word_error(p).desc,
        e.cause@ == spec_source_end_in_word_error(p).cause,
        e.suggestion@ == spec_source_end_in_word_error(p).suggestion,
        e.view is None,
        e.position == Some(p),
{
    CompilationError {
        name: String::from_str("ERR_UNEXPECTED_SOURCE_END"),
        desc: String::from_str("cannot scan word"),
        cause: String::from_str("source ends mid word"),
        suggestion: String::from_str("end instruction before source end"),
        view: None,
        position: Some(p),
    }
}

fn literal_end_error<'this>(p: SourcePosition) -> (e: CompilationError<'this>)
    ensures
        e.name@ == spec_literal_end_error(p).name,
        e.desc@ == spec_literal_end_error(p).desc,
        e.cause@ == spec_literal_end_error(p).cause,
        e.suggestion@ == spec_literal_end_error(p).suggestion,
        e.view is None,
        e.position == Some(p),
{
    CompilationError {
        name: String::from_str("ERR_UNEXPECTED_STRING_LITERAL_END"),
        desc: String::from_str("cannot scan string literal"),
        cause: String::from_str("source ends mid literal"),
        suggestion: String::from_str("end literal before source end"),
        view: None,
        position: Some(p),
    }
}

/// What the word-begin classification found, with the index it stands at.
#[derive(Clone, Copy, PartialEq, Eq, Debug)]
pub enum WordBegin {
    Identifier(usize),
    StringLiteral(usize),
    InstructionEnd(usize),
}

/// The scanning engine: drives a cursor over the source, fills the token
/// model, and records the first error in its compilation state.
pub struct InputComponent<'this> {
    pub template: Template<'this>,
    pub tmodel: TokenModel<'this>,
    pub state: CompilationState<'this>,
}

impl<'this> InputComponent<'this> {
    pub fn new(id: String) -> (r: InputComponent<'this>)
        ensures
            r.template.id == id,
            r.template.operations@.len() == 0,
            r.template.variables@.len() == 0,
            r.tmodel.tokenstream@.len() == 0,
            r.state.status is OK,
    {
        Self {
            template: Template::new(id),
            tmodel: TokenModel::new(),
            state: CompilationState::new(),
        }
    }

    pub fn is_ok(&self) -> (r: bool)
        ensures
            r == (self.state.status is OK),
    {
        self.state.is_ok()
    }

    pub fn get_error(&self) -> (r: Option<&CompilationError<'this>>)
        ensures
            self.state.status is OK ==> r is None,
            self.state.status matches CompilationStatus::Error(e) ==> (r matches Some(er)
                && *er == e),
    {
        self.state.get_error()
    }

    /// Finds the next `{` strictly after the cursor and leaves the cursor
    /// on it; a source that ends first yields nothing.
    #[verifier::loop_isolation(false)]
    pub fn find_next_instruction_start(source: &mut SourceView<'this>) -> (r: Option<usize>)
        requires
            old(source).wf(),
        ensures
            final(source).view == old(source).view,
            final(source).wf(),
            old(source).exhausted() ==> r is None && *final(source) == *old(source),
            !old(source).exhausted() ==> match spec_find_from(
                old(source).view.content(),
                '{',
                old(source).cursor + 1,
            ) {
                Some(i) => {
                    &&& r matches Some(u) && u == i
                    &&& final(source).cursor == i
                    &&& !final(source).exhausted()
                    &&& final(source).position == spec_pos_after(
                        old(source).position,
                        old(source).view.content().subrange(old(source).cursor + 1, i + 1),
                    )
                },
                None => {
                    &&& r is None
                    &&& final(source).cursor == old(source).view.win_len()
                    &&& final(source).exhausted()
                    &&& final(source).position == spec_pos_after(
                        old(source).position,
                        old(source).view.content().subrange(
                            old(source).cursor + 1,
                            old(source).view.win_len(),
                        ),
                    )
                },
            },
    {
        let ghost s = old(source).view.content();
        let ghost c0 = old(source).cursor;
        loop
            invariant
                source.wf(),
                source.view == old(source).view,
                s == old(source).view.content(),
                c0 == old(source).cursor,
                old(source).exhausted() ==> *source == *old(source),
                !old(source).exhausted() ==> {
                    &&& !source.exhausted()
                    &&& c0 <= source.cursor < s.len() || (c0 == source.cursor && c0 + 1
                        >= s.len())
                    &&& spec_find_from(s, '{', c0 + 1) == spec_find_from(
                        s,
                        '{',
                        source.cursor + 1,
                    )
                    &&& source.position == spec_pos_after(
                        old(source).position,
                        s.subrange(c0 + 1, source.cursor + 1),
                    )
                },
            decreases s.len() - source.cursor,
        {
            let ghost pre = *source;
            match source.next() {
                Some(c) => {
                    proof {
                        crate::strings::lemma_subrange_push(s, c0 + 1, pre.cursor + 1);
                        crate::strings::lemma_pos_after_push(
                            old(source).position,
                            s.subrange(c0 + 1, pre.cursor + 1),
                            s[pre.cursor + 1],
                        );
                    }
                    if c == '{' {
                        return Some(source.cursor as usize);
                    }
                },
                None => {
                    return None;
                },
            }
        }
    }

    /// Finds the next `}` strictly after the cursor and leaves the cursor
    /// on it. The call means an instruction stands open, so a source that
    /// ends first is an unclosed instruction: the error carries the
    /// position at entry and a one-character window at the opening brace.
    #[verifier::loop_isolation(false)]
    pub fn find_next_instruction_end(source: &mut SourceView<'this>) -> (r: Result<
        usize,
        CompilationError<'this>,
    >)
        requires
            old(source).wf(),
            !old(source).exhausted(),
            0 <= old(source).cursor,
        ensures
            final(source).view == old(source).view,
            final(source).wf(),
            match spec_find_from(old(source).view.content(), '}', old(source).cursor + 1) {
                Some(i) => {
                    &&& r matches Ok(u) && u == i
                    &&& final(source).cursor == i
                    &&& !final(source).exhausted()
                    &&& final(source).position == spec_pos_after(
                        old(source).position,
                        old(source).view.content().subrange(old(source).cursor + 1, i + 1),
                    )
                },
                None => {
                    &&& r matches Err(e) && error_matches(
                        e,
                        spec_unclosed_error(old(source).position, old(source).cursor as int),
                        old(source).view,
                    )
                    &&& final(source).cursor == old(source).view.win_len()
                    &&& final(source).exhausted()
                    &&& final(source).position == spec_pos_after(
                        old(source).position,
                        old(source).view.content().subrange(
                            old(source).cursor + 1,
                            old(source).view.win_len(),
                        ),
                    )
                },
            },
    {
        let ghost s = old(source).view.content();
        let ghost c0 = old(source).cursor;
        let instruction_start_position = source.position;
        let cursor_here = source.cursor as usize;
        let instruction_start_view = source.view.substring(cursor_here, cursor_here).unwrap();
        loop
            invariant
                source.wf(),
                source.view == old(source).view,
                s == old(source).view.content(),
                c0 == old(source).cursor,
                0 <= c0,
                instruction_start_position == old(source).position,
                instruction_start_view.original == old(source).view.original,
                instruction_start_view.from == old(source).view.from + c0,
                instruction_start_view.to == old(source).view.from + c0,
                !source.exhausted(),
                c0 <= source.cursor < s.len() || (c0 == source.cursor && c0 + 1 >= s.len()),
                spec_find_from(s, '}', c0 + 1) == spec_find_from(s, '}', source.cursor + 1),
                source.position == spec_pos_after(
                    old(source).position,
                    s.subrange(c0 + 1, source.cursor + 1),
                ),
            decreases s.len() - source.cursor,
        {
            let ghost pre = *source;
            match source.next() {
                Some(c) => {
                    proof {
                        crate::strings::lemma_subrange_push(s, c0 + 1, pre.cursor + 1);
                        crate::strings::lemma_pos_after_push(
                            old(source).position,
                            s.subrange(c0 + 1, pre.cursor + 1),
                            s[pre.cursor + 1],
                        );
                    }
                    if c == '}' {
                        return Ok(source.cursor as usize);
                    }
                },
                None => {
                    return Err(
                        unclosed_error(instruction_start_position, instruction_start_view),
                    );
                },
            }
        }
    }

    /// Classifies the start of the next word: a closing brace directly
    /// under the cursor ends the instruction at once; otherwise whitespace
    /// is skipped until an identifier start, a literal quote or the closing
    /// brace resolves it. Any other character, or the source ending first,
    /// is an error.
    #[verifier::loop_isolation(false)]
    pub fn find_instruction_word_begin(source: &mut SourceView<'this>) -> (r: Result<
        WordBegin,
        CompilationError<'this>,
    >)
        requires
            old(source).wf(),
        ensures
            final(source).view == old(source).view,
            final(source).wf(),
            ({
                let s = old(source).view.content();
                let c0 = old(source).cursor;
                let p0 = old(source).position;
                if 0 <= c0 < s.len() && s[c0 as int] == '}' {
                    r matches Ok(w) && w == WordBegin::InstructionEnd(c0 as usize)
                        && *final(source) == *old(source)
                } else if old(source).exhausted() {
                    (r matches Err(e) && error_matches(
                        e,
                        spec_source_end_at_begin_error(p0),
                        old(source).view,
                    )) && *final(source) == *old(source)
                } else {
                    match spec_word_begin_from(s, c0 + 1) {
                        WordBeginStep::Ident(j) => {
                            &&& r matches Ok(w) && w == WordBegin::Identifier(j as usize)
                            &&& final(source).cursor == j
                            &&& !final(source).exhausted()
                            &&& final(source).position == spec_pos_after(
                                p0,
                                s.subrange(c0 + 1, j + 1),
                            )
                        },
                        WordBeginStep::Lit(j) => {
                            &&& r matches Ok(w) && w == WordBegin::StringLiteral(j as usize)
                            &&& final(source).cursor == j
                            &&& !final(source).exhausted()
                            &&& final(source).position == spec_pos_after(
                                p0,
                                s.subrange(c0 + 1, j + 1),
                            )
                        },
                        WordBeginStep::End(j) => {
                            &&& r matches Ok(w) && w == WordBegin::InstructionEnd(j as usize)
                            &&& final(source).cursor == j
                            &&& !final(source).exhausted()
                            &&& final(source).position == spec_pos_after(
                                p0,
                                s.subrange(c0 + 1, j + 1),
                            )
                        },
                        WordBeginStep::Bad(j) => {
                            &&& r matches Err(e) && error_matches(
                                e,
                                spec_invalid_word_begin_error(
                                    s[j],
                                    spec_pos_after(p0, s.subrange(c0 + 1, j + 1)),
                                    j,
                                ),
                                old(source).view,
                            )
                            &&& final(source).cursor == j
                            &&& !final(source).exhausted()
                        },
                        WordBeginStep::Exhausted => {
                            &&& r matches Err(e) && error_matches(
                                e,
                                spec_source_end_at_begin_error(
                                    spec_pos_after(p0, s.subrange(c0 + 1, s.len() as int)),
                                ),
                                old(source).view,
                            )
                            &&& final(source).cursor == s.len()
                            &&& final(source).exhausted()
                        },
                    }
                }
            }),
    {
        let ghost s = old(source).view.content();
        let ghost c0 = old(source).cursor;

        match source.current() {
            Some(c) => if c == '}' {
                return Ok(WordBegin::InstructionEnd(source.cursor as usize));
            },
            None => {},
        }

        loop
            invariant
                source.wf(),
                source.view == old(source).view,
                old(source).exhausted() ==> *source == *old(source),
                !old(source).exhausted() ==> {
                    &&& source.exhausted() == old(source).exhausted()
                    &&& c0 <= source.cursor
                    &&& spec_word_begin_from(s, c0 + 1) == spec_word_begin_from(
                        s,
                        source.cursor + 1,
                    )
                    &&& source.position == spec_pos_after(
                        old(source).position,
                        s.subrange(c0 + 1, source.cursor + 1),
                    )
                },
            decreases s.len() - source.cursor,
        {
            let ghost pre = *source;
            match source.next() {
                None => {
                    return Err(source_end_at_begin_error(source.position));
                },
                Some(c) => {
                    proof {
                        crate::strings::lemma_subrange_push(s, c0 + 1, pre.cursor + 1);
                        crate::strings::lemma_pos_after_push(
                            old(source).position,
                            s.subrange(c0 + 1, pre.cursor + 1),
                            s[pre.cursor + 1],
                        );
                    }
                    if c == ' ' || c == '\t' || c == '\n' {
                        // whitespace between words is skipped
                    } else if (c >= 'a' && c <= 'z') || (c >= 'A' && c <= 'Z') || c == '_' {
                        return Ok(WordBegin::Identifier(source.cursor as usize));
                    } else if c == '}' {
                        return Ok(WordBegin::InstructionEnd(source.cursor as usize));
                    } else if c == '\'' {
                        return Ok(WordBegin::StringLiteral(source.cursor as usize));
                    } else {
                        let cursor_here = source.cursor as usize;
                        let offending = source.view.substring(cursor_here, cursor_here).unwrap();
                        return Err(invalid_word_begin_error(c, source.position, offending));
                    }
                },
            }
        }
    }

    /// Scans forward over identifier characters for the first terminator
    /// and yields the index of the word's last character; the cursor is
    /// left on the terminator. A character that may not stand in a word,
    /// or the source ending first, is an error.
    #[verifier::loop_isolation(false)]
    pub fn find_identifier_end(source: &mut SourceView<'this>) -> (r: Result<
        usize,
        CompilationError<'this>,
    >)
        requires
            old(source).wf(),
            old(source).cursor >= 0 || old(source).view.win_len() == 0 || !is_terminator_char(
                old(source).view.content()[0],
            ),
        ensures
            final(source).view == old(source).view,
            final(source).wf(),
            ({
                let s = old(source).view.content();
                let c0 = old(source).cursor;
                let p0 = old(source).position;
                if old(source).exhausted() {
                    (r matches Err(e) && error_matches(
                        e,
                        spec_source_end_in_word_error(p0),
                        old(source).view,
                    )) && *final(source) == *old(source)
                } else {
                    match spec_ident_end_from(s, c0 + 1) {
                        IdentEndStep::Done(k) => {
                            &&& r matches Ok(u) && u == k - 1
                            &&& final(source).cursor == k
                            &&& !final(source).exhausted()
                            &&& final(source).position == spec_pos_after(
                                p0,
                                s.subrange(c0 + 1, k + 1),
                            )
                        },
                        IdentEndStep::Bad(k) => {
                            &&& r matches Err(e) && error_matches(
                                e,
                                spec_invalid_char_in_word_error(
                                    s[k],
                                    spec_pos_after(p0, s.subrange(c0 + 1, k + 1)),
                                    k,
                                ),
                                old(source).view,
                            )
                            &&& final(source).cursor == k
                            &&& !final(source).exhausted()
                        },
                        IdentEndStep::Exhausted => {
                            &&& r matches Err(e) && error_matches(
                                e,
                                spec_source_end_in_word_error(
                                    spec_pos_after(p0, s.subrange(c0 + 1, s.len() as int)),
                                ),
                                old(source).view,
                            )
                            &&& final(source).cursor == s.len()
                            &&& final(source).exhausted()
                        },
                    }
                }
            }),
    {
        let ghost s = old(source).view.content();
        let ghost c0 = old(source).cursor;
        loop
            invariant
                source.wf(),
                source.view == old(source).view,
                old(source).exhausted() ==> *source == *old(source),
                !old(source).exhausted() ==> {
                    &&& source.exhausted() == old(source).exhausted()
                    &&& c0 <= source.cursor
                    &&& spec_ident_end_from(s, c0 + 1) == spec_ident_end_from(
                        s,
                        source.cursor + 1,
                    )
                    &&& source.position == spec_pos_after(
                        old(source).position,
                        s.subrange(c0 + 1, source.cursor + 1),
                    )
                },
            decreases s.len() - source.cursor,
        {
            let ghost pre = *source;
            match source.next() {
                None => {
                    return Err(source_end_in_word_error(source.position));
                },
                Some(c) => {
                    proof {
                        crate::strings::lemma_subrange_push(s, c0 + 1, pre.cursor + 1);
                        crate::strings::lemma_pos_after_push(
                            old(source).position,
                            s.subrange(c0 + 1, pre.cursor + 1),
                            s[pre.cursor + 1],
                        );
                    }
                    if c == ' ' || c == '\t' || c == '\n' || c == '}' {
                        return Ok((source.cursor - 1) as usize);
                    } else if (c >= 'a' && c <= 'z') || (c >= 'A' && c <= 'Z') || c == '.' || c
                        == '-' || c == '_' {
                        // still inside the word
                    } else {
                        let cursor_here = source.cursor as usize;
                        let offending = source.view.substring(cursor_here, cursor_here).unwrap();
                        return Err(invalid_char_in_word_error(c, source.position, offending));
                    }
                },
            }
        }
    }

    /// Scans forward for the literal's closing quote and yields its index.
    /// A source that ends first is an error.
    #[verifier::loop_isolation(false)]
    pub fn find_string_literal_end(source: &mut SourceView<'this>) -> (r: Result<
        usize,
        CompilationError<'this>,
    >)
        requires
            old(source).wf(),
        ensures
            final(source).view == old(source).view,
            final(source).wf(),
            ({
                let s = old(source).view.content();
                let c0 = old(source).cursor;
                let p0 = old(source).position;
                if old(source).exhausted() {
                    (r matches Err(e) && error_matches(
                        e,
                        spec_literal_end_error(p0),
                        old(source).view,
                    )) && *final(source) == *old(source)
                } else {
                    match spec_find_from(s, '\'', c0 + 1) {
                        Some(k) => {
                            &&& r matches Ok(u) && u == k
                            &&& final(source).cursor == k
                            &&& !final(source).exhausted()
                            &&& final(source).position == spec_pos_after(
                                p0,
                                s.subrange(c0 + 1, k + 1),
                            )
                        },
                        None => {
                            &&& r matches Err(e) && error_matches(
                                e,
                                spec_literal_end_error(
                                    spec_pos_after(p0, s.subrange(c0 + 1, s.len() as int)),
                                ),
                                old(source).view,
                            )
                            &&& final(source).cursor == s.len()
                            &&& final(source).exhausted()
                        },
                    }
                }
            }),
    {
        let ghost s = old(source).view.content();
        let ghost c0 = old(source).cursor;
        loop
            invariant
                source.wf(),
                source.view == old(source).view,
                old(source).exhausted() ==> *source == *old(source),
                !old(source).exhausted() ==> {
                    &&& source.exhausted() == old(source).exhausted()
                    &&& c0 <= source.cursor
                    &&& spec_find_from(s, '\'', c0 + 1) == spec_find_from(
                        s,
                        '\'',
                        source.cursor + 1,
                    )
                    &&& source.position == spec_pos_after(
                        old(source).position,
                        s.subrange(c0 + 1, source.cursor + 1),
                    )
                },
            decreases s.len() - source.cursor,
        {
            let ghost pre = *source;
            match source.next() {
                None => {
                    return Err(literal_end_error(source.position));
                },
                Some(c) => {
                    proof {
                        crate::strings::lemma_subrange_push(s, c0 + 1, pre.cursor + 1);
                        crate::strings::lemma_pos_after_push(
                            old(source).position,
                            s.subrange(c0 + 1, pre.cursor + 1),
                            s[pre.cursor + 1],
                        );
                    }
                    if c == '\'' {
                        return Ok(source.cursor as usize);
                    }
                },
            }
        }
    }

    /// Scans one instruction; `source` covers it from `{` to `}` inclusive,
    /// with the cursor before its first character. Yields the `Instruction`
    /// token holding every collected word, or the first failure.
    #[verifier::loop_isolation(false)]
    #[verifier::rlimit(100)]
    #[verifier::spinoff_prover]
    pub fn scan_instruction(source: SourceView<'this>) -> (r: Result<
        Token<'this>,
        CompilationError<'this>,
    >)
        requires
            source.wf(),
            source.cursor == -1,
            !source.exhausted(),
        ensures
            match spec_scan_words(source.view.content(), 0) {
                Ok(ws) => r matches Ok(tok) && {
                    &&& tok.view == source.view
                    &&& tok.ttype matches TokenType::Instruction(it) && (it.words@.len()
                        == ws.len() && forall|i: int|
                        0 <= i < ws.len() ==> word_token_matches(
                            #[trigger] it.words@[i],
                            ws[i],
                            source.view,
                        ))
                },
                Err(ie) => r matches Err(e) && error_matches(
                    e,
                    spec_inner_error(source.view.content(), ie, source.position, 0),
                    source.view,
                ),
            },
    {
        let ghost t = source.view.content();
        let ghost p0 = source.position;
        let mut src = source;
        let mut wordlist: Vec<Token<'this>> = Vec::new();
        // Skip '{'
        let _ = src.next();
        proof {
            if t.len() > 0 {
                assert(t.subrange(0, 1) =~= Seq::empty().push(t[0]));
                crate::strings::lemma_pos_after_push(p0, Seq::empty(), t[0]);
            }
            match spec_scan_words(t, 0) {
                Ok(all) => {
                    assert(all.skip(0) =~= all);
                },
                Err(_) => {},
            }
        }
        loop
            invariant
                src.wf(),
                src.view == source.view,
                t.len() == 0 ==> src.cursor == 0 && src.exhausted() && src.position == p0,
                t.len() > 0 ==> {
                    &&& !src.exhausted()
                    &&& 0 <= src.cursor < t.len()
                    &&& src.position == spec_pos_after(p0, t.subrange(0, src.cursor + 1))
                },
                match spec_scan_words(t, src.cursor as int) {
                    Ok(rest) => spec_scan_words(t, 0) matches Ok(all) && {
                        &&& all.len() == wordlist@.len() + rest.len()
                        &&& forall|i: int|
                            0 <= i < wordlist@.len() ==> word_token_matches(
                                #[trigger] wordlist@[i],
                                all[i],
                                source.view,
                            )
                        &&& all.skip(wordlist@.len() as int) == rest
                    },
                    Err(ie) => spec_scan_words(t, 0) == Err::<Seq<WordTokenSpec>, InnerErrSpec>(
                        ie,
                    ),
                },
            decreases t.len() - src.cursor,
        {
            let ghost cur0 = src.cursor as int;
            let ghost p_cur = src.position;
            match Self::find_instruction_word_begin(&mut src) {
                Err(e) => {
                    proof {
                        if t.len() > 0 {
                            lemma_word_begin_from(t, cur0 + 1);
                            match spec_word_begin_from(t, cur0 + 1) {
                                WordBeginStep::Bad(j) => {
                                    crate::strings::lemma_pos_after_concat(
                                        p0,
                                        t.subrange(0, cur0 + 1),
                                        t.subrange(cur0 + 1, j + 1),
                                    );
                                    assert(t.subrange(0, cur0 + 1) + t.subrange(cur0 + 1, j + 1)
                                        =~= t.subrange(0, j + 1));
                                },
                                WordBeginStep::Exhausted => {
                                    crate::strings::lemma_pos_after_concat(
                                        p0,
                                        t.subrange(0, cur0 + 1),
                                        t.subrange(cur0 + 1, t.len() as int),
                                    );
                                    assert(t.subrange(0, cur0 + 1) + t.subrange(
                                        cur0 + 1,
                                        t.len() as int,
                                    ) =~= t);
                                },
                                _ => {},
                            }
                        } else {
                            assert(t.subrange(0, 0) =~= t);
                        }
                    }
                    return Err(e);
                },
                Ok(wb) => match wb {
                    WordBegin::InstructionEnd(_end_index) => {
                        return Ok(
                            Token {
                                ttype: TokenType::Instruction(
                                    InstructionToken { words: wordlist },
                                ),
                                view: src.view,
                            },
                        );
                    },
                    WordBegin::Identifier(start) => {
                        let ghost j = start as int;
                        proof {
                            lemma_word_begin_from(t, cur0 + 1);
                            lemma_ident_end_from(t, j + 1);
                            crate::strings::lemma_pos_after_concat(
                                p0,
                                t.subrange(0, cur0 + 1),
                                t.subrange(cur0 + 1, j + 1),
                            );
                            assert(t.subrange(0, cur0 + 1) + t.subrange(cur0 + 1, j + 1)
                                =~= t.subrange(0, j + 1));
                        }
                        match Self::find_identifier_end(&mut src) {
                            Err(e) => {
                                proof {
                                    crate::strings::lemma_pos_after_concat(
                                        p0,
                                        t.subrange(0, j + 1),
                                        t.subrange(j + 1, t.len() as int),
                                    );
                                    assert(t.subrange(0, j + 1) + t.subrange(
                                        j + 1,
                                        t.len() as int,
                                    ) =~= t);
                                    match spec_ident_end_from(t, j + 1) {
                                        IdentEndStep::Bad(k) => {
                                            crate::strings::lemma_pos_after_concat(
                                                p0,
                                                t.subrange(0, j + 1),
                                                t.subrange(j + 1, k + 1),
                                            );
                                            assert(t.subrange(0, j + 1) + t.subrange(
                                                j + 1,
                                                k + 1,
                                            ) =~= t.subrange(0, k + 1));
                                        },
                                        _ => {},
                                    }
                                }
                                return Err(e);
                            },
                            Ok(word_end) => {
                                let word_view = src.view.substring(start, word_end).unwrap();
                                let tok = Token::word_from_source(&word_view);
                                wordlist.push(tok);
                                proof {
                                    let k = word_end + 1;
                                    crate::strings::lemma_pos_after_concat(
                                        p0,
                                        t.subrange(0, j + 1),
                                        t.subrange(j + 1, k as int + 1),
                                    );
                                    assert(t.subrange(0, j + 1) + t.subrange(j + 1, k as int + 1)
                                        =~= t.subrange(0, k as int + 1));
                                    assert(word_view.content() =~= t.subrange(j, k as int));
                                    let prev = wordlist@.len() - 1;
                                    match spec_scan_words(t, k as int) {
                                        Ok(rest_new) => {
                                            let all = spec_scan_words(t, 0)->Ok_0;
                                            assert(all.skip(prev) == seq![
                                                spec_ident_word(t, j, k - 1),
                                            ] + rest_new);
                                            assert(all[prev] == (seq![
                                                spec_ident_word(t, j, k - 1),
                                            ] + rest_new)[0]);
                                            vstd::seq_lib::lemma_seq_skip_of_skip(all, prev, 1);
                                            assert(all.skip(prev).skip(1) =~= rest_new);
                                        },
                                        Err(_) => {},
                                    }
                                }
                            },
                        }
                    },
                    WordBegin::StringLiteral(start) => {
                        let ghost j = start as int;
                        proof {
                            lemma_word_begin_from(t, cur0 + 1);
                            lemma_find_from(t, '\'', j + 1);
                            crate::strings::lemma_pos_after_concat(
                                p0,
                                t.subrange(0, cur0 + 1),
                                t.subrange(cur0 + 1, j + 1),
                            );
                            assert(t.subrange(0, cur0 + 1) + t.subrange(cur0 + 1, j + 1)
                                =~= t.subrange(0, j + 1));
                        }
                        match Self::find_string_literal_end(&mut src) {
                            Err(e) => {
                                proof {
                                    crate::strings::lemma_pos_after_concat(
                                        p0,
                                        t.subrange(0, j + 1),
                                        t.subrange(j + 1, t.len() as int),
                                    );
                                    assert(t.subrange(0, j + 1) + t.subrange(
                                        j + 1,
                                        t.len() as int,
                                    ) =~= t);
                                }
                                return Err(e);
                            },
                            Ok(literal_end) => {
                                let outer_view = src.view.substring(start, literal_end).unwrap();
                                let ttype = if literal_end - start >= 2 {
                                    TokenType::StringLiteral(
                                        Some(
                                            src.view.substring(
                                                start + 1,
                                                literal_end - 1,
                                            ).unwrap(),
                                        ),
                                    )
                                } else {
                                    TokenType::StringLiteral(None)
                                };
                                wordlist.push(Token { ttype, view: outer_view });
                                proof {
                                    let k = literal_end as int;
                                    crate::strings::lemma_pos_after_concat(
                                        p0,
                                        t.subrange(0, j + 1),
                                        t.subrange(j + 1, k + 1),
                                    );
                                    assert(t.subrange(0, j + 1) + t.subrange(j + 1, k + 1)
                                        =~= t.subrange(0, k + 1));
                                    let prev = wordlist@.len() - 1;
                                    match spec_scan_words(t, k) {
                                        Ok(rest_new) => {
                                            let all = spec_scan_words(t, 0)->Ok_0;
                                            assert(all.skip(prev) == seq![
                                                spec_literal_word(j, k),
                                            ] + rest_new);
                                            assert(all[prev] == (seq![spec_literal_word(j, k)]
                                                + rest_new)[0]);
                                            vstd::seq_lib::lemma_seq_skip_of_skip(all, prev, 1);
                                            assert(all.skip(prev).skip(1) =~= rest_new);
                                        },
                                        Err(_) => {},
                                    }
                                }
                            },
                        }
                    },
                },
            }
        }
    }

    /// Converts the source into the token model: plain text and
    /// instructions in source order. Scanning is fail-fast: the first
    /// error is recorded in the compilation state and nothing after the
    /// failing construct is emitted.
    #[verifier::loop_isolation(false)]
    #[verifier::rlimit(100)]
    pub fn scan(&mut self, source: SourceView<'this>)
        requires
            source.wf(),
            source.exhausted() ==> source.cursor == source.view.win_len(),
        ensures
            final(self).template == old(self).template,
            ({
                let outcome = spec_scan_outer(
                    source.view.content(),
                    source.cursor as int,
                    source.cursor as int,
                    source.position,
                );
                let n0 = old(self).tmodel.tokenstream@.len();
                &&& final(self).tmodel.tokenstream@.len() == n0 + outcome.0.len()
                &&& (forall|i: int|
                    0 <= i < n0 ==> final(self).tmodel.tokenstream@[i] == old(
                        self,
                    ).tmodel.tokenstream@[i])
                &&& (forall|i: int|
                    0 <= i < outcome.0.len() ==> top_token_matches(
                        #[trigger] final(self).tmodel.tokenstream@[n0 + i],
                        outcome.0[i],
                        source.view,
                    ))
                &&& match outcome.1 {
                    None => final(self).state == old(self).state,
                    Some(es) => final(self).state.status matches CompilationStatus::Error(e)
                        && error_matches(e, es, source.view) && final(self).state.warnings
                        == old(self).state.warnings,
                }
            }),
    {
        let ghost s = source.view.content();
        let ghost c_init = source.cursor as int;
        let ghost p_init = source.position;
        let ghost n0 = old(self).tmodel.tokenstream@.len();
        let mut src = source;
        let mut last_instruction_end_index: i64 = src.cursor;
        proof {
            let full = spec_scan_outer(s, c_init, c_init, p_init);
            assert(full.0.skip(0) =~= full.0);
        }
        loop
            invariant
                src.wf(),
                src.view == source.view,
                src.exhausted() ==> src.cursor == src.view.win_len(),
                -1 <= last_instruction_end_index <= src.cursor,
                self.template == old(self).template,
                self.state == old(self).state,
                n0 == old(self).tmodel.tokenstream@.len(),
                forall|i: int|
                    0 <= i < n0 ==> self.tmodel.tokenstream@[i] == old(
                        self,
                    ).tmodel.tokenstream@[i],
                self.tmodel.tokenstream@.len() >= n0,
                ({
                    let full = spec_scan_outer(s, c_init, c_init, p_init);
                    let rem = spec_scan_outer(
                        s,
                        src.cursor as int,
                        last_instruction_end_index as int,
                        src.position,
                    );
                    let g = self.tmodel.tokenstream@.len() - n0;
                    &&& full.0.len() == g + rem.0.len()
                    &&& (forall|i: int|
                        0 <= i < g ==> top_token_matches(
                            #[trigger] self.tmodel.tokenstream@[n0 + i],
                            full.0[i],
                            source.view,
                        ))
                    &&& full.0.skip(g) == rem.0
                    &&& full.1 == rem.1
                }),
            decreases src.view.win_len() - src.cursor,
        {
            let ghost cur0 = src.cursor as int;
            let ghost last0 = last_instruction_end_index as int;
            let ghost p_cur = src.position;
            let ghost g_old = self.tmodel.tokenstream@.len() - n0;
            let ghost full = spec_scan_outer(s, c_init, c_init, p_init);
            let ghost rem_old = spec_scan_outer(s, cur0, last0, p_cur);
            match Self::find_next_instruction_start(&mut src) {
                None => {
                    let wl = src.view.length();
                    if (wl as i64) - 1 > last_instruction_end_index {
                        let from_index = (last_instruction_end_index + 1) as usize;
                        let text_view = src.view.substring(from_index, wl - 1).unwrap();
                        self.tmodel.append(Token { ttype: TokenType::PlainText, view: text_view });
                        proof {
                            assert(rem_old.0 =~= seq![spec_plain_token(last0 + 1, s.len() - 1)]);
                            assert(full.0[g_old] == full.0.skip(g_old)[0]);
                        }
                        return;
                    } else {
                        proof {
                            assert(rem_old.0 =~= Seq::<TopTokenSpec>::empty());
                        }
                        return;
                    }
                },
                Some(start_index) => {
                    proof {
                        lemma_find_from(s, '{', cur0 + 1);
                    }
                    let ghost start = start_index as int;
                    if start_index > (last_instruction_end_index + 1) as usize {
                        let from_index = (last_instruction_end_index + 1) as usize;
                        let text_view = src.view.substring(from_index, start_index - 1).unwrap();
                        self.tmodel.append(Token { ttype: TokenType::PlainText, view: text_view });
                    }
                    let ghost lead_len: int = if start > last0 + 1 { 1int } else { 0int };
                    match Self::find_next_instruction_end(&mut src) {
                        Ok(end_index) => {
                            proof {
                                lemma_find_from(s, '}', start + 1);
                            }
                            let ghost end = end_index as int;
                            let ghost t_in = s.subrange(start, end + 1);
                            let ghost p_end = spec_pos_after(p_cur, s.subrange(cur0 + 1, end + 1));
                            proof {
                                crate::strings::lemma_pos_after_concat(
                                    p_cur,
                                    s.subrange(cur0 + 1, start + 1),
                                    s.subrange(start + 1, end + 1),
                                );
                                assert(s.subrange(cur0 + 1, start + 1) + s.subrange(
                                    start + 1,
                                    end + 1,
                                ) =~= s.subrange(cur0 + 1, end + 1));
                            }
                            let instruction_view = src.clone_ranged(start_index, end_index).unwrap();
                            proof {
                                assert(instruction_view.view.content() =~= t_in);
                            }
                            match Self::scan_instruction(instruction_view) {
                                Ok(tok) => {
                                    self.tmodel.append(tok);
                                    last_instruction_end_index = end_index as i64;
                                    proof {
                                        let ws = spec_scan_words(t_in, 0)->Ok_0;
                                        let shifted = spec_instruction_token(start, end, ws);
                                        assert(top_token_matches(tok, shifted, source.view)) by {
                                            assert forall|i: int| 0 <= i < ws.len() implies word_token_matches(
                                                #[trigger] (tok.ttype->Instruction_0).words@[i],
                                                spec_shift_word(ws[i], start),
                                                source.view,
                                            ) by {
                                                lemma_word_rebase(
                                                    (tok.ttype->Instruction_0).words@[i],
                                                    ws[i],
                                                    instruction_view.view,
                                                    source.view,
                                                    start,
                                                );
                                            }
                                        }
                                        let rem_new = spec_scan_outer(s, end, end, p_end);
                                        assert(rem_old.0 =~= (if lead_len == 1 {
                                            seq![spec_plain_token(last0 + 1, start - 1)]
                                        } else {
                                            Seq::<TopTokenSpec>::empty()
                                        }) + seq![shifted] + rem_new.0);
                                        vstd::seq_lib::lemma_seq_skip_of_skip(
                                            full.0,
                                            g_old,
                                            lead_len + 1,
                                        );
                                        assert(full.0.skip(g_old).skip(lead_len + 1)
                                            =~= rem_new.0);
                                        if lead_len == 1 {
                                            assert(full.0[g_old] == full.0.skip(g_old)[0]);
                                            assert(full.0[g_old + 1] == full.0.skip(g_old)[1]);
                                        } else {
                                            assert(full.0[g_old] == full.0.skip(g_old)[0]);
                                        }
                                    }
                                },
                                Err(err) => {
                                    proof {
                                        match spec_scan_words(t_in, 0) {
                                            Err(ie) => {
                                                lemma_inner_error_rebase(
                                                    err,
                                                    t_in,
                                                    ie,
                                                    p_end,
                                                    instruction_view.view,
                                                    source.view,
                                                    start,
                                                );
                                            },
                                            Ok(_) => {},
                                        }
                                        if lead_len == 1 {
                                            assert(full.0[g_old] == full.0.skip(g_old)[0]);
                                        }
                                    }
                                    self.state.error(err);
                                    return;
                                },
                            }
                        },
                        Err(err) => {
                            proof {
                                if lead_len == 1 {
                                    assert(full.0[g_old] == full.0.skip(g_old)[0]);
                                }
                            }
                            self.state.error(err);
                            return;
                        },
                    }
                },
            }
        }
    }
}

/// A word token collected against the instruction's own window also stands
/// against the enclosing window the instruction starts `start` into.
proof fn lemma_word_rebase(
    w: Token,
    ws: WordTokenSpec,
    inner: StringView,
    outer: StringView,
    start: int,
)
    requires
        word_token_matches(w, ws, inner),
        inner.original == outer.original,
        inner.from == outer.from + start,
    ensures
        word_token_matches(w, spec_shift_word(ws, start), outer),
{
}

/// An inner error reported against the instruction's own window also
/// stands against the enclosing window the instruction starts `start`
/// into.
proof fn lemma_inner_error_rebase(
    e: CompilationError,
    t: Seq<char>,
    ie: InnerErrSpec,
    p: SourcePosition,
    inner: StringView,
    outer: StringView,
    start: int,
)
    requires
        error_matches(e, spec_inner_error(t, ie, p, 0), inner),
        inner.original == outer.original,
        inner.from == outer.from + start,
    ensures
        error_matches(e, spec_inner_error(t, ie, p, start), outer),
{
}

// ---------------------------------------------------------------------------
// Laws of the scan model.
// ---------------------------------------------------------------------------
/// The text that a token list stands for: each token's window text, in
/// order.
pub open spec fn spec_concat_windows(s: Seq<char>, toks: Seq<TopTokenSpec>) -> Seq<char>
    decreases toks.len(),
{
    if toks.len() == 0 {
        Seq::empty()
    } else {
        s.subrange(toks[0].window.from, toks[0].window.to + 1) + spec_concat_windows(
            s,
            toks.skip(1),
        )
    }
}

proof fn lemma_concat_windows_append(s: Seq<char>, a: Seq<TopTokenSpec>, b: Seq<TopTokenSpec>)
    ensures
        spec_concat_windows(s, a + b) == spec_concat_windows(s, a) + spec_concat_windows(s, b),
    decreases a.len(),
{
    if a.len() == 0 {
        assert(a + b =~= b);
        assert(Seq::<char>::empty() + spec_concat_windows(s, b) =~= spec_concat_windows(s, b));
    } else {
        lemma_concat_windows_append(s, a.skip(1), b);
        assert((a + b).skip(1) =~= a.skip(1) + b);
        assert((a + b)[0] == a[0]);
        assert(spec_concat_windows(s, a)
            == s.subrange(a[0].window.from, a[0].window.to + 1) + spec_concat_windows(
            s,
            a.skip(1),
        ));
        assert(s.subrange(a[0].window.from, a[0].window.to + 1) + (spec_concat_windows(
            s,
            a.skip(1),
        ) + spec_concat_windows(s, b)) =~= (s.subrange(a[0].window.from, a[0].window.to + 1)
            + spec_concat_windows(s, a.skip(1))) + spec_concat_windows(s, b));
    }
}

#[verifier::spinoff_prover]
proof fn lemma_scan_covers(s: Seq<char>, cur: int, last: int, p: SourcePosition)
    requires
        -1 <= last <= cur,
        last + 1 <= s.len(),
        spec_scan_outer(s, cur, last, p).1 is None,
    ensures
        spec_concat_windows(s, spec_scan_outer(s, cur, last, p).0) == s.subrange(
            last + 1,
            s.len() as int,
        ),
        forall|i: int|
            0 <= i < spec_scan_outer(s, cur, last, p).0.len() ==> last + 1 <= (
            #[trigger] spec_scan_outer(s, cur, last, p).0[i]).window.from
                <= spec_scan_outer(s, cur, last, p).0[i].window.to < s.len(),
    decreases s.len() - cur,
{
    let outcome = spec_scan_outer(s, cur, last, p);
    match spec_find_from(s, '{', cur + 1) {
        None => {
            if s.len() > 0 && s.len() - 1 >= last + 1 {
                let tok = spec_plain_token(last + 1, s.len() - 1);
                let toks = outcome.0;
                assert(toks == seq![tok]);
                assert(toks[0] == tok);
                assert(toks.skip(1) =~= Seq::<TopTokenSpec>::empty());
                assert(spec_concat_windows(s, toks) == s.subrange(last + 1, s.len() as int)
                    + spec_concat_windows(s, toks.skip(1)));
                assert(spec_concat_windows(s, toks.skip(1)) == Seq::<char>::empty());
                assert(s.subrange(last + 1, s.len() as int) + Seq::<char>::empty()
                    =~= s.subrange(last + 1, s.len() as int));
                assert(spec_concat_windows(s, outcome.0) == s.subrange(last + 1, s.len() as int));
            } else {
                assert(s.subrange(last + 1, s.len() as int) =~= Seq::<char>::empty());
                assert(spec_concat_windows(s, outcome.0) == s.subrange(last + 1, s.len() as int));
            }
        },
        Some(start) => {
            lemma_find_from(s, '{', cur + 1);
            lemma_find_from(s, '}', start + 1);
            match spec_find_from(s, '}', start + 1) {
                None => {
                    assert(false);
                },
                Some(end) => {
                    let t = s.subrange(start, end + 1);
                    let p_end = spec_pos_after(p, s.subrange(cur + 1, end + 1));
                    match spec_scan_words(t, 0) {
                        Err(_) => {
                            assert(false);
                        },
                        Ok(ws) => {
                            let lead: Seq<TopTokenSpec> = if start > last + 1 {
                                seq![spec_plain_token(last + 1, start - 1)]
                            } else {
                                Seq::empty()
                            };
                            let instr = spec_instruction_token(start, end, ws);
                            let rest = spec_scan_outer(s, end, end, p_end);
                            lemma_scan_covers(s, end, end, p_end);
                            lemma_concat_windows_append(s, lead + seq![instr], rest.0);
                            lemma_concat_windows_append(s, lead, seq![instr]);
                            assert(outcome.0 == (lead + seq![instr]) + rest.0);
                            assert(spec_concat_windows(s, seq![instr]) == s.subrange(
                                start,
                                end + 1,
                            ) + spec_concat_windows(s, Seq::<TopTokenSpec>::empty())) by {
                                assert(seq![instr].skip(1) =~= Seq::<TopTokenSpec>::empty());
                            }
                            if start > last + 1 {
                                assert(spec_concat_windows(s, lead) == s.subrange(
                                    last + 1,
                                    start,
                                ) + spec_concat_windows(s, Seq::<TopTokenSpec>::empty())) by {
                                    assert(lead.skip(1) =~= Seq::<TopTokenSpec>::empty());
                                }
                                assert(spec_concat_windows(s, outcome.0) =~= s.subrange(
                                    last + 1,
                                    s.len() as int,
                                ));
                            } else {
                                assert(spec_concat_windows(s, lead) == Seq::<char>::empty());
                                assert(spec_concat_windows(s, outcome.0) =~= s.subrange(
                                    last + 1,
                                    s.len() as int,
                                ));
                            }
                            assert forall|i: int| 0 <= i < outcome.0.len() implies last + 1 <= (
                            #[trigger] outcome.0[i]).window.from <= outcome.0[i].window.to
                                < s.len() by {
                                let lead_len = lead.len() as int;
                                if i < lead_len {
                                    assert(outcome.0[i] == lead[0]);
                                } else if i == lead_len {
                                    assert(outcome.0[i] == instr);
                                } else {
                                    assert(outcome.0[i] == rest.0[i - lead_len - 1]);
                                }
                            }
                        },
                    }
                },
            }
        },
    }
}

/// Lossless splitting: when a fresh scan of `s` succeeds, concatenating
/// every emitted token's window text in source order reproduces `s`
/// exactly.
pub proof fn lemma_scan_lossless(s: Seq<char>, p: SourcePosition)
    requires
        spec_scan_outer(s, -1, -1, p).1 is None,
    ensures
        spec_concat_windows(s, spec_scan_outer(s, -1, -1, p).0) == s,
{
    lemma_scan_covers(s, -1, -1, p);
    assert(s.subrange(0, s.len() as int) =~= s);
}

/// The text the emitted tokens carry: each token's own window text, in
/// order.
pub open spec fn spec_concat_token_texts(toks: Seq<Token>) -> Seq<char>
    decreases toks.len(),
{
    if toks.len() == 0 {
        Seq::empty()
    } else {
        toks[0].view.content() + spec_concat_token_texts(toks.skip(1))
    }
}

proof fn lemma_concat_texts_of_matches(
    base: StringView,
    toks: Seq<Token>,
    specs: Seq<TopTokenSpec>,
)
    requires
        base.wf(),
        toks.len() == specs.len(),
        forall|i: int|
            0 <= i < toks.len() ==> top_token_matches(#[trigger] toks[i], specs[i], base),
        forall|i: int|
            0 <= i < specs.len() ==> 0 <= (#[trigger] specs[i]).window.from
                <= specs[i].window.to < base.win_len(),
    ensures
        spec_concat_token_texts(toks) == spec_concat_windows(base.content(), specs),
    decreases toks.len(),
{
    if toks.len() > 0 {
        let w = specs[0].window;
        assert(toks[0].view.content() =~= base.content().subrange(w.from, w.to + 1));
        assert forall|i: int|
            0 <= i < toks.skip(1).len() implies top_token_matches(
            #[trigger] toks.skip(1)[i],
            specs.skip(1)[i],
            base,
        ) by {
            assert(toks.skip(1)[i] == toks[i + 1]);
            assert(specs.skip(1)[i] == specs[i + 1]);
        }
        assert forall|i: int|
            0 <= i < specs.skip(1).len() implies 0 <= (#[trigger] specs.skip(
            1,
        )[i]).window.from <= specs.skip(1)[i].window.to < base.win_len() by {
            assert(specs.skip(1)[i] == specs[i + 1]);
        }
        lemma_concat_texts_of_matches(base, toks.skip(1), specs.skip(1));
    }
}

/// Lossless splitting at the token level: the tokens a successful fresh
/// scan of `base` emits carry window texts whose concatenation in source
/// order is exactly the scanned text.
pub proof fn lemma_tokens_reproduce_source(base: StringView, toks: Seq<Token>, p: SourcePosition)
    requires
        base.wf(),
        spec_scan_outer(base.content(), -1, -1, p).1 is None,
        toks.len() == spec_scan_outer(base.content(), -1, -1, p).0.len(),
        forall|i: int|
            0 <= i < toks.len() ==> top_token_matches(
                #[trigger] toks[i],
                spec_scan_outer(base.content(), -1, -1, p).0[i],
                base,
            ),
    ensures
        spec_concat_token_texts(toks) == base.content(),
{
    let s = base.content();
    lemma_scan_covers(s, -1, -1, p);
    lemma_concat_texts_of_matches(base, toks, spec_scan_outer(s, -1, -1, p).0);
    assert(s.subrange(0, s.len() as int) =~= s);
}

/// A bare word: an opening character followed by word-inner characters.
pub open spec fn is_ident_text(w: Seq<char>) -> bool {
    &&& w.len() > 0
    &&& is_word_start_char(w[0])
    &&& forall|k: int| 1 <= k < w.len() ==> is_word_inner_char(#[trigger] w[k])
}

/// A quoted literal: quotes around characters that hold no quote.
pub open spec fn is_literal_text(w: Seq<char>) -> bool {
    &&& w.len() >= 2
    &&& w[0] == '\''
    &&& w.last() == '\''
    &&& forall|k: int| 1 <= k < w.len() - 1 ==> #[trigger] w[k] != '\''
}

/// How a well-formed instruction lays its words out behind cursor `cur`:
/// each span in `spans` is one word, whitespace fills the gaps, a bare word
/// ends at a terminator, and the closing brace ends the window.
pub open spec fn spec_words_layout(t: Seq<char>, cur: int, spans: Seq<WindowSpec>) -> bool
    decreases spans.len(),
{
    if spans.len() == 0 {
        ||| (0 <= cur < t.len() && t[cur] == '}')
        ||| (cur + 1 <= t.len() - 1 && t[t.len() - 1] == '}' && forall|k: int|
            cur + 1 <= k < t.len() - 1 ==> is_space_char(#[trigger] t[k]))
    } else {
        let w = spans[0];
        &&& !(0 <= cur < t.len() && t[cur] == '}')
        &&& cur + 1 <= w.from <= w.to < t.len()
        &&& (forall|k: int| cur + 1 <= k < w.from ==> is_space_char(#[trigger] t[k]))
        &&& ({
            ||| (is_ident_text(t.subrange(w.from, w.to + 1)) && w.to + 1 < t.len()
                && is_terminator_char(t[w.to + 1]) && spec_words_layout(
                t,
                w.to + 1,
                spans.skip(1),
            ))
            ||| (is_literal_text(t.subrange(w.from, w.to + 1)) && spec_words_layout(
                t,
                w.to,
                spans.skip(1),
            ))
        })
    }
}

/// The word token a span stands for: a literal where it opens with a
/// quote, otherwise a bare word classified by the fixed tables.
pub open spec fn spec_word_of(t: Seq<char>, w: WindowSpec) -> WordTokenSpec {
    if t[w.from] == '\'' {
        spec_literal_word(w.from, w.to)
    } else {
        spec_ident_word(t, w.from, w.to)
    }
}

proof fn lemma_word_begin_skips_spaces(t: Seq<char>, i: int, j: int)
    requires
        0 <= i <= j < t.len(),
        forall|k: int| i <= k < j ==> is_space_char(#[trigger] t[k]),
    ensures
        spec_word_begin_from(t, i) == spec_word_begin_from(t, j),
    decreases j - i,
{
    if i < j {
        lemma_word_begin_skips_spaces(t, i + 1, j);
    }
}

proof fn lemma_ident_end_runs(t: Seq<char>, i: int, j: int)
    requires
        0 <= i <= j < t.len(),
        forall|k: int| i <= k < j ==> is_word_inner_char(#[trigger] t[k]),
        is_terminator_char(t[j]),
    ensures
        spec_ident_end_from(t, i) == IdentEndStep::Done(j),
    decreases j - i,
{
    if i < j {
        assert(!is_terminator_char(t[i]));
        lemma_ident_end_runs(t, i + 1, j);
    }
}

proof fn lemma_find_runs(t: Seq<char>, c: char, i: int, j: int)
    requires
        0 <= i <= j < t.len(),
        forall|k: int| i <= k < j ==> #[trigger] t[k] != c,
        t[j] == c,
    ensures
        spec_find_from(t, c, i) == Some(j),
    decreases j - i,
{
    if i < j {
        lemma_find_runs(t, c, i + 1, j);
    }
}

proof fn lemma_scan_words_of_layout(t: Seq<char>, cur: int, spans: Seq<WindowSpec>)
    requires
        0 <= cur < t.len(),
        spec_words_layout(t, cur, spans),
    ensures
        spec_scan_words(t, cur) matches Ok(ws) && ws.len() == spans.len() && forall|i: int|
            0 <= i < spans.len() ==> ws[i] == spec_word_of(t, #[trigger] spans[i]),
    decreases spans.len(),
{
    if spans.len() == 0 {
        if t[cur] == '}' {
        } else {
            if cur + 1 < t.len() - 1 || cur + 1 == t.len() - 1 {
                lemma_word_begin_skips_spaces(t, cur + 1, t.len() - 1);
            }
        }
    } else {
        let w = spans[0];
        let word = t.subrange(w.from, w.to + 1);
        if w.from > cur + 1 {
            lemma_word_begin_skips_spaces(t, cur + 1, w.from);
        }
        if is_ident_text(word) && w.to + 1 < t.len() && is_terminator_char(t[w.to + 1])
            && spec_words_layout(t, w.to + 1, spans.skip(1)) {
            assert(is_word_start_char(t[w.from])) by {
                assert(word[0] == t[w.from]);
            }
            assert(spec_word_begin_at(t, cur) == WordBeginStep::Ident(w.from));
            assert forall|k: int| w.from + 1 <= k < w.to + 1 implies is_word_inner_char(
                #[trigger] t[k],
            ) by {
                assert(word[k - w.from] == t[k]);
            }
            lemma_ident_end_runs(t, w.from + 1, w.to + 1);
            lemma_scan_words_of_layout(t, w.to + 1, spans.skip(1));
            let ws_rest = spec_scan_words(t, w.to + 1)->Ok_0;
            let ws = spec_scan_words(t, cur)->Ok_0;
            assert(ws == seq![spec_ident_word(t, w.from, w.to)] + ws_rest);
            assert(t[w.from] != '\'');
            assert forall|i: int| 0 <= i < spans.len() implies ws[i] == spec_word_of(
                t,
                #[trigger] spans[i],
            ) by {
                if i > 0 {
                    assert(spans.skip(1)[i - 1] == spans[i]);
                    assert(ws[i] == ws_rest[i - 1]);
                }
            }
        } else {
            assert(is_literal_text(word) && spec_words_layout(t, w.to, spans.skip(1)));
            assert(t[w.from] == '\'') by {
                assert(word[0] == t[w.from]);
            }
            assert(!is_space_char(t[w.from]) && !is_word_start_char(t[w.from]) && t[w.from]
                != '}');
            assert(spec_word_begin_at(t, cur) == WordBeginStep::Lit(w.from));
            assert(t[w.to] == '\'') by {
                assert(word[word.len() - 1] == t[w.to]);
            }
            assert forall|k: int| w.from + 1 <= k < w.to implies #[trigger] t[k] != '\'' by {
                assert(word[k - w.from] == t[k]);
            }
            lemma_find_runs(t, '\'', w.from + 1, w.to);
            lemma_scan_words_of_layout(t, w.to, spans.skip(1));
            let ws_rest = spec_scan_words(t, w.to)->Ok_0;
            let ws = spec_scan_words(t, cur)->Ok_0;
            assert(ws == seq![spec_literal_word(w.from, w.to)] + ws_rest);
            assert forall|i: int| 0 <= i < spans.len() implies ws[i] == spec_word_of(
                t,
                #[trigger] spans[i],
            ) by {
                if i > 0 {
                    assert(spans.skip(1)[i - 1] == spans[i]);
                    assert(ws[i] == ws_rest[i - 1]);
                }
            }
        }
    }
}

/// Word classification of a well-formed instruction: when the words of the
/// instruction window `t` lie as `spans` says, the inner scan succeeds
/// with exactly one word token per span, each bare word classified by the
/// fixed tables, whatever whitespace stands around the words.
pub proof fn lemma_instruction_words(t: Seq<char>, spans: Seq<WindowSpec>)
    requires
        t.len() >= 2,
        t[0] == '{',
        spec_words_layout(t, 0, spans),
    ensures
        spec_scan_words(t, 0) matches Ok(ws) && ws.len() == spans.len() && forall|i: int|
            0 <= i < spans.len() ==> ws[i] == spec_word_of(t, #[trigger] spans[i]),
{
    lemma_scan_words_of_layout(t, 0, spans);
}

proof fn lemma_scan_words_err_bounds(t: Seq<char>, c: int)
    requires
        0 <= c,
    ensures
        match spec_scan_words(t, c) {
            Err(InnerErrSpec::BadBegin(j)) => c < j < t.len(),
            Err(InnerErrSpec::BadInWord(j)) => c < j < t.len(),
            _ => true,
        },
    decreases t.len() - c,
{
    match spec_word_begin_at(t, c) {
        WordBeginStep::Bad(j) => {
            lemma_word_begin_from(t, c + 1);
        },
        WordBeginStep::Ident(j) => {
            if j != c {
                lemma_word_begin_from(t, c + 1);
            }
            lemma_ident_end_from(t, j + 1);
            match spec_ident_end_from(t, j + 1) {
                IdentEndStep::Done(k) => {
                    lemma_scan_words_err_bounds(t, k);
                },
                _ => {},
            }
        },
        WordBeginStep::Lit(j) => {
            if j != c {
                lemma_word_begin_from(t, c + 1);
            }
            lemma_find_from(t, '\'', j + 1);
            match spec_find_from(t, '\'', j + 1) {
                Some(k) => {
                    lemma_scan_words_err_bounds(t, k);
                },
                None => {},
            }
        },
        _ => {},
    }
}

/// Fail-fast scanning: when the scan stops with an error that names an
/// offending span, every token it emitted lies strictly before that span.
pub proof fn lemma_scan_fail_fast(s: Seq<char>, cur: int, last: int, p: SourcePosition)
    requires
        -1 <= cur,
    ensures
        ({
            let outcome = spec_scan_outer(s, cur, last, p);
            match outcome.1 {
                Some(es) => match es.window {
                    Some(w) => w.from > cur && forall|i: int|
                        0 <= i < outcome.0.len() ==> (#[trigger] outcome.0[i]).window.to
                            < w.from,
                    None => true,
                },
                None => true,
            }
        }),
    decreases s.len() - cur,
{
    let outcome = spec_scan_outer(s, cur, last, p);
    match spec_find_from(s, '{', cur + 1) {
        None => {},
        Some(start) => {
            lemma_find_from(s, '{', cur + 1);
            let lead: Seq<TopTokenSpec> = if start > last + 1 {
                seq![spec_plain_token(last + 1, start - 1)]
            } else {
                Seq::empty()
            };
            match spec_find_from(s, '}', start + 1) {
                None => {
                    assert(outcome.0 == lead);
                    assert(lead.len() == 1 ==> lead[0].window.to == start - 1);
                },
                Some(end) => {
                    lemma_find_from(s, '}', start + 1);
                    let t = s.subrange(start, end + 1);
                    let p_end = spec_pos_after(p, s.subrange(cur + 1, end + 1));
                    match spec_scan_words(t, 0) {
                        Ok(ws) => {
                            lemma_scan_fail_fast(s, end, end, p_end);
                            let rest = spec_scan_outer(s, end, end, p_end);
                            let instr = spec_instruction_token(start, end, ws);
                            assert(outcome.0 == lead + seq![instr] + rest.0);
                            match rest.1 {
                                Some(es) => match es.window {
                                    Some(w) => {
                                        assert(w.from > end);
                                        assert forall|i: int|
                                            0 <= i < outcome.0.len() implies (
                                        #[trigger] outcome.0[i]).window.to < w.from by {
                                            let lead_len = lead.len() as int;
                                            if i < lead_len {
                                                assert(outcome.0[i] == lead[0]);
                                                assert(lead[0].window.to == start - 1);
                                            } else if i == lead_len {
                                                assert(outcome.0[i] == instr);
                                            } else {
                                                assert(outcome.0[i] == rest.0[i - lead_len - 1]);
                                            }
                                        }
                                    },
                                    None => {},
                                },
                                None => {},
                            }
                        },
                        Err(ie) => {
                            lemma_scan_words_err_bounds(t, 0);
                            assert(outcome.0 == lead);
                            assert(lead.len() == 1 ==> lead[0].window.to == start - 1);
                        },
                    }
                },
            }
        },
    }
}

} // verus!
