use vstd::prelude::*;
use vstd::string::*;

verus! {

/// Reason why narrowing a window was refused.
#[derive(Clone, Copy, PartialEq, Eq, Structural, Debug)]
pub enum BoundsError {
    /// The resolved start index lies at or past the end of the buffer.
    FromOutOfRange,
    /// The resolved end index lies at or past the end of the buffer.
    ToOutOfRange,
    /// The resolved start index lies after the resolved end index.
    Inverted,
    /// The resolved end index lies outside the current window.
    OutsideWindow,
}

/// A bounds-checked, non-owning view over a span of characters in a shared
/// buffer. `from` and `to` are character indices into `original`, both
/// inclusive. An empty buffer is carried as the degenerate window
/// `from == to == 0`.
#[derive(Clone, Copy, PartialEq, Eq, Debug)]
pub struct StringView<'this> {
    pub original: &'this str,
    pub from: usize,
    pub to: usize,
}

impl<'this> StringView<'this> {
    /// The window is well formed: its bounds lie inside the buffer, or the
    /// buffer is empty and the window is the degenerate empty one.
    pub open spec fn wf(self) -> bool {
        if self.original@.len() == 0 {
            self.from == 0 && self.to == 0
        } else {
            self.from <= self.to && self.to < self.original@.len()
        }
    }

    /// The characters the window spans.
    pub open spec fn content(self) -> Seq<char> {
        if self.original@.len() == 0 {
            Seq::empty()
        } else {
            self.original@.subrange(self.from as int, self.to + 1)
        }
    }

    /// Number of characters the window spans.
    pub open spec fn win_len(self) -> int {
        self.content().len() as int
    }

    pub fn from_string(s: &'this str, from: usize, to: usize) -> (r: StringView<'this>)
        ensures
            r.original == s,
            r.from == from,
            r.to == to,
    {
        StringView { original: s, from, to }
    }

    /// Window spanning the entire buffer.
    pub fn new(s: &'this str) -> (r: StringView<'this>)
        ensures
            r.original == s,
            r.from == 0,
            r.to == if s@.len() == 0 { 0int } else { s@.len() - 1 },
            r.wf(),
            r.content() == s@,
    {
        let len = s.unicode_len();
        let r = if len == 0 {
            StringView { original: s, from: 0, to: 0 }
        } else {
            StringView { original: s, from: 0, to: len - 1 }
        };
        proof {
            assert(r.content() =~= s@);
        }
        r
    }

    /// Narrows the window to new bounds given relative to its own start.
    /// Out-of-range or inverted bounds are reported, never a panic.
    pub fn substring(&self, from: usize, to: usize) -> (r: Result<
        StringView<'this>,
        BoundsError,
    >)
        ensures
            r matches Ok(w) ==> {
                &&& self.from + from < self.original@.len()
                &&& self.from + to <= self.to
                &&& from <= to
                &&& w.original == self.original
                &&& w.from == self.from + from
                &&& w.to == self.from + to
                &&& w.wf()
            },
            r matches Err(e) ==> {
                &&& e == (if self.from + from >= self.original@.len() {
                    BoundsError::FromOutOfRange
                } else if self.from + to >= self.original@.len() {
                    BoundsError::ToOutOfRange
                } else if from > to {
                    BoundsError::Inverted
                } else {
                    BoundsError::OutsideWindow
                })
                &&& (self.from + from >= self.original@.len() || self.from + to
                    >= self.original@.len() || from > to || self.from + to > self.to)
            },
            r is Ok <==> (self.from + from < self.original@.len() && self.from + to
                < self.original@.len() && from <= to && self.from + to <= self.to),
    {
        let len = self.original.unicode_len();
        let nf_opt = self.from.checked_add(from);
        let nt_opt = self.from.checked_add(to);
        match nf_opt {
            None => Err(BoundsError::FromOutOfRange),
            Some(nf) => {
                if nf >= len {
                    Err(BoundsError::FromOutOfRange)
                } else {
                    match nt_opt {
                        None => Err(BoundsError::ToOutOfRange),
                        Some(nt) => {
                            if nt >= len {
                                Err(BoundsError::ToOutOfRange)
                            } else if nf > nt {
                                Err(BoundsError::Inverted)
                            } else if nt > self.to {
                                Err(BoundsError::OutsideWindow)
                            } else {
                                Ok(StringView { original: self.original, from: nf, to: nt })
                            }
                        },
                    }
                }
            },
        }
    }

    /// The text a diagnostic excerpt shows: up to `margin` characters of
    /// context on either side, the window itself bracketed.
    pub open spec fn excerpt(self, margin: int) -> Seq<char> {
        if self.original@.len() == 0 {
            "...[]..."@
        } else {
            let left = if self.from > margin {
                self.from - margin
            } else {
                0
            };
            let right = if self.to + margin > self.original@.len() {
                self.original@.len() as int
            } else {
                self.to + margin
            };
            "..."@ + self.original@.subrange(left, self.from as int) + "["@
                + self.original@.subrange(self.from as int, self.to + 1) + "]"@
                + self.original@.subrange(self.to + 1, right) + "..."@
        }
    }

    /// Renders the window with `margin` characters of context on either side,
    /// clamped to the buffer, as `...before[window]after...`.
    pub fn show_slice(&self, margin: usize) -> (r: String)
        requires
            self.wf(),
            margin >= 1,
        ensures
            r@ == self.excerpt(margin as int),
    {
        let len = self.original.unicode_len();
        if len == 0 {
            let r = String::from_str("...[]...");
            proof {
                reveal_strlit("...[]...");
                reveal_strlit("...");
                reveal_strlit("[");
                reveal_strlit("]");
                assert(r@ =~= self.excerpt(margin as int));
            }
            r
        } else {
            let left = if self.from > margin {
                self.from - margin
            } else {
                0
            };
            let right = match self.to.checked_add(margin) {
                None => len,
                Some(rm) => if rm > len {
                    len
                } else {
                    rm
                },
            };
            let mut r = String::from_str("...");
            r.append(self.original.substring_char(left, self.from));
            r.append("[");
            r.append(self.original.substring_char(self.from, self.to + 1));
            r.append("]");
            r.append(self.original.substring_char(self.to + 1, right));
            r.append("...");
            proof {
                assert(r@ =~= self.excerpt(margin as int));
            }
            r
        }
    }

    /// Materializes the window's text.
    pub fn cut(&'this self) -> (r: &'this str)
        requires
            self.wf(),
        ensures
            r@ == self.content(),
    {
        if self.original.unicode_len() == 0 {
            self.original
        } else {
            let r = self.original.substring_char(self.from, self.to + 1);
            proof {
                assert(r@ =~= self.content());
            }
            r
        }
    }

    /// Character at `index`, counted from the window's start, or nothing if
    /// that offset lies outside the window.
    pub fn char_at(&self, index: usize) -> (r: Option<char>)
        requires
            self.wf(),
        ensures
            r == if 0 <= index < self.win_len() {
                Some(self.content()[index as int])
            } else {
                None::<char>
            },
    {
        if self.original.unicode_len() == 0 {
            None
        } else {
            match self.from.checked_add(index) {
                None => None,
                Some(i) => {
                    if i > self.to {
                        None
                    } else {
                        Some(self.original.get_char(i))
                    }
                },
            }
        }
    }

    /// Number of characters the window spans.
    pub fn length(&self) -> (r: usize)
        requires
            self.wf(),
            self.win_len() <= usize::MAX,
        ensures
            r == self.win_len(),
    {
        if self.original.unicode_len() == 0 {
            0
        } else {
            self.to - self.from + 1
        }
    }

    /// Whether the window spans no more than a single position; the
    /// degenerate window over an empty buffer counts as empty.
    pub fn is_empty(&self) -> (r: bool)
        ensures
            r == (self.from == self.to),
    {
        self.to == self.from
    }
}

/// Compares two pieces of text character by character.
pub fn str_eq(a: &str, b: &str) -> (r: bool)
    ensures
        r == (a@ == b@),
{
    let a_len = a.unicode_len();
    let b_len = b.unicode_len();
    if a_len != b_len {
        return false;
    }
    let mut i: usize = 0;
    while i < a_len
        invariant
            0 <= i <= a_len,
            a_len == a@.len(),
            a_len == b@.len(),
            forall|j: int| 0 <= j < i ==> a@[j] == b@[j],
        decreases a_len - i,
    {
        if a.get_char(i) != b.get_char(i) {
            return false;
        }
        i = i + 1;
    }
    proof {
        assert(a@ =~= b@);
    }
    true
}

/// Relies on char::to_string: the single-character string holding `c`.
#[verifier::external_body]
pub(crate) fn char_to_string(c: char) -> (r: String)
    ensures
        r@ == seq![c],
{
    c.to_string()
}

/// The character standing for a single decimal digit.
pub open spec fn spec_decimal_digit(d: int) -> char {
    if d == 0 {
        '0'
    } else if d == 1 {
        '1'
    } else if d == 2 {
        '2'
    } else if d == 3 {
        '3'
    } else if d == 4 {
        '4'
    } else if d == 5 {
        '5'
    } else if d == 6 {
        '6'
    } else if d == 7 {
        '7'
    } else if d == 8 {
        '8'
    } else {
        '9'
    }
}

/// The decimal rendering of a non-negative number, most significant digit
/// first.
pub open spec fn spec_decimal(n: int) -> Seq<char>
    decreases n,
{
    if n < 10 {
        seq![spec_decimal_digit(n)]
    } else {
        spec_decimal(n / 10).push(spec_decimal_digit(n % 10))
    }
}

fn decimal_digit_str(d: usize) -> (r: &'static str)
    requires
        d < 10,
    ensures
        r@ == seq![spec_decimal_digit(d as int)],
{
    let r: &'static str = match d {
        0 => "0",
        1 => "1",
        2 => "2",
        3 => "3",
        4 => "4",
        5 => "5",
        6 => "6",
        7 => "7",
        8 => "8",
        _ => "9",
    };
    proof {
        reveal_strlit("0");
        reveal_strlit("1");
        reveal_strlit("2");
        reveal_strlit("3");
        reveal_strlit("4");
        reveal_strlit("5");
        reveal_strlit("6");
        reveal_strlit("7");
        reveal_strlit("8");
        reveal_strlit("9");
        assert(r@ =~= seq![spec_decimal_digit(d as int)]);
    }
    r
}

/// Renders a number in decimal.
pub fn usize_to_decimal(n: usize) -> (r: String)
    ensures
        r@ == spec_decimal(n as int),
    decreases n,
{
    if n < 10 {
        String::from_str(decimal_digit_str(n))
    } else {
        let mut r = usize_to_decimal(n / 10);
        r.append(decimal_digit_str(n % 10));
        proof {
            assert(r@ =~= spec_decimal(n as int));
        }
        r
    }
}

/// A line/column pair tracked for diagnostics while the cursor advances.
#[derive(Clone, Copy, PartialEq, Eq, Structural, Debug)]
pub struct SourcePosition {
    pub column: usize,
    pub line: usize,
}

/// How one character moves a position: a newline opens the next line, any
/// other character advances the column. A count already at the machine
/// limit stays there.
pub open spec fn spec_move_pos(p: SourcePosition, c: char) -> SourcePosition {
    if c == '\n' {
        SourcePosition {
            line: if p.line < usize::MAX {
                (p.line + 1) as usize
            } else {
                p.line
            },
            column: 0,
        }
    } else {
        SourcePosition {
            line: p.line,
            column: if p.column < usize::MAX {
                (p.column + 1) as usize
            } else {
                p.column
            },
        }
    }
}

/// The position after advancing over every character of `s` in order.
pub open spec fn spec_pos_after(p: SourcePosition, s: Seq<char>) -> SourcePosition
    decreases s.len(),
{
    if s.len() == 0 {
        p
    } else {
        spec_move_pos(spec_pos_after(p, s.drop_last()), s.last())
    }
}

/// Advancing over two pieces one after the other lands where advancing
/// over their concatenation does.
pub proof fn lemma_pos_after_concat(p: SourcePosition, a: Seq<char>, b: Seq<char>)
    ensures
        spec_pos_after(p, a + b) == spec_pos_after(spec_pos_after(p, a), b),
    decreases b.len(),
{
    if b.len() == 0 {
        assert(a + b =~= a);
    } else {
        lemma_pos_after_concat(p, a, b.drop_last());
        assert((a + b).drop_last() =~= a + b.drop_last());
        assert((a + b).last() == b.last());
    }
}

/// Advancing over one more character moves the position once more.
pub proof fn lemma_pos_after_push(p: SourcePosition, s: Seq<char>, c: char)
    ensures
        spec_pos_after(p, s.push(c)) == spec_move_pos(spec_pos_after(p, s), c),
{
    assert(s.push(c).drop_last() =~= s);
    assert(s.push(c).last() == c);
}

/// Extending a slice of `s` by the character at its end.
pub proof fn lemma_subrange_push(s: Seq<char>, a: int, b: int)
    requires
        0 <= a <= b < s.len(),
    ensures
        s.subrange(a, b + 1) == s.subrange(a, b).push(s[b]),
{
    assert(s.subrange(a, b + 1) =~= s.subrange(a, b).push(s[b]));
}

impl SourcePosition {
    pub fn move_pos(&mut self, c: char)
        ensures
            *final(self) == spec_move_pos(*old(self), c),
    {
        match c {
            '\n' => {
                if self.line < usize::MAX {
                    self.line = self.line + 1;
                }
                self.column = 0;
            },
            _ => {
                if self.column < usize::MAX {
                    self.column = self.column + 1;
                }
            },
        }
    }
}

/// A window with a scanning position: an integer cursor that starts one
/// step before the window's first character, a diagnostic line/column
/// tracker that advances in lockstep, and an end-of-input flag.
pub struct SourceView<'t> {
    pub view: StringView<'t>,
    pub position: SourcePosition,
    pub cursor: i64,
    pub reached_end: bool,
}

impl<'t> SourceView<'t> {
    /// Whether advancing has run past the window's last character.
    pub open spec fn exhausted(self) -> bool {
        self.reached_end
    }

    /// The cursor stands between one step before the window and one step
    /// past it, and before exhaustion it has not yet left the window.
    pub open spec fn wf(self) -> bool {
        &&& self.view.wf()
        &&& self.view.win_len() <= i64::MAX
        &&& self.view.win_len() <= usize::MAX
        &&& -1 <= self.cursor <= self.view.win_len()
        &&& (!self.exhausted() ==> self.cursor < self.view.win_len())
    }

    /// Fresh cursor over the whole of `source`, standing before its first
    /// character.
    pub fn from_string(source: &'t str) -> (r: SourceView<'t>)
        requires
            source@.len() <= i64::MAX,
            source@.len() <= usize::MAX,
        ensures
            r.view.original == source,
            r.view.from == 0,
            r.view.content() == source@,
            r.cursor == -1,
            r.position == (SourcePosition { column: 0, line: 0 }),
            !r.exhausted(),
            r.wf(),
    {
        SourceView {
            cursor: -1,
            position: SourcePosition { column: 0, line: 0 },
            view: StringView::new(source),
            reached_end: false,
        }
    }

    /// Fresh cursor over a narrowed sub-window of the same buffer, starting
    /// before its first character and inheriting the current diagnostic
    /// position as a starting hint. Bad bounds are reported, never a panic.
    pub fn clone_ranged(&self, begin: usize, end: usize) -> (r: Result<
        SourceView<'t>,
        BoundsError,
    >)
        requires
            self.wf(),
        ensures
            r is Ok <==> (self.view.from + begin < self.view.original@.len() && self.view.from
                + end < self.view.original@.len() && begin <= end && self.view.from + end
                <= self.view.to),
            r matches Ok(sv) ==> {
                &&& sv.view.original == self.view.original
                &&& sv.view.from == self.view.from + begin
                &&& sv.view.to == self.view.from + end
                &&& sv.cursor == -1
                &&& sv.position == self.position
                &&& !sv.exhausted()
                &&& sv.wf()
            },
    {
        match self.view.substring(begin, end) {
            Ok(subview) => Ok(
                SourceView {
                    cursor: -1,
                    position: self.position,
                    view: subview,
                    reached_end: false,
                },
            ),
            Err(e) => Err(e),
        }
    }

    /// Renders an excerpt of a sub-range of the window with five characters
    /// of context. Bad bounds are reported, never a panic.
    pub fn show_part(&self, from: usize, to: usize) -> (r: Result<String, BoundsError>)
        requires
            self.wf(),
        ensures
            r is Ok <==> (self.view.from + from < self.view.original@.len() && self.view.from
                + to < self.view.original@.len() && from <= to && self.view.from + to
                <= self.view.to),
            r matches Ok(s) ==> s@ == (StringView {
                original: self.view.original,
                from: (self.view.from + from) as usize,
                to: (self.view.from + to) as usize,
            }).excerpt(5),
    {
        match self.view.substring(from, to) {
            Ok(subview) => Ok(subview.show_slice(5)),
            Err(e) => Err(e),
        }
    }

    /// Character under the cursor, or nothing while the cursor stands
    /// before the window or past its last character.
    pub fn current(&self) -> (r: Option<char>)
        requires
            self.wf(),
        ensures
            r == if 0 <= self.cursor < self.view.win_len() {
                Some(self.view.content()[self.cursor as int])
            } else {
                None::<char>
            },
    {
        if self.cursor < 0 {
            None
        } else {
            self.view.char_at(self.cursor as usize)
        }
    }

    /// Returns the cursor to one step before the window's first character.
    pub fn reset(&mut self)
        ensures
            final(self).cursor == -1,
            !final(self).exhausted(),
            final(self).view == old(self).view,
            final(self).position == old(self).position,
            old(self).wf() ==> final(self).wf(),
    {
        self.cursor = -1;
        self.reached_end = false;
    }

    /// Moves the cursor one character forward and returns that character,
    /// advancing the diagnostic position in lockstep. Once the window is
    /// exhausted the cursor stays put and every further call reports
    /// end of input.
    pub fn next(&mut self) -> (r: Option<char>)
        requires
            old(self).wf(),
        ensures
            final(self).view == old(self).view,
            final(self).wf(),
            old(self).exhausted() ==> {
                &&& r is None
                &&& final(self).cursor == old(self).cursor
                &&& final(self).position == old(self).position
                &&& final(self).exhausted()
            },
            !old(self).exhausted() && old(self).cursor + 1 < old(self).view.win_len() ==> {
                &&& r == Some(old(self).view.content()[old(self).cursor + 1])
                &&& final(self).cursor == old(self).cursor + 1
                &&& final(self).position == spec_move_pos(
                    old(self).position,
                    old(self).view.content()[old(self).cursor + 1],
                )
                &&& !final(self).exhausted()
            },
            !old(self).exhausted() && old(self).cursor + 1 == old(self).view.win_len() ==> {
                &&& r is None
                &&& final(self).cursor == old(self).cursor + 1
                &&& final(self).position == old(self).position
                &&& final(self).exhausted()
            },
    {
        if self.reached_end {
            return None;
        }
        self.cursor = self.cursor + 1;
        match self.view.char_at(self.cursor as usize) {
            Some(c) => {
                self.position.move_pos(c);
                Some(c)
            },
            None => {
                self.reached_end = true;
                None
            },
        }
    }
}

} // verus!
