//! The interaction state machine: scrollback log, compose buffer, cursor
//! and mode, driven by inbound events and keystrokes.
//!
//! Row 0 is the topmost screen row; the bottom row is the compose row; the
//! rows just above it show the most recent scrollback entries, oldest at
//! the top. The cursor invariant: the row stays between the first message
//! row and the compose row, and the column never passes the end of the
//! addressed line.
//!
//! Columns deliberately count characters of the addressed line, not
//! grapheme clusters: character counts are statable over string views, so
//! every edit and clamp here is proved exactly, while a cluster count is
//! an opaque function of the text (see `Privmsg::message_line_len`, which
//! still measures a rendered line in clusters). On ASCII traffic the two
//! measures agree; over combining sequences a motion may stop inside a
//! cluster.

use vstd::prelude::*;
use vstd::string::*;

use crate::message::Privmsg;
use crate::parse::find_from;
use crate::parse::IRCCommand;
use crate::parse::IRCMessage;
use crate::parse::Tags;

verus! {

/// The editor's mode: the two pending modes await the second key of a
/// two-key operator and revert to Normal after exactly one further key,
/// success or not.
#[derive(Debug, PartialEq, Eq)]
pub enum Mode {
    Normal,
    Insert,
    YankPending,
    DeletePending,
}

/// Where the caret stands; `row` 0 is the topmost screen row.
#[derive(Debug, PartialEq, Eq)]
pub struct CursorPos {
    pub row: u16,
    pub column: usize,
}

/// How many scrollback entries are visible on a screen of `rows` rows: all
/// of them, up to the rows above the compose row.
pub open spec fn visible_count(n: int, rows: int) -> int {
    if n <= rows - 1 {
        n
    } else {
        rows - 1
    }
}

/// The screen row of the oldest visible entry; the compose row when
/// nothing is visible.
pub open spec fn first_message_row(n: int, rows: int) -> int {
    rows - 1 - visible_count(n, rows)
}

/// The whole view: pure data, mutated only through the methods here.
pub struct ViewState {
    pub mode: Mode,
    pub cursor: CursorPos,
    pub compose: Vec<char>,
    pub scrollback: Vec<Privmsg>,
    pub self_tags: Option<Tags>,
}

impl ViewState {
    /// The scrollback entry shown on screen row `row`.
    pub open spec fn entry_index(&self, rows: int, row: int) -> int {
        self.scrollback@.len() + row - (rows - 1)
    }

    /// The length of the line addressed by screen row `row`: the compose
    /// buffer on the compose row, the rendered entry line elsewhere.
    pub open spec fn line_len_at(&self, rows: int, row: int) -> int {
        if row == rows - 1 {
            self.compose@.len() as int
        } else {
            self.scrollback@[self.entry_index(rows, row)].spec_line().len() as int
        }
    }

    /// Every entry's (and the remembered self tags') tag block is well
    /// formed.
    pub open spec fn entries_wf(&self) -> bool {
        &&& (forall|i: int|
            0 <= i < self.scrollback@.len() ==> (#[trigger] self.scrollback@[i]).wf())
        &&& match self.self_tags {
            Some(t) => t.wf(),
            None => true,
        }
    }

    /// The cursor invariant on a screen of `rows` rows.
    pub open spec fn cursor_ok(&self, rows: int) -> bool {
        &&& first_message_row(self.scrollback@.len() as int, rows) <= self.cursor.row < rows
        &&& self.cursor.column <= self.line_len_at(rows, self.cursor.row as int)
        &&& (self.mode is Insert ==> self.cursor.row == rows - 1)
    }

    /// The whole view is well formed for a screen of `rows` rows.
    pub open spec fn wf(&self, rows: int) -> bool {
        &&& self.entries_wf()
        &&& rows >= 1
        &&& self.cursor_ok(rows)
    }

    /// Everything but the cursor is unchanged.
    pub open spec fn same_except_cursor(self, other: ViewState) -> bool {
        &&& other.mode == self.mode
        &&& other.compose == self.compose
        &&& other.scrollback == self.scrollback
        &&& other.self_tags == self.self_tags
    }

    /// A fresh view: Normal mode, empty log and compose buffer, caret at
    /// the start of the compose row.
    pub fn new(rows: u16) -> (st: ViewState)
        requires
            rows >= 1,
        ensures
            st.wf(rows as int),
            st.mode is Normal,
            st.cursor.row == rows - 1,
            st.cursor.column == 0,
            st.compose@ == Seq::<char>::empty(),
            st.scrollback@ == Seq::<Privmsg>::empty(),
            st.self_tags is None,
    {
        let st = ViewState {
            mode: Mode::Normal,
            cursor: CursorPos { row: rows - 1, column: 0 },
            compose: Vec::new(),
            scrollback: Vec::new(),
            self_tags: None,
        };
        proof {
            assert(st.compose@ =~= Seq::<char>::empty());
            assert(st.scrollback@ =~= Seq::<Privmsg>::empty());
        }
        st
    }

    /// The first message row, as executable code.
    fn first_row_exec(&self, rows: u16) -> (r: u16)
        requires
            rows >= 1,
        ensures
            r as int == first_message_row(self.scrollback@.len() as int, rows as int),
    {
        let n = self.scrollback.len();
        let cap = (rows - 1) as usize;
        let vc = if n < cap {
            n
        } else {
            cap
        };
        rows - 1 - (vc as u16)
    }

    /// The length of the line addressed by `row`, as executable code.
    fn line_len(&self, rows: u16, row: u16) -> (l: usize)
        requires
            self.entries_wf(),
            rows >= 1,
            first_message_row(self.scrollback@.len() as int, rows as int) <= row < rows,
        ensures
            l as int == self.line_len_at(rows as int, row as int),
    {
        if row == rows - 1 {
            self.compose.len()
        } else {
            let back = (rows - 1 - row) as usize;
            let idx = self.scrollback.len() - back;
            let line = self.scrollback[idx].message_line();
            line.as_str().unicode_len()
        }
    }

    /// Moves the cursor back inside the screen after a resize (and, in
    /// Insert mode, back to the compose row), then reclamps the column.
    pub fn clamp_cursor(&mut self, rows: u16)
        requires
            old(self).entries_wf(),
            rows >= 1,
        ensures
            final(self).wf(rows as int),
            old(self).same_except_cursor(*final(self)),
            final(self).cursor.row as int == ({
                let fr = first_message_row(old(self).scrollback@.len() as int, rows as int);
                if old(self).mode is Insert {
                    rows - 1 as int
                } else if (old(self).cursor.row as int) < fr {
                    fr
                } else if old(self).cursor.row as int > rows - 1 {
                    rows - 1 as int
                } else {
                    old(self).cursor.row as int
                }
            }),
            final(self).cursor.column as int == ({
                let ll = old(self).line_len_at(rows as int, final(self).cursor.row as int);
                if old(self).cursor.column <= ll {
                    old(self).cursor.column as int
                } else {
                    ll
                }
            }),
    {
        let fr = self.first_row_exec(rows);
        if matches!(self.mode, Mode::Insert) {
            self.cursor.row = rows - 1;
        } else if self.cursor.row < fr {
            self.cursor.row = fr;
        } else if self.cursor.row > rows - 1 {
            self.cursor.row = rows - 1;
        }
        let ll = self.line_len(rows, self.cursor.row);
        if self.cursor.column > ll {
            self.cursor.column = ll;
        }
    }

    /// Appends one entry to the scrollback log (append-only: nothing else
    /// ever changes it) and reclamps the column, since the line shown at
    /// the cursor row may have shifted.
    pub fn append_entry(&mut self, entry: Privmsg, rows: u16)
        requires
            old(self).wf(rows as int),
            entry.wf(),
        ensures
            final(self).wf(rows as int),
            final(self).scrollback@ == old(self).scrollback@.push(entry),
            final(self).mode == old(self).mode,
            final(self).compose == old(self).compose,
            final(self).self_tags == old(self).self_tags,
            final(self).cursor.row == old(self).cursor.row,
            final(self).cursor.column == if old(self).cursor.column <= final(self).line_len_at(
                rows as int,
                old(self).cursor.row as int,
            ) {
                old(self).cursor.column as int
            } else {
                final(self).line_len_at(rows as int, old(self).cursor.row as int)
            },
    {
        self.scrollback.push(entry);
        proof {
            assert forall|i: int| 0 <= i < self.scrollback@.len() implies (
            #[trigger] self.scrollback@[i]).wf() by {
                if i < self.scrollback@.len() - 1 {
                    assert(self.scrollback@[i] == old(self).scrollback@[i]);
                }
            }
        }
        let ll = self.line_len(rows, self.cursor.row);
        if self.cursor.column > ll {
            self.cursor.column = ll;
        }
    }

    /// Applies one inbound protocol event: a chat message becomes one
    /// appended entry; a global user state updates the remembered self
    /// tags; everything else is ignored. A tag block that is not well
    /// formed (impossible for blocks built by the parser) is replaced by
    /// the empty one.
    pub fn handle_event(&mut self, msg: IRCMessage, rows: u16)
        requires
            old(self).wf(rows as int),
        ensures
            final(self).wf(rows as int),
            final(self).mode == old(self).mode,
            final(self).compose == old(self).compose,
            match msg.command {
                IRCCommand::Privmsg { channel, message } => {
                    &&& final(self).scrollback@.len() == old(self).scrollback@.len() + 1
                    &&& final(self).scrollback@.subrange(0, old(self).scrollback@.len() as int)
                        == old(self).scrollback@
                    &&& final(self).scrollback@.last().channel == channel
                    &&& final(self).scrollback@.last().message == message
                    &&& final(self).scrollback@.last().prefix == msg.prefix
                    &&& (msg.tags.wf() ==> final(self).scrollback@.last().tags@ == msg.tags@)
                    &&& final(self).self_tags == old(self).self_tags
                    &&& final(self).cursor.row == old(self).cursor.row
                    &&& final(self).cursor.column == ({
                        let ll = final(self).line_len_at(rows as int, old(self).cursor.row as int);
                        if old(self).cursor.column <= ll {
                            old(self).cursor.column as int
                        } else {
                            ll
                        }
                    })
                },
                IRCCommand::GlobalUserState => {
                    &&& final(self).scrollback == old(self).scrollback
                    &&& final(self).cursor == old(self).cursor
                    &&& final(self).self_tags matches Some(t) && (msg.tags.wf() ==> t@
                        == msg.tags@)
                },
                _ => *final(self) == *old(self),
            },
    {
        let IRCMessage { tags, prefix, command } = msg;
        match command {
            IRCCommand::Privmsg { channel, message } => {
                let tags = if tags.is_wf() {
                    tags
                } else {
                    Tags::new()
                };
                let entry = Privmsg { tags, prefix, channel, message };
                self.append_entry(entry, rows);
                proof {
                    assert(self.scrollback@.subrange(0, old(self).scrollback@.len() as int)
                        =~= old(self).scrollback@);
                }
            },
            IRCCommand::GlobalUserState => {
                let tags = if tags.is_wf() {
                    tags
                } else {
                    Tags::new()
                };
                self.self_tags = Some(tags);
            },
            _ => {},
        }
    }

    /// The render projection: the first message row and the rendered lines
    /// of the visible tail of the scrollback, oldest first. On a screen of
    /// `rows` rows, exactly `min(n, rows - 1)` most recent entries show.
    pub fn render_plan(&self, rows: u16) -> (r: (u16, Vec<String>))
        requires
            self.entries_wf(),
            rows >= 1,
        ensures
            ({
                let n = self.scrollback@.len() as int;
                let vc = visible_count(n, rows as int);
                &&& r.0 as int == first_message_row(n, rows as int)
                &&& r.1@.len() == vc
                &&& forall|i: int|
                    0 <= i < vc ==> (#[trigger] r.1@[i])@ == self.scrollback@[n - vc
                        + i].spec_line()
            }),
    {
        let n = self.scrollback.len();
        let cap = (rows - 1) as usize;
        let vc = if n < cap {
            n
        } else {
            cap
        };
        let first = rows - 1 - (vc as u16);
        let mut lines: Vec<String> = Vec::new();
        let mut i: usize = 0;
        while i < vc
            invariant
                0 <= i <= vc,
                vc <= n == self.scrollback@.len(),
                self.entries_wf(),
                lines@.len() == i,
                forall|j: int|
                    0 <= j < i ==> (#[trigger] lines@[j])@ == self.scrollback@[n - vc
                        + j].spec_line(),
            decreases vc - i,
        {
            let line = self.scrollback[n - vc + i].message_line();
            lines.push(line);
            i = i + 1;
        }
        (first, lines)
    }
}

/// Last index `i < bound` with `s[i] == c`, if any.
pub open spec fn rfind_before(s: Seq<char>, bound: int, c: char) -> Option<int>
    decreases bound,
{
    if bound <= 0 || bound > s.len() {
        None::<int>
    } else if s[bound - 1] == c {
        Some(bound - 1)
    } else {
        rfind_before(s, bound - 1, c)
    }
}

/// First space at or after `from`, as executable code.
fn chars_find_space(v: &Vec<char>, from: usize) -> (r: Option<usize>)
    requires
        from <= v@.len(),
    ensures
        match r {
            Some(i) => find_from(v@, from as int, ' ') == Some(i as int),
            None => find_from(v@, from as int, ' ') is None,
        },
{
    let n = v.len();
    let mut i = from;
    while i < n
        invariant
            from <= i <= n,
            n == v@.len(),
            find_from(v@, from as int, ' ') == find_from(v@, i as int, ' '),
        decreases n - i,
    {
        if v[i] == ' ' {
            return Some(i);
        }
        i = i + 1;
    }
    None
}

/// Last space before `bound`, as executable code.
fn chars_rfind_space(v: &Vec<char>, bound: usize) -> (r: Option<usize>)
    requires
        bound <= v@.len(),
    ensures
        match r {
            Some(i) => rfind_before(v@, bound as int, ' ') == Some(i as int),
            None => rfind_before(v@, bound as int, ' ') is None,
        },
{
    let mut b = bound;
    while b > 0
        invariant
            b <= bound <= v@.len(),
            rfind_before(v@, bound as int, ' ') == rfind_before(v@, b as int, ' '),
        decreases b,
    {
        if v[b - 1] == ' ' {
            return Some(b - 1);
        }
        b = b - 1;
    }
    None
}

/// The characters of a string slice, one vector element each.
fn chars_vec(s: &str) -> (v: Vec<char>)
    ensures
        v@ == s@,
{
    let n = s.unicode_len();
    let mut v: Vec<char> = Vec::new();
    let mut i: usize = 0;
    while i < n
        invariant
            0 <= i <= n,
            n == s@.len(),
            v@ =~= s@.subrange(0, i as int),
        decreases n - i,
    {
        v.push(s.get_char(i));
        i = i + 1;
    }
    proof {
        assert(v@ =~= s@);
    }
    v
}

/// Relies on std String::push: appends one character to the string.
#[verifier::external_body]
fn push_char(s: &mut String, c: char)
    ensures
        final(s)@ == old(s)@.push(c),
{
    s.push(c);
}

/// The string holding exactly the given characters.
fn string_from_chars(v: &Vec<char>) -> (s: String)
    ensures
        s@ == v@,
{
    let n = v.len();
    let mut s = String::new();
    let mut i: usize = 0;
    while i < n
        invariant
            0 <= i <= n,
            n == v@.len(),
            s@ =~= v@.subrange(0, i as int),
        decreases n - i,
    {
        push_char(&mut s, v[i]);
        i = i + 1;
    }
    proof {
        assert(s@ =~= v@);
    }
    s
}

impl ViewState {
    /// The text of the line addressed by screen row `row`.
    pub open spec fn line_at(&self, rows: int, row: int) -> Seq<char> {
        if row == rows - 1 {
            self.compose@
        } else {
            self.scrollback@[self.entry_index(rows, row)].spec_line()
        }
    }

    /// The addressed line, as a character vector.
    fn current_line_chars(&self, rows: u16) -> (v: Vec<char>)
        requires
            self.wf(rows as int),
        ensures
            v@ == self.line_at(rows as int, self.cursor.row as int),
    {
        if self.cursor.row == rows - 1 {
            let n = self.compose.len();
            let mut v: Vec<char> = Vec::new();
            let mut i: usize = 0;
            while i < n
                invariant
                    0 <= i <= n,
                    n == self.compose@.len(),
                    v@ =~= self.compose@.subrange(0, i as int),
                decreases n - i,
            {
                v.push(self.compose[i]);
                i = i + 1;
            }
            proof {
                assert(v@ =~= self.compose@);
            }
            v
        } else {
            let back = (rows - 1 - self.cursor.row) as usize;
            let idx = self.scrollback.len() - back;
            let line = self.scrollback[idx].message_line();
            chars_vec(line.as_str())
        }
    }

    /// `h`: one column left, clamped at the start of the line.
    pub fn motion_left(&mut self, rows: u16)
        requires
            old(self).wf(rows as int),
        ensures
            final(self).wf(rows as int),
            old(self).same_except_cursor(*final(self)),
            final(self).cursor.row == old(self).cursor.row,
            final(self).cursor.column == if old(self).cursor.column > 0 {
                old(self).cursor.column - 1
            } else {
                0
            },
    {
        if self.cursor.column > 0 {
            self.cursor.column = self.cursor.column - 1;
        }
    }

    /// `l`: one column right, clamped at the end of the line; at the end of
    /// a scrollback line it advances to the next row only when the
    /// addressed entry is not already the last one.
    pub fn motion_right(&mut self, rows: u16)
        requires
            old(self).wf(rows as int),
        ensures
            final(self).wf(rows as int),
            old(self).same_except_cursor(*final(self)),
            ({
                let row = old(self).cursor.row as int;
                let col = old(self).cursor.column as int;
                let ll = old(self).line_len_at(rows as int, row);
                if col < ll {
                    final(self).cursor.row as int == row && final(self).cursor.column as int == col
                        + 1
                } else if row < rows - 2 {
                    final(self).cursor.row as int == row + 1 && final(self).cursor.column == 0
                } else {
                    final(self).cursor == old(self).cursor
                }
            }),
    {
        if self.cursor.row == rows - 1 {
            if self.cursor.column < self.compose.len() {
                self.cursor.column = self.cursor.column + 1;
            }
        } else {
            let ll = self.line_len(rows, self.cursor.row);
            if self.cursor.column < ll {
                self.cursor.column = self.cursor.column + 1;
            } else if self.cursor.row < rows - 2 {
                self.cursor.row = self.cursor.row + 1;
                self.cursor.column = 0;
            }
        }
    }

    /// `j`: one row down, clamped at the compose row; the column reclamps
    /// to the new line's length.
    pub fn motion_down(&mut self, rows: u16)
        requires
            old(self).wf(rows as int),
        ensures
            final(self).wf(rows as int),
            old(self).same_except_cursor(*final(self)),
            ({
                let nr = if (old(self).cursor.row as int) < rows - 1 {
                    old(self).cursor.row + 1 as int
                } else {
                    old(self).cursor.row as int
                };
                let ll = old(self).line_len_at(rows as int, nr);
                final(self).cursor.row as int == nr && final(self).cursor.column as int == if old(
                    self,
                ).cursor.column <= ll {
                    old(self).cursor.column as int
                } else {
                    ll
                }
            }),
    {
        if self.cursor.row < rows - 1 {
            self.cursor.row = self.cursor.row + 1;
        }
        let ll = self.line_len(rows, self.cursor.row);
        if self.cursor.column > ll {
            self.cursor.column = ll;
        }
    }

    /// `k`: one row up, clamped at the first message row; the column
    /// reclamps to the new line's length.
    pub fn motion_up(&mut self, rows: u16)
        requires
            old(self).wf(rows as int),
            old(self).mode is Normal,
        ensures
            final(self).wf(rows as int),
            old(self).same_except_cursor(*final(self)),
            ({
                let fr = first_message_row(old(self).scrollback@.len() as int, rows as int);
                let nr = if (old(self).cursor.row as int) > fr {
                    old(self).cursor.row - 1 as int
                } else {
                    old(self).cursor.row as int
                };
                let ll = old(self).line_len_at(rows as int, nr);
                final(self).cursor.row as int == nr && final(self).cursor.column as int == if old(
                    self,
                ).cursor.column <= ll {
                    old(self).cursor.column as int
                } else {
                    ll
                }
            }),
    {
        let fr = self.first_row_exec(rows);
        if self.cursor.row > fr {
            self.cursor.row = self.cursor.row - 1;
        }
        let ll = self.line_len(rows, self.cursor.row);
        if self.cursor.column > ll {
            self.cursor.column = ll;
        }
    }

    /// `^`: to the start of the line.
    pub fn line_start(&mut self, rows: u16)
        requires
            old(self).wf(rows as int),
        ensures
            final(self).wf(rows as int),
            old(self).same_except_cursor(*final(self)),
            final(self).cursor.row == old(self).cursor.row,
            final(self).cursor.column == 0,
    {
        self.cursor.column = 0;
    }

    /// `$`: to the end of the line.
    pub fn line_end(&mut self, rows: u16)
        requires
            old(self).wf(rows as int),
        ensures
            final(self).wf(rows as int),
            old(self).same_except_cursor(*final(self)),
            final(self).cursor.row == old(self).cursor.row,
            final(self).cursor.column as int == old(self).line_len_at(
                rows as int,
                old(self).cursor.row as int,
            ),
    {
        let ll = self.line_len(rows, self.cursor.row);
        self.cursor.column = ll;
    }

    /// `w`: to the start of the next whitespace-delimited word on the
    /// current line; clamped at the end of the line.
    pub fn word_forward(&mut self, rows: u16)
        requires
            old(self).wf(rows as int),
        ensures
            final(self).wf(rows as int),
            old(self).same_except_cursor(*final(self)),
            final(self).cursor.row == old(self).cursor.row,
            ({
                let line = old(self).line_at(rows as int, old(self).cursor.row as int);
                let col = old(self).cursor.column as int;
                final(self).cursor.column as int == if col < line.len() {
                    match find_from(line, col + 1, ' ') {
                        Some(sp) => sp + 1,
                        None => line.len() as int,
                    }
                } else {
                    col
                }
            }),
    {
        let ll = self.line_len(rows, self.cursor.row);
        if self.cursor.column >= ll {
            return ;
        }
        let line = self.current_line_chars(rows);
        proof {
            crate::parse::lemma_find_from(line@, self.cursor.column + 1, ' ');
        }
        match chars_find_space(&line, self.cursor.column + 1) {
            Some(sp) => {
                self.cursor.column = sp + 1;
            },
            None => {
                self.cursor.column = ll;
            },
        }
    }

    /// `b`: to the start of the previous whitespace-delimited word on the
    /// current line; clamped at the start of the line.
    pub fn word_back(&mut self, rows: u16)
        requires
            old(self).wf(rows as int),
        ensures
            final(self).wf(rows as int),
            old(self).same_except_cursor(*final(self)),
            final(self).cursor.row == old(self).cursor.row,
            ({
                let line = old(self).line_at(rows as int, old(self).cursor.row as int);
                let bound = if old(self).cursor.column > 0 {
                    old(self).cursor.column - 1 as int
                } else {
                    0
                };
                final(self).cursor.column as int == match rfind_before(line, bound, ' ') {
                    Some(i) => i + 1,
                    None => 0,
                }
            }),
    {
        let bound = if self.cursor.column > 0 {
            self.cursor.column - 1
        } else {
            0
        };
        let line = self.current_line_chars(rows);
        proof {
            lemma_rfind_before(line@, bound as int, ' ');
        }
        match chars_rfind_space(&line, bound) {
            Some(i) => {
                self.cursor.column = i + 1;
            },
            None => {
                self.cursor.column = 0;
            },
        }
    }

    /// `i`: enter Insert mode at the compose row; coming from elsewhere,
    /// the caret lands at the end of the compose buffer.
    pub fn enter_insert(&mut self, rows: u16)
        requires
            old(self).wf(rows as int),
        ensures
            final(self).wf(rows as int),
            final(self).mode is Insert,
            final(self).compose == old(self).compose,
            final(self).scrollback == old(self).scrollback,
            final(self).self_tags == old(self).self_tags,
            final(self).cursor.row == rows - 1,
            final(self).cursor.column as int == if (old(self).cursor.row as int) < rows - 1 {
                old(self).compose@.len() as int
            } else {
                old(self).cursor.column as int
            },
    {
        self.mode = Mode::Insert;
        if self.cursor.row < rows - 1 {
            self.cursor.row = rows - 1;
            self.cursor.column = self.compose.len();
        }
    }

    /// `Esc`: back to Normal mode from any mode, no other effect.
    pub fn escape(&mut self, rows: u16)
        requires
            old(self).wf(rows as int),
        ensures
            final(self).wf(rows as int),
            final(self).mode is Normal,
            final(self).cursor == old(self).cursor,
            final(self).compose == old(self).compose,
            final(self).scrollback == old(self).scrollback,
            final(self).self_tags == old(self).self_tags,
    {
        self.mode = Mode::Normal;
    }

    /// `y`: await the second key of the yank operator.
    pub fn begin_yank(&mut self, rows: u16)
        requires
            old(self).wf(rows as int),
            old(self).mode is Normal,
        ensures
            final(self).wf(rows as int),
            final(self).mode is YankPending,
            final(self).cursor == old(self).cursor,
            final(self).compose == old(self).compose,
            final(self).scrollback == old(self).scrollback,
            final(self).self_tags == old(self).self_tags,
    {
        self.mode = Mode::YankPending;
    }

    /// `d`: await the second key of the delete operator.
    pub fn begin_delete(&mut self, rows: u16)
        requires
            old(self).wf(rows as int),
            old(self).mode is Normal,
        ensures
            final(self).wf(rows as int),
            final(self).mode is DeletePending,
            final(self).cursor == old(self).cursor,
            final(self).compose == old(self).compose,
            final(self).scrollback == old(self).scrollback,
            final(self).self_tags == old(self).self_tags,
    {
        self.mode = Mode::DeletePending;
    }

    /// `yy`: the text to copy — the addressed entry's message text on a
    /// scrollback row, nothing on the compose row.
    pub fn yank_line(&self, rows: u16) -> (r: Option<String>)
        requires
            self.wf(rows as int),
        ensures
            match r {
                Some(t) => (self.cursor.row as int) < rows - 1 && t@ == self.scrollback@[self.entry_index(
                    rows as int,
                    self.cursor.row as int,
                )].message@,
                None => self.cursor.row as int == rows - 1,
            },
    {
        if self.cursor.row < rows - 1 {
            let back = (rows - 1 - self.cursor.row) as usize;
            let idx = self.scrollback.len() - back;
            Some(self.scrollback[idx].message.clone())
        } else {
            None
        }
    }

    /// `dd`: on the compose row, clears the compose buffer, resets the
    /// column, and yields the prior contents for the clipboard; elsewhere
    /// nothing happens.
    pub fn delete_compose(&mut self, rows: u16) -> (r: Option<String>)
        requires
            old(self).wf(rows as int),
        ensures
            final(self).wf(rows as int),
            match r {
                Some(t) => {
                    &&& old(self).cursor.row as int == rows - 1
                    &&& t@ == old(self).compose@
                    &&& final(self).compose@ == Seq::<char>::empty()
                    &&& final(self).cursor.column == 0
                    &&& final(self).cursor.row == old(self).cursor.row
                    &&& final(self).mode == old(self).mode
                    &&& final(self).scrollback == old(self).scrollback
                    &&& final(self).self_tags == old(self).self_tags
                },
                None => (old(self).cursor.row as int) < rows - 1 && *final(self) == *old(self),
            },
    {
        if self.cursor.row == rows - 1 {
            let text = string_from_chars(&self.compose);
            self.compose.clear();
            self.cursor.column = 0;
            Some(text)
        } else {
            None
        }
    }

    /// `P`: pastes into the compose buffer at the caret, forcing the caret
    /// to the compose row (at the end of the buffer) first if it was
    /// elsewhere; the caret advances past the pasted text.
    pub fn paste(&mut self, text: &str, rows: u16)
        requires
            old(self).wf(rows as int),
        ensures
            final(self).wf(rows as int),
            final(self).mode == old(self).mode,
            final(self).scrollback == old(self).scrollback,
            final(self).self_tags == old(self).self_tags,
            final(self).cursor.row as int == rows - 1,
            ({
                let c0 = if (old(self).cursor.row as int) < rows - 1 {
                    old(self).compose@.len() as int
                } else {
                    old(self).cursor.column as int
                };
                &&& final(self).compose@ == old(self).compose@.subrange(0, c0) + text@ + old(
                    self,
                ).compose@.subrange(c0, old(self).compose@.len() as int)
                &&& final(self).cursor.column as int == c0 + text@.len()
            }),
    {
        if self.cursor.row < rows - 1 {
            self.cursor.row = rows - 1;
            self.cursor.column = self.compose.len();
        }
        let c0 = self.cursor.column;
        let tv = chars_vec(text);
        let n = self.compose.len();
        let m = tv.len();
        let mut out: Vec<char> = Vec::new();
        let mut i: usize = 0;
        while i < c0
            invariant
                0 <= i <= c0 <= n == self.compose@.len(),
                out@ =~= self.compose@.subrange(0, i as int),
            decreases c0 - i,
        {
            out.push(self.compose[i]);
            i = i + 1;
        }
        let mut j: usize = 0;
        while j < m
            invariant
                0 <= j <= m == tv@.len(),
                c0 <= n == self.compose@.len(),
                out@ =~= self.compose@.subrange(0, c0 as int) + tv@.subrange(0, j as int),
            decreases m - j,
        {
            out.push(tv[j]);
            j = j + 1;
        }
        let mut k: usize = c0;
        while k < n
            invariant
                c0 <= k <= n == self.compose@.len(),
                m == tv@.len(),
                out@ =~= self.compose@.subrange(0, c0 as int) + tv@ + self.compose@.subrange(
                    c0 as int,
                    k as int,
                ),
            decreases n - k,
        {
            out.push(self.compose[k]);
            k = k + 1;
        }
        proof {
            assert(out@ =~= self.compose@.subrange(0, c0 as int) + tv@ + self.compose@.subrange(
                c0 as int,
                self.compose@.len() as int,
            ));
            assert(c0 + m <= out@.len());
        }
        let total = out.len();
        self.compose = out;
        self.cursor.column = total - (n - c0);
    }
}

/// One keyboard event, as the controller understands it.
#[derive(Debug)]
pub enum KeyInput {
    Esc,
    /// `keep_buffer` is the "retain buffer" modifier (control held).
    Enter { keep_buffer: bool },
    Backspace,
    Left,
    Right,
    End,
    Char { c: char, ctrl: bool },
}

/// What the caller must do after a keystroke, beyond the state change.
#[derive(Debug)]
pub enum Outcome {
    /// Nothing beyond the state change.
    Continue,
    /// End the interaction loop and shut down.
    Quit,
    /// Put this text on the clipboard, best effort; a clipboard failure is
    /// ignored.
    CopyToClipboard(String),
    /// Fetch the clipboard text and hand it to `paste`, best effort.
    RequestPaste,
}

impl ViewState {
    /// `Enter` in Insert mode: sends the non-empty compose buffer, appends
    /// the sent text as a locally attributed entry (remembered self tags,
    /// nickname as author fallback), and, unless `keep` is held, clears
    /// the buffer and resets the column. An empty buffer or a failed send
    /// changes nothing, so the user can retry.
    pub fn send_compose(&mut self, session: &mut crate::session::IRC, keep: bool, rows: u16) -> (sent:
        bool)
        requires
            old(self).wf(rows as int),
            old(self).mode is Insert,
        ensures
            final(self).wf(rows as int),
            *final(session) == *old(session),
            old(self).compose@.len() == 0 ==> !sent,
            !sent ==> *final(self) == *old(self),
            sent ==> ({
                let entry = final(self).scrollback@.last();
                &&& final(self).scrollback@.len() == old(self).scrollback@.len() + 1
                &&& final(self).scrollback@.subrange(0, old(self).scrollback@.len() as int) == old(
                    self,
                ).scrollback@
                &&& entry.message@ == old(self).compose@
                &&& entry.channel@ == old(session).channel_view()
                &&& crate::parse::opt_str_view(entry.prefix.nick) == Some(
                    old(session).nick_view(),
                )
                &&& crate::parse::opt_str_view(entry.prefix.user) == Some(
                    old(session).nick_view(),
                )
                &&& entry.tags@ == match old(self).self_tags {
                    Some(t) => t@,
                    None => Map::<Seq<char>, Seq<char>>::empty(),
                }
                &&& final(self).mode == old(self).mode
                &&& final(self).self_tags == old(self).self_tags
                &&& final(self).cursor.row == old(self).cursor.row
                &&& if keep {
                    final(self).compose == old(self).compose && final(self).cursor.column == old(
                        self,
                    ).cursor.column
                } else {
                    final(self).compose@ == Seq::<char>::empty() && final(self).cursor.column == 0
                }
            }),
    {
        if self.compose.len() == 0 {
            return false;
        }
        let text = string_from_chars(&self.compose);
        match session.send_message(text.as_str()) {
            Ok(_) => {
                let tags = match &self.self_tags {
                    Some(t) => t.duplicate(),
                    None => Tags::new(),
                };
                let nick = session.nick_str().clone();
                let nick2 = session.nick_str().clone();
                let entry = Privmsg {
                    tags,
                    prefix: crate::parse::Prefix {
                        nick: Some(nick),
                        user: Some(nick2),
                        host: String::from_str("idk"),
                    },
                    channel: session.channel_str().clone(),
                    message: text,
                };
                self.append_entry(entry, rows);
                proof {
                    assert(self.scrollback@.subrange(0, old(self).scrollback@.len() as int)
                        =~= old(self).scrollback@);
                }
                if !keep {
                    self.compose.clear();
                    self.cursor.column = 0;
                }
                true
            },
            Err(_) => false,
        }
    }

    /// Dispatches one keyboard event according to the current mode. The
    /// cursor invariant holds afterwards, and the scrollback log only ever
    /// grows.
    pub fn handle_key(
        &mut self,
        session: &mut crate::session::IRC,
        rows: u16,
        key: KeyInput,
    ) -> (out: Outcome)
        requires
            old(self).wf(rows as int),
        ensures
            final(self).wf(rows as int),
            *final(session) == *old(session),
            final(self).scrollback@.len() >= old(self).scrollback@.len(),
            final(self).scrollback@.subrange(0, old(self).scrollback@.len() as int) == old(
                self,
            ).scrollback@,
            key is Esc ==> final(self).mode is Normal && final(self).cursor == old(self).cursor,
            out is Quit <==> (key matches KeyInput::Char { c, ctrl } && ctrl && (c == 'q' || c
                == 'c')),
            out is Quit ==> *final(self) == *old(self),
            out is RequestPaste <==> (key matches KeyInput::Char { c, ctrl: _ } && c == 'P' && old(
                self,
            ).mode is Normal),
            out is RequestPaste ==> *final(self) == *old(self),
            (key matches KeyInput::Char { c, ctrl: _ } && c == 'i' && old(self).mode is Normal)
                ==> final(self).mode is Insert && final(self).cursor.row == rows - 1,
            (key matches KeyInput::Char { c, ctrl: _ } && c == 'y' && old(self).mode is Normal)
                ==> final(self).mode is YankPending,
            (key matches KeyInput::Char { c, ctrl: _ } && c == 'd' && old(self).mode is Normal)
                ==> final(self).mode is DeletePending,
            match key {
                KeyInput::Esc => {
                    &&& final(self).mode is Normal
                    &&& final(self).cursor == old(self).cursor
                    &&& final(self).compose == old(self).compose
                    &&& final(self).scrollback == old(self).scrollback
                    &&& final(self).self_tags == old(self).self_tags
                },
                KeyInput::Enter { keep_buffer } => {
                    &&& !(old(self).mode is Insert) ==> *final(self) == *old(self)
                    &&& old(self).mode is Insert ==> {
                        ||| *final(self) == *old(self)
                        ||| ({
                            let entry = final(self).scrollback@.last();
                            &&& old(self).compose@.len() > 0
                            &&& final(self).scrollback@.len() == old(self).scrollback@.len() + 1
                            &&& entry.message@ == old(self).compose@
                            &&& entry.channel@ == old(session).channel_view()
                            &&& crate::parse::opt_str_view(entry.prefix.nick) == Some(
                                old(session).nick_view(),
                            )
                            &&& crate::parse::opt_str_view(entry.prefix.user) == Some(
                                old(session).nick_view(),
                            )
                            &&& entry.tags@ == match old(self).self_tags {
                                Some(t) => t@,
                                None => Map::<Seq<char>, Seq<char>>::empty(),
                            }
                            &&& final(self).mode == old(self).mode
                            &&& final(self).self_tags == old(self).self_tags
                            &&& final(self).cursor.row == old(self).cursor.row
                            &&& if keep_buffer {
                                &&& final(self).compose == old(self).compose
                                &&& final(self).cursor.column == old(self).cursor.column
                            } else {
                                &&& final(self).compose@ == Seq::<char>::empty()
                                &&& final(self).cursor.column == 0
                            }
                        })
                    }
                },
                KeyInput::Backspace => {
                    &&& !(old(self).mode is Insert) ==> *final(self) == *old(self)
                    &&& old(self).mode is Insert ==> {
                        &&& final(self).mode == old(self).mode
                        &&& final(self).scrollback == old(self).scrollback
                        &&& final(self).self_tags == old(self).self_tags
                        &&& final(self).cursor.row == old(self).cursor.row
                        &&& if old(self).cursor.column > 0 {
                            final(self).compose@ == old(self).compose@.remove(
                                old(self).cursor.column - 1,
                            ) && final(self).cursor.column == old(self).cursor.column - 1
                        } else {
                            *final(self) == *old(self)
                        }
                    }
                },
                KeyInput::Left => {
                    &&& !(old(self).mode is Insert) ==> *final(self) == *old(self)
                    &&& old(self).mode is Insert ==> {
                        &&& old(self).same_except_cursor(*final(self))
                        &&& final(self).cursor.row == old(self).cursor.row
                        &&& final(self).cursor.column == if old(self).cursor.column > 0 {
                            old(self).cursor.column - 1
                        } else {
                            0
                        }
                    }
                },
                KeyInput::Right => {
                    &&& !(old(self).mode is Insert) ==> *final(self) == *old(self)
                    &&& old(self).mode is Insert ==> {
                        &&& old(self).same_except_cursor(*final(self))
                        &&& final(self).cursor.row == old(self).cursor.row
                        &&& final(self).cursor.column as int == if old(self).cursor.column + 1
                            <= old(self).compose@.len() {
                            old(self).cursor.column + 1 as int
                        } else {
                            old(self).cursor.column as int
                        }
                    }
                },
                KeyInput::End => {
                    &&& !(old(self).mode is Insert) ==> *final(self) == *old(self)
                    &&& old(self).mode is Insert ==> {
                        &&& old(self).same_except_cursor(*final(self))
                        &&& final(self).cursor.row == old(self).cursor.row
                        &&& final(self).cursor.column == old(self).compose@.len()
                    }
                },
                KeyInput::Char { c, ctrl } => {
                    &&& (!(ctrl && (c == 'q' || c == 'c')) && old(self).mode is Insert) ==> {
                        &&& final(self).compose@ == old(self).compose@.insert(
                            old(self).cursor.column as int,
                            c,
                        )
                        &&& final(self).cursor.column == old(self).cursor.column + 1
                    }
                    &&& (!(ctrl && (c == 'q' || c == 'c')) && (old(self).mode is YankPending || old(
                        self,
                    ).mode is DeletePending)) ==> final(self).mode is Normal
                    &&& (!(ctrl && (c == 'q' || c == 'c')) && old(self).mode is DeletePending && c
                        == 'd' && old(self).cursor.row as int == rows - 1) ==> {
                        &&& out matches Outcome::CopyToClipboard(t) && t@ == old(self).compose@
                        &&& final(self).compose@ == Seq::<char>::empty()
                        &&& final(self).cursor.column == 0
                    }
                    &&& (!(ctrl && (c == 'q' || c == 'c')) && old(self).mode is YankPending && c
                        == 'y' && (old(self).cursor.row as int) < rows - 1) ==> (
                    out matches Outcome::CopyToClipboard(t) && t@ == old(self).scrollback@[old(
                        self,
                    ).entry_index(rows as int, old(self).cursor.row as int)].message@)
                    &&& (c == 'h' && old(self).mode is Normal) ==> {
                        &&& old(self).same_except_cursor(*final(self))
                        &&& final(self).cursor.row == old(self).cursor.row
                        &&& final(self).cursor.column == if old(self).cursor.column > 0 {
                            old(self).cursor.column - 1
                        } else {
                            0
                        }
                    }
                    &&& (c == 'j' && old(self).mode is Normal) ==> ({
                        let nr = if (old(self).cursor.row as int) < rows - 1 {
                            old(self).cursor.row + 1 as int
                        } else {
                            old(self).cursor.row as int
                        };
                        let ll = old(self).line_len_at(rows as int, nr);
                        &&& old(self).same_except_cursor(*final(self))
                        &&& final(self).cursor.row as int == nr
                        &&& final(self).cursor.column as int == if old(self).cursor.column <= ll {
                            old(self).cursor.column as int
                        } else {
                            ll
                        }
                    })
                    &&& (c == 'k' && old(self).mode is Normal) ==> ({
                        let fr = first_message_row(old(self).scrollback@.len() as int, rows as int);
                        let nr = if (old(self).cursor.row as int) > fr {
                            old(self).cursor.row - 1 as int
                        } else {
                            old(self).cursor.row as int
                        };
                        let ll = old(self).line_len_at(rows as int, nr);
                        &&& old(self).same_except_cursor(*final(self))
                        &&& final(self).cursor.row as int == nr
                        &&& final(self).cursor.column as int == if old(self).cursor.column <= ll {
                            old(self).cursor.column as int
                        } else {
                            ll
                        }
                    })
                    &&& (c == 'l' && old(self).mode is Normal) ==> ({
                        let row = old(self).cursor.row as int;
                        let col = old(self).cursor.column as int;
                        let ll = old(self).line_len_at(rows as int, row);
                        &&& old(self).same_except_cursor(*final(self))
                        &&& if col < ll {
                            final(self).cursor.row as int == row && final(self).cursor.column as int
                                == col + 1
                        } else if row < rows - 2 {
                            final(self).cursor.row as int == row + 1 && final(self).cursor.column
                                == 0
                        } else {
                            final(self).cursor == old(self).cursor
                        }
                    })
                    &&& (c == 'w' && old(self).mode is Normal) ==> ({
                        let line = old(self).line_at(rows as int, old(self).cursor.row as int);
                        let col = old(self).cursor.column as int;
                        &&& old(self).same_except_cursor(*final(self))
                        &&& final(self).cursor.row == old(self).cursor.row
                        &&& final(self).cursor.column as int == if col < line.len() {
                            match find_from(line, col + 1, ' ') {
                                Some(sp) => sp + 1,
                                None => line.len() as int,
                            }
                        } else {
                            col
                        }
                    })
                    &&& (c == 'b' && old(self).mode is Normal) ==> ({
                        let line = old(self).line_at(rows as int, old(self).cursor.row as int);
                        let bound = if old(self).cursor.column > 0 {
                            old(self).cursor.column - 1 as int
                        } else {
                            0
                        };
                        &&& old(self).same_except_cursor(*final(self))
                        &&& final(self).cursor.row == old(self).cursor.row
                        &&& final(self).cursor.column as int == match rfind_before(
                            line,
                            bound,
                            ' ',
                        ) {
                            Some(i) => i + 1,
                            None => 0,
                        }
                    })
                    &&& (c == '^' && old(self).mode is Normal) ==> {
                        &&& old(self).same_except_cursor(*final(self))
                        &&& final(self).cursor.row == old(self).cursor.row
                        &&& final(self).cursor.column == 0
                    }
                    &&& (c == '$' && old(self).mode is Normal) ==> {
                        &&& old(self).same_except_cursor(*final(self))
                        &&& final(self).cursor.row == old(self).cursor.row
                        &&& final(self).cursor.column as int == old(self).line_len_at(
                            rows as int,
                            old(self).cursor.row as int,
                        )
                    }
                    &&& (old(self).mode is Normal && !(ctrl && (c == 'q' || c == 'c')) && c != 'i'
                        && c != 'h' && c != 'j' && c != 'k' && c != 'l' && c != 'b' && c != 'w' && c
                        != '$' && c != '^' && c != 'y' && c != 'd' && c != 'P') ==> *final(self)
                        == *old(self)
                    &&& (!(ctrl && (c == 'q' || c == 'c')) && old(self).mode is YankPending) ==> {
                        &&& final(self).cursor == old(self).cursor
                        &&& final(self).compose == old(self).compose
                        &&& final(self).scrollback == old(self).scrollback
                        &&& final(self).self_tags == old(self).self_tags
                    }
                    &&& (!(ctrl && (c == 'q' || c == 'c')) && old(self).mode is DeletePending && !(c
                        == 'd' && old(self).cursor.row as int == rows - 1)) ==> {
                        &&& final(self).cursor == old(self).cursor
                        &&& final(self).compose == old(self).compose
                        &&& final(self).scrollback == old(self).scrollback
                        &&& final(self).self_tags == old(self).self_tags
                    }
                },
            },
    {
        proof {
            assert(old(self).scrollback@.subrange(0, old(self).scrollback@.len() as int)
                =~= old(self).scrollback@);
        }
        match key {
            KeyInput::Esc => {
                self.escape(rows);
                Outcome::Continue
            },
            KeyInput::Enter { keep_buffer } => {
                if matches!(self.mode, Mode::Insert) {
                    let _sent = self.send_compose(session, keep_buffer, rows);
                }
                Outcome::Continue
            },
            KeyInput::Backspace => {
                if matches!(self.mode, Mode::Insert) {
                    self.backspace(rows);
                }
                Outcome::Continue
            },
            KeyInput::Left => {
                if matches!(self.mode, Mode::Insert) {
                    self.compose_left(rows);
                }
                Outcome::Continue
            },
            KeyInput::Right => {
                if matches!(self.mode, Mode::Insert) {
                    self.compose_right(rows);
                }
                Outcome::Continue
            },
            KeyInput::End => {
                if matches!(self.mode, Mode::Insert) {
                    self.compose_end(rows);
                }
                Outcome::Continue
            },
            KeyInput::Char { c, ctrl } => {
                if ctrl && (c == 'q' || c == 'c') {
                    return Outcome::Quit;
                }
                if matches!(self.mode, Mode::Normal) {
                    if c == 'i' {
                        self.enter_insert(rows);
                    } else if c == 'h' {
                        self.motion_left(rows);
                    } else if c == 'j' {
                        self.motion_down(rows);
                    } else if c == 'k' {
                        self.motion_up(rows);
                    } else if c == 'l' {
                        self.motion_right(rows);
                    } else if c == 'b' {
                        self.word_back(rows);
                    } else if c == 'w' {
                        self.word_forward(rows);
                    } else if c == '$' {
                        self.line_end(rows);
                    } else if c == '^' {
                        self.line_start(rows);
                    } else if c == 'y' {
                        self.begin_yank(rows);
                    } else if c == 'd' {
                        self.begin_delete(rows);
                    } else if c == 'P' {
                        return Outcome::RequestPaste;
                    }
                    Outcome::Continue
                } else if matches!(self.mode, Mode::YankPending) {
                    self.escape(rows);
                    if c == 'y' {
                        match self.yank_line(rows) {
                            Some(t) => Outcome::CopyToClipboard(t),
                            None => Outcome::Continue,
                        }
                    } else {
                        Outcome::Continue
                    }
                } else if matches!(self.mode, Mode::DeletePending) {
                    self.escape(rows);
                    if c == 'd' {
                        match self.delete_compose(rows) {
                            Some(t) => Outcome::CopyToClipboard(t),
                            None => Outcome::Continue,
                        }
                    } else {
                        Outcome::Continue
                    }
                } else {
                    self.insert_char(c, rows);
                    Outcome::Continue
                }
            },
        }
    }

    /// A printable key in Insert mode: inserts at the caret and advances
    /// it by one.
    pub fn insert_char(&mut self, c: char, rows: u16)
        requires
            old(self).wf(rows as int),
            old(self).mode is Insert,
        ensures
            final(self).wf(rows as int),
            final(self).mode == old(self).mode,
            final(self).scrollback == old(self).scrollback,
            final(self).self_tags == old(self).self_tags,
            final(self).cursor.row == old(self).cursor.row,
            final(self).compose@ == old(self).compose@.insert(old(self).cursor.column as int, c),
            final(self).cursor.column == old(self).cursor.column + 1,
    {
        self.compose.insert(self.cursor.column, c);
        let nl = self.compose.len();
        proof {
            assert(self.cursor.column < nl);
        }
        self.cursor.column = self.cursor.column + 1;
    }

    /// `Backspace` in Insert mode: deletes the character before the caret;
    /// nothing happens at column 0.
    pub fn backspace(&mut self, rows: u16)
        requires
            old(self).wf(rows as int),
            old(self).mode is Insert,
        ensures
            final(self).wf(rows as int),
            final(self).mode == old(self).mode,
            final(self).scrollback == old(self).scrollback,
            final(self).self_tags == old(self).self_tags,
            final(self).cursor.row == old(self).cursor.row,
            if old(self).cursor.column > 0 {
                final(self).compose@ == old(self).compose@.remove(old(self).cursor.column - 1)
                    && final(self).cursor.column == old(self).cursor.column - 1
            } else {
                *final(self) == *old(self)
            },
    {
        if self.cursor.column > 0 {
            self.compose.remove(self.cursor.column - 1);
            self.cursor.column = self.cursor.column - 1;
        }
    }

    /// `Left` in Insert mode: one column left, clamped at 0.
    pub fn compose_left(&mut self, rows: u16)
        requires
            old(self).wf(rows as int),
            old(self).mode is Insert,
        ensures
            final(self).wf(rows as int),
            old(self).same_except_cursor(*final(self)),
            final(self).cursor.row == old(self).cursor.row,
            final(self).cursor.column == if old(self).cursor.column > 0 {
                old(self).cursor.column - 1
            } else {
                0
            },
    {
        if self.cursor.column > 0 {
            self.cursor.column = self.cursor.column - 1;
        }
    }

    /// `Right` in Insert mode: one column right, clamped at the end of the
    /// compose buffer.
    pub fn compose_right(&mut self, rows: u16)
        requires
            old(self).wf(rows as int),
            old(self).mode is Insert,
        ensures
            final(self).wf(rows as int),
            old(self).same_except_cursor(*final(self)),
            final(self).cursor.row == old(self).cursor.row,
            final(self).cursor.column as int == if old(self).cursor.column + 1
                <= old(self).compose@.len() {
                old(self).cursor.column + 1 as int
            } else {
                old(self).cursor.column as int
            },
    {
        if self.cursor.column < self.compose.len() {
            self.cursor.column = self.cursor.column + 1;
        }
    }

    /// `End` in Insert mode: to the end of the compose buffer.
    pub fn compose_end(&mut self, rows: u16)
        requires
            old(self).wf(rows as int),
            old(self).mode is Insert,
        ensures
            final(self).wf(rows as int),
            old(self).same_except_cursor(*final(self)),
            final(self).cursor.row == old(self).cursor.row,
            final(self).cursor.column == old(self).compose@.len(),
    {
        self.cursor.column = self.compose.len();
    }
}

/// What `rfind_before` returns: the last occurrence of `c` before `bound`.
pub proof fn lemma_rfind_before(s: Seq<char>, bound: int, c: char)
    requires
        0 <= bound <= s.len(),
    ensures
        match rfind_before(s, bound, c) {
            Some(i) => 0 <= i < bound && s[i] == c,
            None => forall|j: int| 0 <= j < bound ==> s[j] != c,
        },
    decreases bound,
{
    if bound > 0 && s[bound - 1] != c {
        lemma_rfind_before(s, bound - 1, c);
    }
}

} // verus!
