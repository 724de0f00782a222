//! The log shown in the window. Its rows are in a model of slint, which the window shares.

use crate::rows::{handed_over, Rows};
use crate::text::{join_lines, joined, law_joined_lines_split_again, lines_of, texts};
use slint::ModelRc;
use vstd::prelude::*;
use vstd::string::*;

verus! {

/// How many rows the log has at most.
pub const MAX_LOG: usize = 300;

/// The tones of a row.
pub const INFO: i32 = 0;

pub const OK: i32 = 1;

pub const WARN: i32 = 2;

pub const ERR: i32 = 3;

/// A row of the log.
pub struct LogRow {
    pub mark: String,
    pub text: String,
    pub tone: i32,
}

/// The value of a row: its mark, its text and its tone.
pub type Line = (Seq<char>, Seq<char>, int);

impl View for LogRow {
    type V = Line;

    open spec fn view(&self) -> Line {
        (self.mark@, self.text@, self.tone as int)
    }
}

impl Clone for LogRow {
    fn clone(&self) -> (r: Self)
        ensures
            r@ == self@,
    {
        LogRow { mark: self.mark.clone(), text: self.text.clone(), tone: self.tone }
    }
}

// ---------------------------------------------------------------------------
// The log
// ---------------------------------------------------------------------------
/// The mark of a tone.
pub open spec fn mark_text(tone: i32) -> Seq<char> {
    if tone == OK {
        "✓"@
    } else if tone == WARN {
        "!"@
    } else if tone == ERR {
        "✕"@
    } else {
        "·"@
    }
}

/// The mark of a tone.
pub fn mark_of(tone: i32) -> (r: &'static str)
    ensures
        r@ == mark_text(tone),
{
    if tone == OK {
        "✓"
    } else if tone == WARN {
        "!"
    } else if tone == ERR {
        "✕"
    } else {
        "·"
    }
}

/// The newest rows, so many that one more has room.
pub open spec fn with_room(log: Seq<Line>) -> Seq<Line> {
    if log.len() >= MAX_LOG {
        log.skip(log.len() - MAX_LOG + 1)
    } else {
        log
    }
}

/// The log with a row more.
pub open spec fn logged(log: Seq<Line>, tone: i32, text: Seq<char>) -> Seq<Line> {
    with_room(log).push((mark_text(tone), text, tone as int))
}

/// A row as it is copied.
pub open spec fn line_text(l: Line) -> Seq<char> {
    l.0 + " "@ + l.1
}

/// The log as it is copied: a line for each row.
pub open spec fn log_text(log: Seq<Line>) -> Seq<char> {
    joined(Seq::new(log.len(), |i: int| line_text(log[i])))
}

/// The log.
pub struct Log {
    rows: Rows,
}

impl View for Log {
    type V = Seq<Line>;

    closed spec fn view(&self) -> Seq<Line> {
        self.rows@
    }
}

/// Whether every window that showed the log still does.
pub open spec fn still_shown(before: Log, after: Log) -> bool {
    forall|m: ModelRc<LogRow>| #[trigger] before.feeds(m) ==> after.feeds(m)
}

impl Log {
    /// Whether a window that was handed `m` shows this log, and whatever becomes of it.
    pub closed spec fn feeds(&self, m: ModelRc<LogRow>) -> bool {
        self.rows.feeds(m)
    }

    /// A log without rows.
    pub fn new() -> (r: Self)
        ensures
            r@ == Seq::<Line>::empty(),
    {
        Log { rows: Rows::new() }
    }

    /// Adds a row; the oldest ones go where there is no room.
    pub fn push(&mut self, tone: i32, text: &str)
        ensures
            final(self)@ == logged(old(self)@, tone, text@),
            still_shown(*old(self), *final(self)),
    {
        let ghost before = self@;
        while self.rows.count() >= MAX_LOG
            invariant
                before == old(self)@,
                still_shown(*old(self), *self),
                self@.len() <= before.len(),
                self@ == before.skip(before.len() - self@.len()),
                self@.len() == before.len() || self@.len() >= MAX_LOG - 1,
            decreases self@.len(),
        {
            let ghost rest = self@;
            self.rows.remove(0);
            assert(rest.remove(0) =~= before.skip(before.len() - self@.len()));
        }
        assert(self@ =~= with_room(before));
        self.rows.push(LogRow { mark: mark_of(tone).to_owned(), text: text.to_owned(), tone });
    }

    /// Takes all rows out.
    pub fn clear(&mut self)
        ensures
            final(self)@ == Seq::<Line>::empty(),
            still_shown(*old(self), *final(self)),
    {
        self.rows.clear()
    }

    /// How many rows there are.
    pub fn len(&self) -> (r: usize)
        ensures
            r == self@.len(),
    {
        self.rows.count()
    }

    /// The row at `i`.
    pub fn row(&self, i: usize) -> (r: Option<LogRow>)
        ensures
            match r {
                Some(x) => i < self@.len() && x@ == self@[i as int],
                None => i >= self@.len(),
            },
    {
        self.rows.get(i)
    }

    /// The whole log as text.
    pub fn text(&self) -> (r: String)
        ensures
            r@ == log_text(self@),
    {
        let mut lines: Vec<String> = Vec::new();
        let n: usize = self.rows.count();
        let mut i: usize = 0;
        while i < n
            invariant
                i <= n,
                n == self@.len(),
                texts(lines@) =~= Seq::new(i as nat, |k: int| line_text(self@[k])),
            decreases n - i,
        {
            if let Some(row) = self.rows.get(i) {
                let ghost before = lines@;
                lines.push(row.mark.concat(" ").concat(row.text.as_str()));
                assert(texts(lines@) =~= texts(before).push(line_text(self@[i as int])));
            }
            i = i + 1;
        }
        join_lines(&lines)
    }

    /// The model, for a window to read: it holds the rows of the log, and follows it.
    pub fn model(&self) -> (r: ModelRc<LogRow>)
        ensures
            self.feeds(r),
            handed_over(r) == self@,
    {
        self.rows.share()
    }
}

/// A log that has kept to its limit keeps to it, and one that has not does so with the next
/// row.
pub proof fn law_log_is_bounded(log: Seq<Line>, tone: i32, text: Seq<char>)
    ensures
        1 <= logged(log, tone, text).len() <= MAX_LOG,
{
}

/// The newest row is the last one, and in front of it stand the newest of the others, in
/// their order; none is lost as long as there is room.
pub proof fn law_log_keeps_the_newest(log: Seq<Line>, tone: i32, text: Seq<char>)
    ensures
        ({
            let after = logged(log, tone, text);
            let kept = after.len() - 1;
            &&& after.last() == (mark_text(tone), text, tone as int)
            &&& kept <= log.len()
            &&& forall|i: int| 0 <= i < kept ==> #[trigger] after[i] == log[log.len() - kept + i]
            &&& log.len() < MAX_LOG ==> kept == log.len()
            &&& log.len() == MAX_LOG ==> kept == MAX_LOG - 1
        }),
{
}

/// Whether the log `after` is `before` with one row more at its end: up to 300 rows are kept, and
/// it is the oldest that go.
pub open spec fn adds(before: Seq<Line>, after: Seq<Line>, row: Line) -> bool {
    &&& after.len() == if before.len() < 300 {
        before.len() + 1
    } else {
        300
    }
    &&& after.last() == row
    &&& forall|i: int|
        1 <= i < after.len() ==> #[trigger] after[after.len() - 1 - i] == before[before.len() - i]
}

/// A row gets the mark of its tone, and goes behind the rows that are there.
pub proof fn law_rows_are_added_at_the_end(log: Seq<Line>, tone: i32, text: Seq<char>)
    ensures
        tone == 0 ==> adds(log, logged(log, tone, text), ("·"@, text, 0)),
        tone == 1 ==> adds(log, logged(log, tone, text), ("✓"@, text, 1)),
        tone == 2 ==> adds(log, logged(log, tone, text), ("!"@, text, 2)),
        tone == 3 ==> adds(log, logged(log, tone, text), ("✕"@, text, 3)),
        tone < 0 || tone > 3 ==> adds(log, logged(log, tone, text), ("·"@, text, tone as int)),
{
    let after = logged(log, tone, text);
    assert(adds(log, after, (mark_text(tone), text, tone as int))) by {
        assert forall|i: int| 1 <= i < after.len() implies #[trigger] after[after.len() - 1 - i]
            == log[log.len() - i] by {
            assert(after[after.len() - 1 - i] == with_room(log)[with_room(log).len() - i]);
        }
    }
}

/// The copy of the log has a line for each row, in their order: its mark, a space and its text.
pub proof fn law_the_copy_has_a_line_for_each_row(log: Seq<Line>)
    requires
        log.len() > 0,
        forall|i: int| 0 <= i < log.len() ==> !(#[trigger] log[i]).0.contains('\n'),
        forall|i: int| 0 <= i < log.len() ==> !(#[trigger] log[i]).1.contains('\n'),
    ensures
        lines_of(log_text(log)).len() == log.len(),
        forall|i: int|
            0 <= i < log.len() ==> #[trigger] lines_of(log_text(log))[i] == log[i].0.push(' ')
                + log[i].1,
{
    let lines = Seq::new(log.len(), |i: int| line_text(log[i]));
    reveal_strlit(" ");
    assert forall|i: int| 0 <= i < lines.len() implies !(#[trigger] lines[i]).contains('\n') by {
        let l = log[i];
        let t = line_text(l);
        if t.contains('\n') {
            let k = choose|k: int| 0 <= k < t.len() && t[k] == '\n';
            if k < l.0.len() {
                assert(l.0[k] == '\n');
            } else if k > l.0.len() {
                assert(l.1[k - l.0.len() - 1] == '\n');
            }
        }
    }
    law_joined_lines_split_again(lines);
    assert forall|i: int| 0 <= i < log.len() implies #[trigger] lines_of(log_text(log))[i]
        == log[i].0.push(' ') + log[i].1 by {
        assert(lines[i] =~= log[i].0.push(' ') + log[i].1);
    }
}

} // verus!
