//! Text that arrives in pieces, read line by line.

use crate::text::{join, split_first_line, strip_end};
use vstd::prelude::*;

verus! {

/// Where the first line feed of a text stands.
pub open spec fn line_end(text: Seq<char>) -> int {
    choose|i: int|
        #![trigger text[i]]
        0 <= i < text.len() && text[i] == '\n' && forall|j: int| 0 <= j < i ==> text[j] != '\n'
}

/// A line without the carriage return at its end, where it has one.
pub open spec fn trimmed(line: Seq<char>) -> Seq<char> {
    if line.len() > 0 && line.last() == '\r' {
        line.drop_last()
    } else {
        line
    }
}

/// The lines of a text that end with a line feed, trimmed, without those that are then empty.
pub open spec fn records(text: Seq<char>) -> Seq<Seq<char>>
    decreases text.len(),
{
    if !text.contains('\n') {
        Seq::empty()
    } else {
        proof {
            lemma_line_end(text);
        }
        let line = trimmed(text.take(line_end(text)));
        let more = records(text.skip(line_end(text) + 1));
        if line.len() == 0 {
            more
        } else {
            seq![line] + more
        }
    }
}

/// What stands behind the last line feed of a text.
pub open spec fn tail(text: Seq<char>) -> Seq<char>
    decreases text.len(),
{
    if !text.contains('\n') {
        text
    } else {
        proof {
            lemma_line_end(text);
        }
        tail(text.skip(line_end(text) + 1))
    }
}

/// The first line of `records`, where there is one, and the text that is left behind it; where
/// there is none, what stands behind the last line feed.
pub open spec fn next_record(text: Seq<char>) -> (Option<Seq<char>>, Seq<char>)
    decreases text.len(),
{
    if !text.contains('\n') {
        (None, text)
    } else {
        proof {
            lemma_line_end(text);
        }
        let line = trimmed(text.take(line_end(text)));
        let rest = text.skip(line_end(text) + 1);
        if line.len() == 0 {
            next_record(rest)
        } else {
            (Some(line), rest)
        }
    }
}

/// A text that holds a line feed has a first one.
pub proof fn lemma_line_end(text: Seq<char>)
    requires
        text.contains('\n'),
    ensures
        0 <= line_end(text) < text.len(),
        text[line_end(text)] == '\n',
        forall|j: int| 0 <= j < line_end(text) ==> text[j] != '\n',
{
    let i = choose|i: int| 0 <= i < text.len() && text[i] == '\n';
    lemma_first_break(text, i);
}

/// At or before any line feed stands the first one.
proof fn lemma_first_break(text: Seq<char>, i: int)
    requires
        0 <= i < text.len(),
        text[i] == '\n',
    ensures
        exists|k: int|
            #![trigger text[k]]
            0 <= k < text.len() && text[k] == '\n' && forall|j: int| 0 <= j < k ==> text[j] != '\n',
    decreases i,
{
    if exists|j: int| 0 <= j < i && text[j] == '\n' {
        let j = choose|j: int| 0 <= j < i && text[j] == '\n';
        lemma_first_break(text, j);
    } else {
        assert(text[i] == '\n' && forall|j: int| 0 <= j < i ==> text[j] != '\n');
    }
}

/// A text that is a line, a line feed and a rest is read as that line and that rest.
proof fn lemma_split(line: Seq<char>, rest: Seq<char>)
    requires
        !line.contains('\n'),
    ensures
        ({
            let text = line + seq!['\n'] + rest;
            &&& text.contains('\n')
            &&& line_end(text) == line.len()
            &&& text.take(line_end(text)) == line
            &&& text.skip(line_end(text) + 1) == rest
        }),
{
    let text = line + seq!['\n'] + rest;
    let n = line.len() as int;
    assert(text[n] == '\n');
    assert(text.contains('\n'));
    assert forall|j: int| 0 <= j < n implies text[j] != '\n' by {
        assert(text[j] == line[j]);
        assert(line.contains(line[j]));
    }
    lemma_line_end(text);
    let m = line_end(text);
    if m < n {
        assert(text[m] != '\n');
    } else if n < m {
        assert(text[n] != '\n');
    }
    assert(text.take(n) =~= line);
    assert(text.skip(n + 1) =~= rest);
}

/// The parts of a text that holds a line feed: its first line, and what stands behind it.
proof fn lemma_parts(text: Seq<char>) -> (parts: (Seq<char>, Seq<char>))
    requires
        text.contains('\n'),
    ensures
        text == parts.0 + seq!['\n'] + parts.1,
        !parts.0.contains('\n'),
        parts.1.len() < text.len(),
{
    lemma_line_end(text);
    let n = line_end(text);
    let line = text.take(n);
    let rest = text.skip(n + 1);
    assert(!line.contains('\n')) by {
        assert(forall|j: int| 0 <= j < line.len() ==> line[j] == text[j]);
    }
    assert(text =~= line + seq!['\n'] + rest);
    (line, rest)
}

/// Joining rows from the left or from the right gives the same row.
proof fn lemma_joined(a: Seq<Seq<char>>, b: Seq<Seq<char>>, c: Seq<Seq<char>>)
    ensures
        a + (b + c) == (a + b) + c,
{
    assert(a + (b + c) =~= (a + b) + c);
}

/// How a text that is a line, a line feed and a rest is read.
proof fn lemma_read(line: Seq<char>, rest: Seq<char>)
    requires
        !line.contains('\n'),
    ensures
        ({
            let text = line + seq!['\n'] + rest;
            let first = if trimmed(line).len() == 0 {
                Seq::<Seq<char>>::empty()
            } else {
                seq![trimmed(line)]
            };
            &&& records(text) == first + records(rest)
            &&& tail(text) == tail(rest)
            &&& next_record(text) == if trimmed(line).len() == 0 {
                next_record(rest)
            } else {
                (Some(trimmed(line)), rest)
            }
        }),
{
    lemma_split(line, rest);
    assert(Seq::<Seq<char>>::empty() + records(rest) =~= records(rest));
}

/// The text of a stream that has arrived and has not been read.
pub struct LineBuffer {
    pending: String,
}

impl View for LineBuffer {
    type V = Seq<char>;

    closed spec fn view(&self) -> Seq<char> {
        self.pending@
    }
}

impl LineBuffer {
    /// Nothing has arrived.
    pub fn new() -> (buffer: LineBuffer)
        ensures
            buffer@ == Seq::<char>::empty(),
    {
        LineBuffer { pending: String::new() }
    }

    /// Whether nothing is left to read.
    pub fn is_empty(&self) -> (empty: bool)
        ensures
            empty == (self@.len() == 0),
    {
        self.pending.as_str().is_empty()
    }

    /// Takes in another piece.
    pub fn feed(&mut self, data: &str)
        ensures
            final(self)@ == old(self)@ + data@,
    {
        self.pending.append(data);
    }

    /// Takes the next line out, without its line end; empty lines are passed over. Where no
    /// complete line is left, what is left stays.
    pub fn next_line(&mut self) -> (line: Option<String>)
        ensures
            final(self)@ == next_record(old(self)@).1,
            match line {
                Some(found) => next_record(old(self)@).0 == Some(found@),
                None => next_record(old(self)@).0 is None,
            },
            match line {
                Some(found) => {
                    &&& records(old(self)@) == seq![found@] + records(final(self)@)
                    &&& tail(final(self)@) == tail(old(self)@)
                    &&& found@.len() > 0
                },
                None => records(old(self)@).len() == 0 && final(self)@ == tail(old(self)@),
            },
            final(self)@.len() <= old(self)@.len(),
            line is Some ==> final(self)@.len() < old(self)@.len(),
    {
        loop
            invariant
                next_record(self@) == next_record(old(self)@),
                records(self@) == records(old(self)@),
                tail(self@) == tail(old(self)@),
                self@.len() <= old(self)@.len(),
            decreases self@.len(),
        {
            let ghost text = self@;
            match split_first_line(self.pending.as_str()) {
                None => {
                    return None;
                },
                Some((line, rest)) => {
                    proof {
                        lemma_read(line@, rest@);
                        assert(Seq::<Seq<char>>::empty() + records(rest@) =~= records(rest@));
                    }
                    let line = match strip_end(line, '\r') {
                        Some(shorter) => {
                            assert(trimmed(line@) =~= shorter@);
                            shorter
                        },
                        None => line,
                    };
                    let found = line.to_owned();
                    self.pending = rest.to_owned();
                    if !found.as_str().is_empty() {
                        return Some(found);
                    }
                },
            }
        }
    }

    /// Takes what is left, with a line feed behind it; nothing where nothing is left.
    pub fn take_tail(&mut self) -> (flushed: Option<String>)
        ensures
            match flushed {
                Some(text) => old(self)@.len() > 0 && text@ == old(self)@.push('\n'),
                None => old(self)@.len() == 0,
            },
            final(self)@ == Seq::<char>::empty(),
    {
        if self.is_empty() {
            assert(self@ =~= Seq::<char>::empty());
            return None;
        }
        let flushed = join(self.pending.as_str(), "\n");
        proof {
            reveal_strlit("\n");
            assert(flushed@ =~= self@.push('\n'));
        }
        self.pending = String::new();
        Some(flushed)
    }

    /// Forgets what is left.
    pub fn clear(&mut self)
        ensures
            final(self)@ == Seq::<char>::empty(),
    {
        self.pending = String::new();
    }
}

/// Reading a text in two pieces gives the lines of the first piece, and then those of the second
/// piece behind what the first one left unread.
pub proof fn law_pieces_read_as_one(first: Seq<char>, second: Seq<char>)
    ensures
        records(first + second) == records(first) + records(tail(first) + second),
        tail(first + second) == tail(tail(first) + second),
    decreases first.len(),
{
    if !first.contains('\n') {
        assert(Seq::<Seq<char>>::empty() + records(first + second) =~= records(first + second));
    } else {
        let (line, rest) = lemma_parts(first);
        assert(first + second =~= line + seq!['\n'] + (rest + second));
        lemma_read(line, rest);
        lemma_read(line, rest + second);
        law_pieces_read_as_one(rest, second);
        let own = if trimmed(line).len() == 0 {
            Seq::<Seq<char>>::empty()
        } else {
            seq![trimmed(line)]
        };
        lemma_joined(own, records(rest), records(tail(rest) + second));
    }
}

/// What stands behind the last line feed holds no line feed, and so no line.
pub proof fn law_tail_holds_no_line(text: Seq<char>)
    ensures
        !tail(text).contains('\n'),
        records(tail(text)).len() == 0,
    decreases text.len(),
{
    if text.contains('\n') {
        lemma_line_end(text);
        law_tail_holds_no_line(text.skip(line_end(text) + 1));
    }
}

/// A text that ends with a line feed is read to its end: nothing is left.
pub proof fn law_line_feed_leaves_nothing(text: Seq<char>)
    ensures
        tail(text.push('\n')) == Seq::<char>::empty(),
{
    let end = seq!['\n'];
    let none = Seq::<char>::empty();
    assert(text.push('\n') =~= text + end);
    law_pieces_read_as_one(text, end);
    law_tail_holds_no_line(text);
    lemma_read(tail(text), none);
    assert(tail(text) + end + none =~= tail(text) + end);
    assert(!none.contains('\n'));
    assert(tail(none) == none);
}

/// Taking the next line is taking the first of the lines: the others are left, with the same text
/// behind them. Where there is none, only the text behind the last line feed is left.
pub proof fn law_next_line_is_the_first(text: Seq<char>)
    ensures
        match next_record(text) {
            (Some(line), rest) => {
                &&& records(text) == seq![line] + records(rest)
                &&& tail(rest) == tail(text)
                &&& line.len() > 0
                &&& rest.len() < text.len()
            },
            (None, rest) => records(text).len() == 0 && rest == tail(text),
        },
    decreases text.len(),
{
    if text.contains('\n') {
        let (line, rest) = lemma_parts(text);
        lemma_read(line, rest);
        assert(Seq::<Seq<char>>::empty() + records(rest) =~= records(rest));
        law_next_line_is_the_first(rest);
    }
}

/// More text behind a text does not change its next line: where the text has one, it is the same, and
/// the longer rest is left; where it has none, the next line is that of what stands behind the last
/// line feed, with the added text.
pub proof fn law_next_line_with_more(text: Seq<char>, more: Seq<char>)
    ensures
        match next_record(text) {
            (Some(line), rest) => next_record(text + more) == (Some(line), rest + more),
            (None, rest) => next_record(text + more) == next_record(rest + more),
        },
    decreases text.len(),
{
    if text.contains('\n') {
        let (line, rest) = lemma_parts(text);
        assert(text + more =~= line + seq!['\n'] + (rest + more));
        lemma_read(line, rest);
        lemma_read(line, rest + more);
        law_next_line_with_more(rest, more);
    }
}

/// A line is read without its line end, whether that is a line feed alone or a carriage return and a
/// line feed, and what stands behind it is read after it.
pub proof fn law_lines_are_read_without_their_ends(line: Seq<char>, rest: Seq<char>)
    requires
        line.len() > 0,
        !line.contains('\n'),
    ensures
        records(line + seq!['\r', '\n'] + rest) == seq![line] + records(rest),
        line.last() != '\r' ==> records(line + seq!['\n'] + rest) == seq![line] + records(rest),
        tail(line + seq!['\r', '\n'] + rest) == tail(rest),
        tail(line + seq!['\n'] + rest) == tail(rest),
{
    let ended = line.push('\r');
    assert(!ended.contains('\n')) by {
        if ended.contains('\n') {
            let i = choose|i: int| 0 <= i < ended.len() && ended[i] == '\n';
            assert(line[i] == '\n');
        }
    }
    assert(line + seq!['\r', '\n'] + rest =~= ended + seq!['\n'] + rest);
    assert(trimmed(ended) =~= line);
    lemma_read(ended, rest);
    lemma_read(line, rest);
}

/// Empty lines are passed over.
pub proof fn law_empty_lines_are_passed_over(rest: Seq<char>)
    ensures
        records(seq!['\n'] + rest) == records(rest),
        records(seq!['\r', '\n'] + rest) == records(rest),
        tail(seq!['\n'] + rest) == tail(rest),
        tail(seq!['\r', '\n'] + rest) == tail(rest),
{
    let none = Seq::<char>::empty();
    let bare = seq!['\r'];
    assert(seq!['\n'] + rest =~= none + seq!['\n'] + rest);
    assert(seq!['\r', '\n'] + rest =~= bare + seq!['\n'] + rest);
    assert(!none.contains('\n'));
    assert(!bare.contains('\n'));
    assert(trimmed(bare) =~= none);
    lemma_read(none, rest);
    lemma_read(bare, rest);
    assert(Seq::<Seq<char>>::empty() + records(rest) =~= records(rest));
}

/// A text without a line feed holds no line, and all of it is left.
pub proof fn law_unfinished_lines_are_left(text: Seq<char>)
    requires
        !text.contains('\n'),
    ensures
        records(text).len() == 0,
        tail(text) == text,
        next_record(text) == (None::<Seq<char>>, text),
{
}

} // verus!
