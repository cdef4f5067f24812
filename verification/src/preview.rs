//! The preview of a command's output: its first lines as they come, its last
//! lines at the end.

use std::collections::VecDeque;

use vstd::prelude::*;
use vstd::slice::slice_subrange;

use crate::lines;

verus! {

/// How many lines are shown as they come.
pub const HEAD_LINES: usize = 50;

/// How many lines are shown at the end.
pub const TAIL_LINES: usize = 50;

/// How many bytes an unfinished line may hold between two chunks: twice what
/// is shown of a line. A longer one is taken for a line.
pub const MAX_UNFINISHED: usize = lines::MAX_LINE_DISPLAY * 2;

/// The last `n` lines, or all of them if there are fewer.
pub open spec fn last_lines(lines: Seq<Seq<u8>>, n: nat) -> Seq<Seq<u8>> {
    if lines.len() <= n {
        lines
    } else {
        lines.skip(lines.len() - n)
    }
}

/// The first `n` lines, or all of them if there are fewer.
pub open spec fn first_lines(lines: Seq<Seq<u8>>, n: nat) -> Seq<Seq<u8>> {
    if lines.len() <= n {
        lines
    } else {
        lines.take(n as int)
    }
}

/// What is printed for each of some lines.
pub open spec fn texts(lines: Seq<Seq<u8>>) -> Seq<Seq<char>> {
    lines.map_values(|line: Seq<u8>| lines::line_text(line))
}

/// The lines that a chunk completes, where `partial` is the unfinished line
/// before it. An unfinished line that has grown too long counts as complete.
pub open spec fn chunk_lines(partial: Seq<u8>, chunk: Seq<u8>) -> Seq<Seq<u8>> {
    let s = partial + chunk;
    if lines::unfinished_line(s).len() > MAX_UNFINISHED {
        lines::full_lines(s).push(lines::unfinished_line(s))
    } else {
        lines::full_lines(s)
    }
}

/// The unfinished line after a chunk, where `partial` is the one before it.
pub open spec fn chunk_rest(partial: Seq<u8>, chunk: Seq<u8>) -> Seq<u8> {
    let s = partial + chunk;
    if lines::unfinished_line(s).len() > MAX_UNFINISHED {
        seq![]
    } else {
        lines::unfinished_line(s)
    }
}

/// What a `LineTracker` knows.
#[verifier::ext_equal]
pub struct Preview {
    /// Whether the first lines are shown.
    pub show_head: bool,
    /// Whether the last lines are shown.
    pub show_tail: bool,
    /// How many of the first lines have not been shown yet.
    pub head_remaining: nat,
    /// The last lines so far.
    pub tail: Seq<Seq<u8>>,
    /// The line that has no end yet.
    pub partial: Seq<u8>,
}

impl Preview {
    /// Before any output.
    pub open spec fn start(show_head: bool, show_tail: bool) -> Preview {
        Preview {
            show_head,
            show_tail,
            head_remaining: HEAD_LINES as nat,
            tail: seq![],
            partial: seq![],
        }
    }

    /// Whether anything is shown at all.
    pub open spec fn active(self) -> bool {
        self.show_head || self.show_tail
    }

    /// The counts are within their limits.
    pub open spec fn bounded(self) -> bool {
        &&& self.head_remaining <= HEAD_LINES
        &&& self.tail.len() <= TAIL_LINES
    }

    /// The counts are within their limits, and the unfinished line is one.
    pub open spec fn valid(self) -> bool {
        &&& self.bounded()
        &&& self.partial.len() <= MAX_UNFINISHED
        &&& lines::no_newline(self.partial)
    }

    /// Which of some new lines are shown as they come.
    pub open spec fn head_of(self, new: Seq<Seq<u8>>) -> Seq<Seq<u8>> {
        if self.show_head {
            first_lines(new, self.head_remaining)
        } else {
            seq![]
        }
    }

    /// After some new lines, with `partial` as the unfinished line.
    pub open spec fn with_lines(self, new: Seq<Seq<u8>>, partial: Seq<u8>) -> Preview {
        Preview {
            head_remaining: (self.head_remaining - self.head_of(new).len()) as nat,
            tail: if self.show_tail {
                last_lines(self.tail + new, TAIL_LINES as nat)
            } else {
                self.tail
            },
            partial,
            ..self
        }
    }

    /// After a chunk of output.
    pub open spec fn fed(self, chunk: Seq<u8>) -> Preview {
        if self.active() {
            self.with_lines(chunk_lines(self.partial, chunk), chunk_rest(self.partial, chunk))
        } else {
            self
        }
    }

    /// The lines that are shown when a chunk of output comes.
    pub open spec fn shown_by(self, chunk: Seq<u8>) -> Seq<Seq<u8>> {
        if self.active() {
            self.head_of(chunk_lines(self.partial, chunk))
        } else {
            seq![]
        }
    }

    /// The lines that the end of the output completes: at most one.
    pub open spec fn final_lines(self) -> Seq<Seq<u8>> {
        if self.partial.len() > 0 {
            seq![self.partial]
        } else {
            seq![]
        }
    }

    /// After the end of the output.
    pub open spec fn flushed(self) -> Preview {
        self.with_lines(self.final_lines(), seq![])
    }

    /// The lines that are shown at the end of the output.
    pub open spec fn shown_at_end(self) -> Seq<Seq<u8>> {
        self.head_of(self.final_lines()) + if self.show_tail {
            self.flushed().tail
        } else {
            seq![]
        }
    }
}

/// Splits output into lines and picks those that are shown.
#[derive(Debug)]
pub struct LineTracker {
    show_head: bool,
    show_tail: bool,
    head_remaining: usize,
    tail_buf: VecDeque<Vec<u8>>,
    partial_line: Vec<u8>,
}

impl View for LineTracker {
    type V = Preview;

    closed spec fn view(&self) -> Preview {
        Preview {
            show_head: self.show_head,
            show_tail: self.show_tail,
            head_remaining: self.head_remaining as nat,
            tail: self.tail_buf@.map_values(|line: Vec<u8>| line@),
            partial: self.partial_line@,
        }
    }
}

impl LineTracker {
    /// A tracker of output that has not begun.
    pub fn new(show_head: bool, show_tail: bool) -> (res: LineTracker)
        ensures
            res@ == Preview::start(show_head, show_tail),
            res@.valid(),
            res@.show_head == show_head,
            res@.show_tail == show_tail,
            res@.head_remaining == 50,
            res@.tail.len() == 0,
            res@.partial.len() == 0,
    {
        let res = LineTracker {
            show_head,
            show_tail,
            head_remaining: HEAD_LINES,
            tail_buf: VecDeque::with_capacity(TAIL_LINES + 1),
            partial_line: Vec::new(),
        };
        assert(res@ =~= Preview::start(show_head, show_tail));
        res
    }

    /// Whether anything is shown at all.
    pub fn active(&self) -> (res: bool)
        ensures
            res == self@.active(),
            res <==> self@.show_head || self@.show_tail,
    {
        self.show_head || self.show_tail
    }

    /// Takes the unfinished line for a line. Returns what is to be printed
    /// for it, if it is one of the first lines.
    pub fn finish_line(&mut self) -> (text: Option<String>)
        requires
            old(self)@.bounded(),
        ensures
            final(self)@ == old(self)@.with_lines(seq![old(self)@.partial], seq![]),
            final(self)@.valid(),
            text is Some <==> old(self)@.show_head && old(self)@.head_remaining > 0,
            text matches Some(t) ==> t@ == lines::line_text(old(self)@.partial),
            final(self)@.show_head == old(self)@.show_head,
            final(self)@.show_tail == old(self)@.show_tail,
            final(self)@.partial.len() == 0,
            final(self)@.head_remaining == old(self)@.head_remaining - (if text is Some {
                1int
            } else {
                0int
            }),
            final(self)@.tail == (if !old(self)@.show_tail {
                old(self)@.tail
            } else if old(self)@.tail.len() < 50 {
                old(self)@.tail.push(old(self)@.partial)
            } else {
                old(self)@.tail.subrange(1, 50).push(old(self)@.partial)
            }),
    {
        let mut line: Vec<u8> = Vec::new();
        std::mem::swap(&mut line, &mut self.partial_line);
        let mut text: Option<String> = None;
        if self.show_head && self.head_remaining > 0 {
            self.head_remaining = self.head_remaining - 1;
            text = Some(lines::emit_line(line.as_slice()));
        }
        if self.show_tail {
            if self.tail_buf.len() == TAIL_LINES {
                self.tail_buf.pop_front();
            }
            self.tail_buf.push_back(line);
        }
        proof {
            let before = old(self)@;
            let new = seq![before.partial];
            assert(self@.tail =~= before.with_lines(new, seq![]).tail);
            assert(self@ =~= before.with_lines(new, seq![]));
            if before.tail.len() < 50 {
                assert(before.tail + new =~= before.tail.push(before.partial));
            } else {
                assert((before.tail + new).skip(1) =~= before.tail.subrange(1, 50).push(
                    before.partial,
                ));
            }
        }
        text
    }

    /// Takes a chunk of output. Returns what is to be printed now.
    #[verifier::rlimit(40)]
    pub fn feed(&mut self, data: &[u8]) -> (out: Vec<String>)
        requires
            old(self)@.valid(),
        ensures
            final(self)@ == old(self)@.fed(data@),
            final(self)@.valid(),
            out.deep_view() == texts(old(self)@.shown_by(data@)),
            out@.len() == old(self)@.head_remaining - final(self)@.head_remaining,
            out@.len() > 0 ==> old(self)@.show_head,
            final(self)@.show_head == old(self)@.show_head,
            final(self)@.show_tail == old(self)@.show_tail,
    {
        proof {
            law_a_chunk_is_cut_into_lines(self@.partial, data@);
            law_a_chunk_moves_the_preview(self@, data@);
            law_one_text_for_each_line(self@.shown_by(data@));
        }
        let mut out: Vec<String> = Vec::new();
        if !self.active() {
            assert(out.deep_view() =~= texts(old(self)@.shown_by(data@)));
            return out;
        }
        let ghost before = self@;
        let ghost p = self@.partial;
        // The lines up to the last newline before `i`, which is at `start - 1`.
        let mut start: usize = 0;
        let mut i: usize = 0;
        proof {
            lemma_nothing_cut(before);
            assert(p + data@.take(0) =~= p);
            lemma_no_lines(before);
            assert(out.deep_view() =~= texts(before.head_of(seq![])));
        }
        while i < data.len()
            invariant
                start <= i <= data@.len(),
                start > 0 ==> data@[start - 1] == lines::NEWLINE,
                before.valid(),
                before.partial == p,
                lines::no_newline(data@.subrange(start as int, i as int)),
                self@.partial == lines::unfinished_line(p + data@.take(start as int)),
                self@ == before.with_lines(
                    lines::full_lines(p + data@.take(start as int)),
                    self@.partial,
                ),
                self@.bounded(),
                out.deep_view() == texts(
                    before.head_of(lines::full_lines(p + data@.take(start as int))),
                ),
            decreases data@.len() - i,
        {
            if data[i] == lines::NEWLINE {
                let ghost s0 = p + data@.take(start as int);
                let ghost piece = data@.subrange(start as int, i as int);
                let ghost done = lines::full_lines(s0);
                self.partial_line.extend_from_slice(slice_subrange(data, start, i + 1));
                let ghost line = self.partial_line@;
                proof {
                    assert(line =~= (lines::unfinished_line(s0) + piece).push(lines::NEWLINE));
                    assert(self@ =~= before.with_lines(done, line));
                    lemma_line_completed(s0, piece);
                    assert(p + data@.take(i + 1) =~= (s0 + piece).push(lines::NEWLINE));
                    assert(lines::full_lines(p + data@.take(i + 1)) == done.push(line));
                    lemma_lines_in_turn(before, done, line, seq![line], seq![]);
                    assert(done + seq![line] =~= done.push(line));
                }
                let ghost out0 = out.deep_view();
                let ghost now = self@;
                match self.finish_line() {
                    Some(text) => {
                        out.push(text);
                        assert(out.deep_view() =~= out0.push(lines::line_text(line)));
                        assert(texts(now.head_of(seq![line])) =~= seq![lines::line_text(line)]);
                    },
                    None => {
                        assert(texts(now.head_of(seq![line])) =~= seq![]);
                    },
                }
                proof {
                    lemma_texts_joined(before.head_of(done), now.head_of(seq![line]));
                    assert(out.deep_view() =~= out0 + texts(now.head_of(seq![line])));
                }
                start = i + 1;
                assert(data@.subrange(start as int, i + 1) =~= seq![]);
            } else {
                assert(data@.subrange(start as int, i + 1) =~= data@.subrange(
                    start as int,
                    i as int,
                ).push(data@[i as int]));
            }
            i = i + 1;
        }
        let ghost s0 = p + data@.take(start as int);
        let ghost piece = data@.subrange(start as int, data@.len() as int);
        let ghost done = lines::full_lines(s0);
        proof {
            lines::lemma_extend_line(s0, piece);
            assert(p + data@ =~= s0 + piece);
            lines::law_lines_end_at_newlines(p + data@);
        }
        if start < data.len() {
            self.partial_line.extend_from_slice(slice_subrange(data, start, data.len()));
            let ghost line = self.partial_line@;
            proof {
                assert(line =~= lines::unfinished_line(s0) + piece);
                assert(self@ =~= before.with_lines(done, line));
            }
            // A line that never ends is shown in parts.
            if self.partial_line.len() > MAX_UNFINISHED {
                proof {
                    lemma_lines_in_turn(before, done, line, seq![line], seq![]);
                    assert(done + seq![line] =~= done.push(line));
                }
                let ghost out0 = out.deep_view();
                let ghost now = self@;
                match self.finish_line() {
                    Some(text) => {
                        out.push(text);
                        assert(out.deep_view() =~= out0.push(lines::line_text(line)));
                        assert(texts(now.head_of(seq![line])) =~= seq![lines::line_text(line)]);
                    },
                    None => {
                        assert(texts(now.head_of(seq![line])) =~= seq![]);
                    },
                }
                proof {
                    lemma_texts_joined(before.head_of(done), now.head_of(seq![line]));
                    assert(out.deep_view() =~= out0 + texts(now.head_of(seq![line])));
                }
            }
        } else {
            proof {
                assert(piece =~= seq![]);
                assert(lines::unfinished_line(s0) + piece =~= lines::unfinished_line(s0));
                lemma_rest_is_short(before, data@);
            }
        }
        out
    }

    /// Ends the output. Returns what is to be printed now: the last lines.
    pub fn flush_tail(&mut self) -> (out: Vec<String>)
        requires
            old(self)@.valid(),
        ensures
            final(self)@ == old(self)@.flushed(),
            final(self)@.valid(),
            out.deep_view() == texts(old(self)@.shown_at_end()),
            !old(self)@.show_head && !old(self)@.show_tail ==> out@.len() == 0,
            final(self)@.show_head == old(self)@.show_head,
            final(self)@.show_tail == old(self)@.show_tail,
            final(self)@.partial.len() == 0,
    {
        let ghost before = self@;
        let mut out: Vec<String> = Vec::new();
        if !self.partial_line.is_empty() {
            match self.finish_line() {
                Some(text) => {
                    out.push(text);
                },
                None => {},
            }
        } else {
            proof {
                lemma_no_lines(before);
            }
        }
        assert(self@ == before.flushed());
        let ghost head = before.head_of(before.final_lines());
        assert(out.deep_view() =~= texts(head));
        if self.show_tail {
            let mut i: usize = 0;
            assert(self@.tail.take(0) =~= seq![]);
            assert(head + self@.tail.take(0) =~= head);
            while i < self.tail_buf.len()
                invariant
                    i <= self.tail_buf@.len(),
                    self@ == before.flushed(),
                    out.deep_view() == texts(head + self@.tail.take(i as int)),
                decreases self.tail_buf@.len() - i,
            {
                let ghost out0 = out.deep_view();
                let text = lines::emit_line(self.tail_buf[i].as_slice());
                out.push(text);
                proof {
                    let line = self@.tail[i as int];
                    assert(head + self@.tail.take(i + 1) =~= (head + self@.tail.take(i as int)).push(
                        line,
                    ));
                    assert(out.deep_view() =~= out0.push(lines::line_text(line)));
                    assert(out.deep_view() =~= texts(head + self@.tail.take(i + 1)));
                }
                i = i + 1;
            }
            assert(self@.tail.take(i as int) =~= self@.tail);
        } else {
            assert(head + Seq::<Seq<u8>>::empty() =~= head);
        }
        out
    }
}

/// What is printed for some lines and then some more.
pub proof fn lemma_texts_joined(a: Seq<Seq<u8>>, b: Seq<Seq<u8>>)
    ensures
        texts(a + b) == texts(a) + texts(b),
{
    assert(texts(a + b) =~= texts(a) + texts(b));
}

proof fn lemma_no_lines(p: Preview)
    requires
        p.bounded(),
    ensures
        p.head_of(seq![]) == Seq::<Seq<u8>>::empty(),
        p.with_lines(seq![], p.partial) == p,
{
    assert(p.tail + Seq::<Seq<u8>>::empty() =~= p.tail);
    assert(p.with_lines(seq![], p.partial) =~= p);
}

/// The unfinished line alone holds no full line.
proof fn lemma_nothing_cut(p: Preview)
    requires
        p.valid(),
    ensures
        lines::full_lines(p.partial) == Seq::<Seq<u8>>::empty(),
        lines::unfinished_line(p.partial) == p.partial,
{
    lines::lemma_extend_line(Seq::<u8>::empty(), p.partial);
    assert(Seq::<u8>::empty() + p.partial =~= p.partial);
}

/// A newline after `piece` completes the line.
proof fn lemma_line_completed(s: Seq<u8>, piece: Seq<u8>)
    requires
        lines::no_newline(piece),
    ensures
        lines::full_lines((s + piece).push(lines::NEWLINE)) == lines::full_lines(s).push(
            (lines::unfinished_line(s) + piece).push(lines::NEWLINE),
        ),
        lines::unfinished_line((s + piece).push(lines::NEWLINE)) == Seq::<u8>::empty(),
{
    lines::lemma_extend_line(s, piece);
    assert((s + piece).push(lines::NEWLINE).drop_last() =~= s + piece);
}

/// Lines may come all at once or in two parts.
proof fn lemma_lines_in_turn(
    p: Preview,
    a: Seq<Seq<u8>>,
    partial_a: Seq<u8>,
    b: Seq<Seq<u8>>,
    partial_b: Seq<u8>,
)
    requires
        p.bounded(),
    ensures
        p.with_lines(a, partial_a).bounded(),
        p.with_lines(a, partial_a).with_lines(b, partial_b) == p.with_lines(a + b, partial_b),
        p.head_of(a) + p.with_lines(a, partial_a).head_of(b) == p.head_of(a + b),
{
    let q = p.with_lines(a, partial_a);
    assert(p.head_of(a) + q.head_of(b) =~= p.head_of(a + b));
    let n = TAIL_LINES as nat;
    assert(last_lines(last_lines(p.tail + a, n) + b, n) =~= last_lines(p.tail + (a + b), n));
    assert(q.with_lines(b, partial_b) =~= p.with_lines(a + b, partial_b));
}

/// Where a chunk ends in a newline or is empty, the unfinished line is short.
proof fn lemma_rest_is_short(p: Preview, chunk: Seq<u8>)
    requires
        p.valid(),
        chunk.len() == 0 || chunk.last() == lines::NEWLINE,
    ensures
        lines::unfinished_line(p.partial + chunk).len() <= MAX_UNFINISHED,
{
    if chunk.len() == 0 {
        assert(p.partial + chunk =~= p.partial);
        lemma_nothing_cut(p);
    }
}

/// The state after some chunks of output.
pub open spec fn after_chunks(p: Preview, chunks: Seq<Seq<u8>>) -> Preview
    decreases chunks.len(),
{
    if chunks.len() == 0 {
        p
    } else {
        after_chunks(p, chunks.drop_last()).fed(chunks.last())
    }
}

/// The lines that are shown as some chunks of output come.
pub open spec fn shown_by_chunks(p: Preview, chunks: Seq<Seq<u8>>) -> Seq<Seq<u8>>
    decreases chunks.len(),
{
    if chunks.len() == 0 {
        seq![]
    } else {
        shown_by_chunks(p, chunks.drop_last()) + after_chunks(p, chunks.drop_last()).shown_by(
            chunks.last(),
        )
    }
}

/// The lines that are shown of output that comes in some chunks and then ends.
pub open spec fn shown_in_all(p: Preview, chunks: Seq<Seq<u8>>) -> Seq<Seq<u8>> {
    shown_by_chunks(p, chunks) + after_chunks(p, chunks).shown_at_end()
}

/// The unfinished line after some chunks of output.
pub open spec fn pending(chunks: Seq<Seq<u8>>) -> Seq<u8>
    decreases chunks.len(),
{
    if chunks.len() == 0 {
        seq![]
    } else {
        chunk_rest(pending(chunks.drop_last()), chunks.last())
    }
}

/// The lines that some chunks of output complete.
pub open spec fn completed(chunks: Seq<Seq<u8>>) -> Seq<Seq<u8>>
    decreases chunks.len(),
{
    if chunks.len() == 0 {
        seq![]
    } else {
        completed(chunks.drop_last()) + chunk_lines(pending(chunks.drop_last()), chunks.last())
    }
}

/// The lines of output that comes in some chunks and then ends.
pub open spec fn output_lines(chunks: Seq<Seq<u8>>) -> Seq<Seq<u8>> {
    if pending(chunks).len() == 0 {
        completed(chunks)
    } else {
        completed(chunks).push(pending(chunks))
    }
}

/// Every state that output leads to is valid: at most 50 first lines are
/// left, at most 50 last lines are kept, and the unfinished line is short.
pub proof fn law_tracker_stays_valid(p: Preview, chunks: Seq<Seq<u8>>)
    requires
        p.valid(),
    ensures
        after_chunks(p, chunks).valid(),
        after_chunks(p, chunks).flushed().valid(),
    decreases chunks.len(),
{
    if chunks.len() > 0 {
        law_tracker_stays_valid(p, chunks.drop_last());
        let q = after_chunks(p, chunks.drop_last());
        lines::law_lines_end_at_newlines(q.partial + chunks.last());
    }
}

proof fn lemma_state_after_chunks(p: Preview, chunks: Seq<Seq<u8>>)
    requires
        p.active(),
        p.bounded(),
        p.partial == Seq::<u8>::empty(),
    ensures
        after_chunks(p, chunks) == p.with_lines(completed(chunks), pending(chunks)),
        shown_by_chunks(p, chunks) == p.head_of(completed(chunks)),
    decreases chunks.len(),
{
    if chunks.len() == 0 {
        lemma_no_lines(p);
    } else {
        let front = chunks.drop_last();
        lemma_state_after_chunks(p, front);
        lemma_lines_in_turn(
            p,
            completed(front),
            pending(front),
            chunk_lines(pending(front), chunks.last()),
            pending(chunks),
        );
    }
}

/// With the head asked for, the first 50 lines are shown as soon as they are
/// complete.
pub proof fn law_head_is_shown_as_it_comes(show_tail: bool, chunks: Seq<Seq<u8>>)
    ensures
        shown_by_chunks(Preview::start(true, show_tail), chunks) == first_lines(
            completed(chunks),
            50,
        ),
{
    lemma_state_after_chunks(Preview::start(true, show_tail), chunks);
}

/// With the head asked for, the first 50 lines of the output are shown, then,
/// with the tail asked for, its last 50 lines; with neither, nothing.
pub proof fn law_preview_is_head_then_tail(
    show_head: bool,
    show_tail: bool,
    chunks: Seq<Seq<u8>>,
)
    ensures
        shown_in_all(Preview::start(show_head, show_tail), chunks) == (if show_head {
            first_lines(output_lines(chunks), 50)
        } else {
            seq![]
        }) + (if show_tail {
            last_lines(output_lines(chunks), 50)
        } else {
            seq![]
        }),
    decreases chunks.len(),
{
    let p = Preview::start(show_head, show_tail);
    let expected = (if show_head {
        first_lines(output_lines(chunks), 50)
    } else {
        seq![]
    }) + (if show_tail {
        last_lines(output_lines(chunks), 50)
    } else {
        seq![]
    });
    if p.active() {
        lemma_state_after_chunks(p, chunks);
        let q = after_chunks(p, chunks);
        lemma_lines_in_turn(p, completed(chunks), pending(chunks), q.final_lines(), seq![]);
        assert(completed(chunks) + q.final_lines() =~= output_lines(chunks));
        assert(p.tail + output_lines(chunks) =~= output_lines(chunks));
        assert(shown_in_all(p, chunks) =~= p.head_of(output_lines(chunks)) + if show_tail {
            q.flushed().tail
        } else {
            seq![]
        });
        assert(shown_in_all(p, chunks) =~= expected);
    } else {
        lemma_nothing_shown(p, chunks);
        assert(shown_in_all(p, chunks) =~= expected);
    }
}

proof fn lemma_nothing_shown(p: Preview, chunks: Seq<Seq<u8>>)
    requires
        !p.active(),
    ensures
        after_chunks(p, chunks) == p,
        shown_by_chunks(p, chunks) == Seq::<Seq<u8>>::empty(),
    decreases chunks.len(),
{
    if chunks.len() > 0 {
        lemma_nothing_shown(p, chunks.drop_last());
        assert(shown_by_chunks(p, chunks) =~= seq![]);
    }
}

/// The lines that the preview is made of are the whole output: no byte is
/// lost, added or moved, wherever the chunks begin and end.
pub proof fn law_output_lines_keep_every_byte(chunks: Seq<Seq<u8>>)
    ensures
        output_lines(chunks).flatten() == chunks.flatten(),
{
    lemma_completed_keep_every_byte(chunks);
    if pending(chunks).len() == 0 {
        assert(completed(chunks).flatten() + pending(chunks) =~= completed(chunks).flatten());
    } else {
        completed(chunks).lemma_flatten_push(pending(chunks));
    }
}

proof fn lemma_completed_keep_every_byte(chunks: Seq<Seq<u8>>)
    ensures
        completed(chunks).flatten() + pending(chunks) == chunks.flatten(),
    decreases chunks.len(),
{
    if chunks.len() == 0 {
        assert(completed(chunks).flatten() + pending(chunks) =~= chunks.flatten());
    } else {
        let front = chunks.drop_last();
        let s = pending(front) + chunks.last();
        lemma_completed_keep_every_byte(front);
        lines::law_lines_keep_every_byte(s);
        lemma_flatten_last(chunks);
        vstd::seq_lib::lemma_flatten_concat(
            completed(front),
            chunk_lines(pending(front), chunks.last()),
        );
        lines::full_lines(s).lemma_flatten_push(lines::unfinished_line(s));
        assert(chunk_lines(pending(front), chunks.last()).flatten() + pending(chunks) =~= s);
        assert(completed(chunks).flatten() + pending(chunks) =~= completed(front).flatten() + s);
        assert(completed(front).flatten() + s =~= (completed(front).flatten() + pending(front))
            + chunks.last());
    }
}

proof fn lemma_flatten_last(chunks: Seq<Seq<u8>>)
    requires
        chunks.len() > 0,
    ensures
        chunks.flatten() == chunks.drop_last().flatten() + chunks.last(),
{
    chunks.drop_last().lemma_flatten_push(chunks.last());
    assert(chunks.drop_last().push(chunks.last()) =~= chunks);
}

/// Whether no line is still unfinished, and longer than 8192 bytes, when more
/// output comes.
pub open spec fn no_overlong_wait(chunks: Seq<Seq<u8>>) -> bool {
    forall|k: int|
        0 <= k < chunks.len() && (#[trigger] chunks[k]).len() > 0 ==> lines::unfinished_line(
            chunks.take(k).flatten(),
        ).len() <= MAX_UNFINISHED
}

/// The lines that the preview is made of are those of the output, however it
/// is cut into chunks, unless a chunk ends within an overlong line.
pub proof fn law_output_lines_are_lines_of_output(chunks: Seq<Seq<u8>>)
    requires
        no_overlong_wait(chunks),
    ensures
        output_lines(chunks) == lines::all_lines(chunks.flatten()),
{
    lemma_completed_are_full_lines(chunks);
}

proof fn lemma_completed_are_full_lines(chunks: Seq<Seq<u8>>)
    requires
        no_overlong_wait(chunks),
    ensures
        ({
            let s = chunks.flatten();
            if lines::unfinished_line(s).len() > MAX_UNFINISHED {
                &&& completed(chunks) == lines::full_lines(s).push(lines::unfinished_line(s))
                &&& pending(chunks) == Seq::<u8>::empty()
            } else {
                &&& completed(chunks) == lines::full_lines(s)
                &&& pending(chunks) == lines::unfinished_line(s)
            }
        }),
    decreases chunks.len(),
{
    if chunks.len() > 0 {
        let front = chunks.drop_last();
        let chunk = chunks.last();
        let n = chunks.len() - 1;
        assert(chunks.take(n) =~= front);
        assert forall|k: int| 0 <= k < front.len() && (#[trigger] front[k]).len() > 0 implies lines::unfinished_line(
            front.take(k).flatten(),
        ).len() <= MAX_UNFINISHED by {
            assert(chunks[k] == front[k]);
            assert(chunks.take(k) =~= front.take(k));
        }
        lemma_completed_are_full_lines(front);
        lemma_flatten_last(chunks);
        if chunk.len() == 0 {
            assert(chunks.flatten() =~= front.flatten());
            assert(pending(front) + chunk =~= pending(front));
            lines::law_lines_end_at_newlines(front.flatten());
            lines::lemma_extend_line(Seq::<u8>::empty(), pending(front));
            assert(Seq::<u8>::empty() + pending(front) =~= pending(front));
            assert(completed(chunks) =~= completed(front));
        } else {
            assert(chunks[n].len() > 0);
            lines::lemma_lines_of_joined(front.flatten(), chunk);
            assert(completed(chunks) =~= completed(front) + chunk_lines(pending(front), chunk));
        }
    }
}

/// Each line is printed as one text, in the same order.
pub proof fn law_one_text_for_each_line(lines: Seq<Seq<u8>>)
    ensures
        texts(lines).len() == lines.len(),
        forall|i: int|
            0 <= i < lines.len() ==> #[trigger] texts(lines)[i] == lines::line_text(lines[i]),
{
}

/// The first `n` lines are those with the lowest numbers, the last `n` those
/// with the highest, and all of them where there are no more than `n`.
pub proof fn law_first_and_last_lines(lines: Seq<Seq<u8>>, n: nat)
    ensures
        ({
            let first = first_lines(lines, n);
            let last = last_lines(lines, n);
            let k = if lines.len() < n {
                lines.len()
            } else {
                n
            };
            &&& first.len() == k
            &&& last.len() == k
            &&& forall|i: int| 0 <= i < k ==> #[trigger] first[i] == lines[i]
            &&& forall|i: int| 0 <= i < k ==> #[trigger] last[i] == lines[lines.len() - k + i]
        }),
{
}

/// A chunk is cut into lines together with the unfinished line before it. No
/// byte is lost, added or moved. Each line ends at the byte 10, which it holds
/// nowhere else, or, if it is the last one and longer than 8192 bytes, at the
/// end of the chunk. What is left is no longer than 8192 bytes and has no end.
pub proof fn law_a_chunk_is_cut_into_lines(partial: Seq<u8>, chunk: Seq<u8>)
    ensures
        ({
            let new = chunk_lines(partial, chunk);
            let rest = chunk_rest(partial, chunk);
            let n = new.len() as int;
            &&& new.flatten() + rest == partial + chunk
            &&& forall|i: int| 0 <= i < n ==> (#[trigger] new[i]).len() > 0
            &&& forall|i: int, j: int|
                0 <= i < n && 0 <= j < new[i].len() - 1 ==> #[trigger] new[i][j] != 10
            &&& forall|i: int| 0 <= i < n - 1 ==> (#[trigger] new[i])[new[i].len() - 1] == 10
            &&& n > 0 ==> new[n - 1][new[n - 1].len() - 1] == 10 || (new[n - 1].len() > 8192
                && rest.len() == 0)
            &&& rest.len() <= 8192
            &&& forall|j: int| 0 <= j < rest.len() ==> #[trigger] rest[j] != 10
        }),
{
    let s = partial + chunk;
    let new = chunk_lines(partial, chunk);
    let rest = chunk_rest(partial, chunk);
    let full = lines::full_lines(s);
    let last = lines::unfinished_line(s);
    lines::law_lines_are_cut_after_each_newline(s);
    full.lemma_flatten_push(last);
    assert(new.flatten() + rest =~= s);
    assert forall|i: int| 0 <= i < new.len() implies (#[trigger] new[i]).len() > 0 by {
        if i < full.len() {
            assert(new[i] == full[i]);
        }
    }
    assert forall|i: int, j: int| 0 <= i < new.len() && 0 <= j < new[i].len() - 1 implies
        #[trigger] new[i][j] != 10 by {
        if i < full.len() {
            assert(new[i] == full[i]);
            assert(full[i][j] != 10);
        } else {
            assert(new[i] == last);
            assert(last[j] != 10);
        }
    }
    assert forall|i: int| 0 <= i < full.len() implies (#[trigger] new[i])[new[i].len() - 1]
        == 10 by {
        assert(new[i] == full[i]);
        assert(full[i][full[i].len() - 1] == 10);
    }
}

/// What a chunk does to the preview, where `new` are the lines that it
/// completes: of these as many are shown as are left of the first lines, if
/// the head is asked for; and the last 50 are kept of those kept before and
/// the new ones, if the tail is asked for. With neither nothing happens.
pub proof fn law_a_chunk_moves_the_preview(p: Preview, chunk: Seq<u8>)
    ensures
        ({
            let new = chunk_lines(p.partial, chunk);
            let shown = p.shown_by(chunk);
            let q = p.fed(chunk);
            let all = p.tail + new;
            let heads = if !p.show_head {
                0int
            } else if new.len() < p.head_remaining {
                new.len() as int
            } else {
                p.head_remaining as int
            };
            let tails = if all.len() < 50 {
                all.len() as int
            } else {
                50int
            };
            &&& q.show_head == p.show_head
            &&& q.show_tail == p.show_tail
            &&& p.show_head || p.show_tail ==> {
                &&& shown.len() == heads
                &&& forall|i: int| 0 <= i < heads ==> #[trigger] shown[i] == new[i]
                &&& q.head_remaining == p.head_remaining - heads
                &&& q.partial == chunk_rest(p.partial, chunk)
            }
            &&& p.show_tail ==> {
                &&& q.tail.len() == tails
                &&& forall|i: int|
                    0 <= i < tails ==> #[trigger] q.tail[i] == all[all.len() - tails + i]
            }
            &&& !p.show_tail ==> q.tail == p.tail
            &&& !p.show_head && !p.show_tail ==> shown.len() == 0 && q == p
        }),
{
}

/// What the end of the output does to the preview: an unfinished line counts
/// as a line; it is shown if one of the first lines is left and the head is
/// asked for; then the last 50 lines are shown, if the tail is asked for.
pub proof fn law_the_end_moves_the_preview(p: Preview)
    ensures
        ({
            let shown = p.shown_at_end();
            let q = p.flushed();
            let all = if p.partial.len() > 0 {
                p.tail.push(p.partial)
            } else {
                p.tail
            };
            let heads = if p.show_head && p.head_remaining > 0 && p.partial.len() > 0 {
                1int
            } else {
                0int
            };
            let tails = if !p.show_tail {
                0int
            } else if all.len() < 50 {
                all.len() as int
            } else {
                50int
            };
            &&& shown.len() == heads + tails
            &&& heads == 1 ==> shown[0] == p.partial
            &&& forall|i: int|
                heads <= i < heads + tails ==> #[trigger] shown[i] == all[all.len() - tails + (i
                    - heads)]
            &&& q.show_head == p.show_head
            &&& q.show_tail == p.show_tail
            &&& q.head_remaining == p.head_remaining - heads
            &&& q.partial.len() == 0
            &&& p.show_tail ==> q.tail.len() == tails
            &&& p.show_tail ==> forall|i: int|
                0 <= i < tails ==> #[trigger] q.tail[i] == all[all.len() - tails + i]
            &&& !p.show_tail ==> q.tail == p.tail
        }),
{
    let all = if p.partial.len() > 0 {
        p.tail.push(p.partial)
    } else {
        p.tail
    };
    assert(p.tail + p.final_lines() =~= all);
}

/// The preview begins with 50 first lines to show and no last ones.
pub proof fn law_preview_begins_empty(show_head: bool, show_tail: bool)
    ensures
        ({
            let p = Preview::start(show_head, show_tail);
            &&& p.show_head == show_head
            &&& p.show_tail == show_tail
            &&& p.head_remaining == 50
            &&& p.tail.len() == 0
            &&& p.partial.len() == 0
            &&& p.valid()
            &&& p.active() <==> show_head || show_tail
        }),
{
}

/// A preview is valid if no more than 50 first lines are left to show, no more
/// than 50 last lines are kept, and the unfinished line has no more than 8192
/// bytes, none of them 10.
pub proof fn law_valid_previews(p: Preview)
    ensures
        p.valid() <==> {
            &&& p.head_remaining <= 50
            &&& p.tail.len() <= 50
            &&& p.partial.len() <= 8192
            &&& forall|i: int| 0 <= i < p.partial.len() ==> #[trigger] p.partial[i] != 10
        },
        p.bounded() <==> p.head_remaining <= 50 && p.tail.len() <= 50,
{
}

/// Chunks come one after the other: what is shown, what is left and which
/// lines are complete after one more chunk follows from the chunk and from how
/// things stood before it.
pub proof fn law_chunks_come_in_turn(p: Preview, chunks: Seq<Seq<u8>>, chunk: Seq<u8>)
    ensures
        after_chunks(p, seq![]) == p,
        shown_by_chunks(p, seq![]).len() == 0,
        completed(seq![]).len() == 0,
        pending(seq![]).len() == 0,
        after_chunks(p, chunks.push(chunk)) == after_chunks(p, chunks).fed(chunk),
        shown_by_chunks(p, chunks.push(chunk)) == shown_by_chunks(p, chunks) + after_chunks(
            p,
            chunks,
        ).shown_by(chunk),
        completed(chunks.push(chunk)) == completed(chunks) + chunk_lines(pending(chunks), chunk),
        pending(chunks.push(chunk)) == chunk_rest(pending(chunks), chunk),
        pending(chunks).len() == 0 ==> output_lines(chunks) == completed(chunks),
        pending(chunks).len() > 0 ==> output_lines(chunks) == completed(chunks).push(
            pending(chunks),
        ),
{
    assert(chunks.push(chunk).drop_last() =~= chunks);
}

/// The lines of the output, however it is cut into chunks: joined they are the
/// output; none is empty; none holds the byte 10 but at its end; and each ends
/// in it, but for the last line and for those longer than 8192 bytes.
pub proof fn law_output_is_cut_after_each_newline(chunks: Seq<Seq<u8>>)
    ensures
        ({
            let all = output_lines(chunks);
            let n = all.len() as int;
            &&& all.flatten() == chunks.flatten()
            &&& forall|i: int| 0 <= i < n ==> (#[trigger] all[i]).len() > 0
            &&& forall|i: int, j: int|
                0 <= i < n && 0 <= j < all[i].len() - 1 ==> #[trigger] all[i][j] != 10
            &&& forall|i: int|
                0 <= i < n - 1 ==> (#[trigger] all[i])[all[i].len() - 1] == 10 || all[i].len()
                    > 8192
        }),
{
    law_output_lines_keep_every_byte(chunks);
    lemma_completed_are_cut(chunks);
    let all = output_lines(chunks);
    let done = completed(chunks);
    let last = pending(chunks);
    assert forall|i: int| 0 <= i < all.len() implies (#[trigger] all[i]).len() > 0 by {
        if i < done.len() {
            assert(all[i] == done[i]);
        }
    }
    assert forall|i: int, j: int| 0 <= i < all.len() && 0 <= j < all[i].len() - 1 implies
        #[trigger] all[i][j] != 10 by {
        if i < done.len() {
            assert(all[i] == done[i]);
            assert(done[i][j] != 10);
        } else {
            assert(all[i] == last);
            assert(last[j] != 10);
        }
    }
    assert forall|i: int| 0 <= i < all.len() - 1 implies (#[trigger] all[i])[all[i].len() - 1] == 10
        || all[i].len() > 8192 by {
        assert(all[i] == done[i]);
    }
}

proof fn lemma_completed_are_cut(chunks: Seq<Seq<u8>>)
    ensures
        ({
            let done = completed(chunks);
            let n = done.len() as int;
            let last = pending(chunks);
            &&& forall|i: int| 0 <= i < n ==> (#[trigger] done[i]).len() > 0
            &&& forall|i: int, j: int|
                0 <= i < n && 0 <= j < done[i].len() - 1 ==> #[trigger] done[i][j] != 10
            &&& forall|i: int|
                0 <= i < n ==> (#[trigger] done[i])[done[i].len() - 1] == 10 || done[i].len() > 8192
            &&& last.len() <= 8192
            &&& forall|j: int| 0 <= j < last.len() ==> #[trigger] last[j] != 10
        }),
    decreases chunks.len(),
{
    if chunks.len() > 0 {
        let front = chunks.drop_last();
        let earlier = completed(front);
        let new = chunk_lines(pending(front), chunks.last());
        let done = completed(chunks);
        lemma_completed_are_cut(front);
        law_a_chunk_is_cut_into_lines(pending(front), chunks.last());
        let k = earlier.len() as int;
        assert forall|i: int| 0 <= i < done.len() implies (#[trigger] done[i]).len() > 0 && (
        done[i][done[i].len() - 1] == 10 || done[i].len() > 8192) by {
            if i < k {
                assert(done[i] == earlier[i]);
            } else {
                assert(done[i] == new[i - k]);
            }
        }
        assert forall|i: int, j: int| 0 <= i < done.len() && 0 <= j < done[i].len() - 1 implies
            #[trigger] done[i][j] != 10 by {
            if i < k {
                assert(done[i] == earlier[i]);
                assert(earlier[i][j] != 10);
            } else {
                assert(done[i] == new[i - k]);
                assert(new[i - k][j] != 10);
            }
        }
    }
}

/// What is shown of output that comes in some chunks and then ends, line by
/// line: the first 50 lines, if the head is asked for, and then the last 50,
/// if the tail is asked for.
pub proof fn law_preview_line_by_line(show_head: bool, show_tail: bool, chunks: Seq<Seq<u8>>)
    ensures
        ({
            let p = Preview::start(show_head, show_tail);
            let shown = shown_by_chunks(p, chunks) + after_chunks(p, chunks).shown_at_end();
            let all = output_lines(chunks);
            let n = all.len() as int;
            let few = if n < 50 {
                n
            } else {
                50
            };
            let heads = if show_head {
                few
            } else {
                0
            };
            let tails = if show_tail {
                few
            } else {
                0
            };
            &&& shown.len() == heads + tails
            &&& forall|i: int| 0 <= i < heads ==> #[trigger] shown[i] == all[i]
            &&& forall|i: int|
                heads <= i < heads + tails ==> #[trigger] shown[i] == all[n - tails + (i - heads)]
        }),
{
    law_preview_is_head_then_tail(show_head, show_tail, chunks);
}

/// The first lines are shown no later than they are complete: after each chunk
/// as many lines have been shown as are complete, up to 50, and with the tail
/// alone none.
pub proof fn law_first_lines_are_never_late(
    show_head: bool,
    show_tail: bool,
    chunks: Seq<Seq<u8>>,
)
    ensures
        ({
            let shown = shown_by_chunks(Preview::start(show_head, show_tail), chunks);
            let done = completed(chunks);
            let heads = if !show_head {
                0
            } else if done.len() < 50 {
                done.len() as int
            } else {
                50
            };
            &&& shown.len() == heads
            &&& forall|i: int| 0 <= i < heads ==> #[trigger] shown[i] == done[i]
        }),
{
    let p = Preview::start(show_head, show_tail);
    if p.active() {
        lemma_state_after_chunks(p, chunks);
    } else {
        lemma_nothing_shown(p, chunks);
    }
}

/// Where no chunk but an empty one comes while a line of more than 8192 bytes
/// is unfinished, the lines that the preview is made of are those of the whole
/// output, wherever it is cut into chunks.
pub proof fn law_cuts_do_not_matter(chunks: Seq<Seq<u8>>)
    requires
        forall|k: int|
            0 <= k < chunks.len() && (#[trigger] chunks[k]).len() > 0 ==> lines::unfinished_line(
                chunks.take(k).flatten(),
            ).len() <= 8192,
    ensures
        output_lines(chunks) == lines::all_lines(chunks.flatten()),
{
    law_output_lines_are_lines_of_output(chunks);
}

} // verus!
