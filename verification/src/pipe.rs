//! Reading a pipe until it ends and handing on what it holds.

use vstd::prelude::*;
use vstd::slice::{slice_subrange, slice_to_vec};

verus! {

/// How many bytes are read at once.
pub const BUF_SIZE: usize = 8192;

/// What has happened to a reader.
#[derive(Clone, Copy, Debug, PartialEq, Eq, Structural)]
pub enum PipeEvent {
    /// A read has put so many bytes at the front of the buffer.
    Read(usize),
    /// A read was interrupted before it got anything.
    Interrupted,
    /// A read failed for another reason.
    Failed,
    /// What was to be sent has been sent.
    Sent,
    /// Nobody receives what is sent any more.
    ReceiverGone,
}

/// What a reader does next.
#[derive(Debug)]
pub enum PipeAction {
    /// Read into the buffer.
    Read,
    /// Send these bytes.
    Send(Vec<u8>),
    /// End.
    Stop,
}

/// Whether a reader ends at an event.
pub open spec fn ends_at(event: PipeEvent) -> bool {
    event == PipeEvent::Read(0) || event == PipeEvent::Failed || event == PipeEvent::ReceiverGone
}

/// What a reader sends at an event, if anything, where `buf` is the buffer.
pub open spec fn sent_at(event: PipeEvent, buf: Seq<u8>) -> Option<Seq<u8>> {
    match event {
        PipeEvent::Read(n) => if n > 0 {
            Some(buf.take(n as int))
        } else {
            None
        },
        _ => None,
    }
}

/// What a reader of a pipe does after an event, where `buf` is its buffer.
pub fn pipe_reader(event: PipeEvent, buf: &[u8]) -> (action: PipeAction)
    requires
        event matches PipeEvent::Read(n) ==> n <= buf@.len(),
    ensures
        action is Stop <==> ends_at(event),
        action is Send <==> sent_at(event, buf@) is Some,
        action matches PipeAction::Send(bytes) ==> sent_at(event, buf@) == Some(bytes@),
        event matches PipeEvent::Read(n) ==> if n == 0 {
            action is Stop
        } else {
            action matches PipeAction::Send(bytes) && bytes@ == buf@.subrange(0, n as int)
        },
        event is Interrupted || event is Sent ==> action is Read,
        event is Failed || event is ReceiverGone ==> action is Stop,
{
    match event {
        PipeEvent::Read(n) => if n == 0 {
            PipeAction::Stop
        } else {
            PipeAction::Send(slice_to_vec(slice_subrange(buf, 0, n)))
        },
        PipeEvent::Interrupted => PipeAction::Read,
        PipeEvent::Sent => PipeAction::Read,
        PipeEvent::Failed => PipeAction::Stop,
        PipeEvent::ReceiverGone => PipeAction::Stop,
    }
}

/// What a reader sends over some events, each with the buffer at that time.
pub open spec fn sent_over(events: Seq<(PipeEvent, Seq<u8>)>) -> Seq<Seq<u8>>
    decreases events.len(),
{
    if events.len() == 0 || ends_at(events[0].0) {
        seq![]
    } else {
        let later = sent_over(events.drop_first());
        match sent_at(events[0].0, events[0].1) {
            Some(bytes) => seq![bytes] + later,
            None => later,
        }
    }
}

/// The chunks that some successful reads have put into the buffer.
pub open spec fn chunks_read(events: Seq<(PipeEvent, Seq<u8>)>) -> Seq<Seq<u8>>
    decreases events.len(),
{
    if events.len() == 0 {
        seq![]
    } else {
        let later = chunks_read(events.drop_first());
        match events[0].0 {
            PipeEvent::Read(n) => seq![events[0].1.take(n as int)] + later,
            _ => later,
        }
    }
}

/// Until a reader ends it hands on everything that it reads, chunk by chunk
/// and in order.
pub proof fn law_everything_read_is_sent(events: Seq<(PipeEvent, Seq<u8>)>)
    requires
        forall|i: int|
            0 <= i < events.len() ==> (#[trigger] events[i]).0 != PipeEvent::Read(0)
                && events[i].0 != PipeEvent::Failed && events[i].0 != PipeEvent::ReceiverGone,
    ensures
        sent_over(events) == chunks_read(events),
    decreases events.len(),
{
    if events.len() > 0 {
        let rest = events.drop_first();
        assert forall|i: int| 0 <= i < rest.len() implies (#[trigger] rest[i]).0 != PipeEvent::Read(
            0,
        ) && rest[i].0 != PipeEvent::Failed && rest[i].0 != PipeEvent::ReceiverGone by {
            assert(rest[i] == events[i + 1]);
        }
        assert(!ends_at(events[0].0));
        law_everything_read_is_sent(rest);
    }
}

/// An interrupted read changes nothing: what is sent is the same without it.
pub proof fn law_interruption_changes_nothing(
    before: Seq<(PipeEvent, Seq<u8>)>,
    buf: Seq<u8>,
    after: Seq<(PipeEvent, Seq<u8>)>,
)
    ensures
        sent_over(before + seq![(PipeEvent::Interrupted, buf)] + after) == sent_over(
            before + after,
        ),
    decreases before.len(),
{
    let events = before + seq![(PipeEvent::Interrupted, buf)] + after;
    let without = before + after;
    if before.len() == 0 {
        assert(events.drop_first() =~= without);
    } else {
        let rest = before.drop_first();
        assert(events[0] == before[0]);
        assert(without[0] == before[0]);
        assert(events.drop_first() =~= rest + seq![(PipeEvent::Interrupted, buf)] + after);
        assert(without.drop_first() =~= rest + after);
        law_interruption_changes_nothing(rest, buf, after);
    }
}

/// Nothing is sent after a reader has ended.
pub proof fn law_nothing_is_sent_after_the_end(
    before: Seq<(PipeEvent, Seq<u8>)>,
    end: (PipeEvent, Seq<u8>),
    after: Seq<(PipeEvent, Seq<u8>)>,
)
    requires
        end.0 == PipeEvent::Read(0) || end.0 == PipeEvent::Failed || end.0
            == PipeEvent::ReceiverGone,
    ensures
        sent_over(before + seq![end] + after) == sent_over(before),
    decreases before.len(),
{
    let events = before + seq![end] + after;
    if before.len() == 0 {
        assert(events[0] == end);
    } else {
        assert(events[0] == before[0]);
        assert(events.drop_first() =~= before.drop_first() + seq![end] + after);
        law_nothing_is_sent_after_the_end(before.drop_first(), end, after);
    }
}

/// A reader ends at a read of nothing, at a failure and when nobody receives
/// any more, and at nothing else: a read of any other number of bytes, an
/// interruption and a completed sending leave it going.
pub proof fn law_reader_ends_at_three_events(n: usize)
    ensures
        ends_at(PipeEvent::Read(n)) <==> n == 0,
        ends_at(PipeEvent::Failed),
        ends_at(PipeEvent::ReceiverGone),
        !ends_at(PipeEvent::Interrupted),
        !ends_at(PipeEvent::Sent),
{
}

/// What is sent at a read is as long as the read was and holds the bytes at
/// the front of the buffer, one by one; at any other event nothing is sent.
pub proof fn law_a_read_is_sent_byte_for_byte(n: usize, buf: Seq<u8>)
    requires
        0 < n <= buf.len(),
    ensures
        sent_at(PipeEvent::Read(n), buf) matches Some(bytes) && bytes.len() == n && forall|i: int|
            0 <= i < n ==> #[trigger] bytes[i] == buf[i],
        sent_at(PipeEvent::Read(0), buf) is None,
        sent_at(PipeEvent::Interrupted, buf) is None,
        sent_at(PipeEvent::Failed, buf) is None,
        sent_at(PipeEvent::Sent, buf) is None,
        sent_at(PipeEvent::ReceiverGone, buf) is None,
{
}

/// Each read, of however many bytes, adds one chunk to what is sent, between
/// what the events before it and those after it send.
pub proof fn law_each_read_adds_its_chunk(
    before: Seq<(PipeEvent, Seq<u8>)>,
    n: usize,
    buf: Seq<u8>,
    after: Seq<(PipeEvent, Seq<u8>)>,
)
    requires
        0 < n <= buf.len(),
        forall|i: int|
            0 <= i < before.len() ==> (#[trigger] before[i]).0 != PipeEvent::Read(0)
                && before[i].0 != PipeEvent::Failed && before[i].0 != PipeEvent::ReceiverGone,
    ensures
        sent_over(before + seq![(PipeEvent::Read(n), buf)] + after) == sent_over(before) + seq![
            buf.subrange(0, n as int),
        ] + sent_over(after),
    decreases before.len(),
{
    let read = (PipeEvent::Read(n), buf);
    let events = before + seq![read] + after;
    if before.len() == 0 {
        assert(events[0] == read);
        assert(events.drop_first() =~= after);
        assert(sent_over(before) =~= seq![]);
    } else {
        let rest = before.drop_first();
        assert(events[0] == before[0]);
        assert(events.drop_first() =~= rest + seq![read] + after);
        assert forall|i: int| 0 <= i < rest.len() implies (#[trigger] rest[i]).0 != PipeEvent::Read(
            0,
        ) && rest[i].0 != PipeEvent::Failed && rest[i].0 != PipeEvent::ReceiverGone by {
            assert(rest[i] == before[i + 1]);
        }
        law_each_read_adds_its_chunk(rest, n, buf, after);
        assert(!ends_at(before[0].0));
    }
}

/// A completed sending adds nothing to what is sent, and without events
/// nothing is sent.
pub proof fn law_sending_adds_nothing(
    before: Seq<(PipeEvent, Seq<u8>)>,
    buf: Seq<u8>,
    after: Seq<(PipeEvent, Seq<u8>)>,
)
    ensures
        sent_over(before + seq![(PipeEvent::Sent, buf)] + after) == sent_over(before + after),
        sent_over(seq![]).len() == 0,
    decreases before.len(),
{
    let events = before + seq![(PipeEvent::Sent, buf)] + after;
    let without = before + after;
    if before.len() == 0 {
        assert(events.drop_first() =~= without);
    } else {
        let rest = before.drop_first();
        assert(events[0] == before[0]);
        assert(without[0] == before[0]);
        assert(events.drop_first() =~= rest + seq![(PipeEvent::Sent, buf)] + after);
        assert(without.drop_first() =~= rest + after);
        law_sending_adds_nothing(rest, buf, after);
    }
}

} // verus!
