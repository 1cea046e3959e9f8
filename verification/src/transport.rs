use std::collections::VecDeque;
use vstd::prelude::*;

use crate::outside::{io_error_class, timed_out_error, IoErrorClass};
use crate::session::{
    call_fits, call_read, calls_chain, read_bytes, state_before, IoCall, SerialSession,
};

verus! {

/// What a read gave: the bytes placed at the front of the buffer, or the error.
pub open spec fn read_outcome(result: Result<usize, std::io::Error>, filled: Seq<u8>) -> Result<
    Seq<u8>,
    std::io::Error,
> {
    match result {
        Ok(count) => Ok(filled.take(count as int)),
        Err(error) => Err(error),
    }
}

/// Raw byte I/O underneath a serial session.
///
/// Implementations promise what `std::io::Read` promises of a read: the count of bytes
/// placed in the buffer is at most the buffer's length. An implementation that keeps a
/// model of itself states, through `read_step`, `write_step` and `flush_step`, what each
/// call does to that model and gives back; one that keeps none leaves them at `true`,
/// which promises nothing.
pub trait Transport {
    /// A read into a buffer of `room` bytes may take `before` to `after` and give
    /// `outcome`.
    open spec fn read_step(
        before: &Self,
        room: nat,
        outcome: Result<Seq<u8>, std::io::Error>,
        after: &Self,
    ) -> bool {
        true
    }

    /// A `write_all` of `bytes` may take `before` to `after` and give `outcome`.
    open spec fn write_step(
        before: &Self,
        bytes: Seq<u8>,
        outcome: Result<(), std::io::Error>,
        after: &Self,
    ) -> bool {
        true
    }

    /// A `flush` may take `before` to `after` and give `outcome`.
    open spec fn flush_step(before: &Self, outcome: Result<(), std::io::Error>, after: &Self) -> bool {
        true
    }

    fn read(&mut self, buffer: &mut [u8]) -> (result: Result<usize, std::io::Error>)
        ensures
            final(buffer)@.len() == old(buffer)@.len(),
            result matches Ok(count) ==> count <= old(buffer)@.len(),
            Self::read_step(
                old(self),
                old(buffer)@.len() as nat,
                read_outcome(result, final(buffer)@),
                final(self),
            ),
    ;

    fn write_all(&mut self, bytes: &[u8]) -> (result: Result<(), std::io::Error>)
        ensures
            Self::write_step(old(self), bytes@, result, final(self)),
    ;

    fn flush(&mut self) -> (result: Result<(), std::io::Error>)
        ensures
            Self::flush_step(old(self), result, final(self)),
    ;
}

/// The chunks that remain once empty chunks at the front are dropped.
pub open spec fn skip_empty_chunks(chunks: Seq<Seq<u8>>) -> Seq<Seq<u8>>
    decreases chunks.len(),
{
    if chunks.len() > 0 && chunks[0].len() == 0 {
        skip_empty_chunks(chunks.drop_first())
    } else {
        chunks
    }
}

/// The number of bytes held in a sequence of chunks.
pub open spec fn total_len(chunks: Seq<Seq<u8>>) -> nat
    decreases chunks.len(),
{
    if chunks.len() == 0 {
        0
    } else {
        total_len(chunks.drop_last()) + chunks.last().len()
    }
}

pub open spec fn min_nat(a: int, b: int) -> int {
    if a <= b {
        a
    } else {
        b
    }
}

/// A deterministic transport: reads hand out preloaded (or looped-back) chunks in order,
/// and writes are captured.
#[derive(Debug)]
pub struct SimulationTransport {
    rx_chunks: VecDeque<Vec<u8>>,
    tx: Vec<u8>,
    loopback: bool,
}

impl SimulationTransport {
    /// The chunks still to be read, in order.
    pub closed spec fn pending_chunks(&self) -> Seq<Seq<u8>> {
        self.rx_chunks@.map_values(|chunk: Vec<u8>| chunk@)
    }

    /// Every byte written so far, in order.
    pub closed spec fn captured(&self) -> Seq<u8> {
        self.tx@
    }

    /// Whether each write is also queued as a chunk to be read.
    pub closed spec fn is_loopback(&self) -> bool {
        self.loopback
    }

    pub fn with_rx_chunks(chunks: Vec<Vec<u8>>) -> (transport: Self)
        ensures
            transport.pending_chunks() == chunks@.map_values(|chunk: Vec<u8>| chunk@),
            transport.captured() == Seq::<u8>::empty(),
            !transport.is_loopback(),
    {
        let mut rx_chunks: VecDeque<Vec<u8>> = VecDeque::new();
        let mut remaining = chunks;
        let ghost all = remaining@;
        while remaining.len() > 0
            invariant
                remaining@ == all.take(remaining@.len() as int),
                rx_chunks@ == all.skip(remaining@.len() as int),
                remaining@.len() <= all.len(),
            decreases remaining.len(),
        {
            let ghost before = remaining@.len();
            let chunk = remaining.pop().unwrap();
            rx_chunks.push_front(chunk);
            assert(rx_chunks@ =~= all.skip(remaining@.len() as int));
            assert(remaining@ =~= all.take(remaining@.len() as int));
        }
        assert(rx_chunks@ =~= all);
        proof {
            assert(rx_chunks@.map_values(|chunk: Vec<u8>| chunk@) =~= chunks@.map_values(|chunk: Vec<u8>| chunk@));
        }
        SimulationTransport { rx_chunks, tx: Vec::new(), loopback: false }
    }
}

impl SimulationTransport {
    pub fn loopback() -> (transport: Self)
        ensures
            transport.pending_chunks() == Seq::<Seq<u8>>::empty(),
            transport.captured() == Seq::<u8>::empty(),
            transport.is_loopback(),
    {
        let transport = SimulationTransport { rx_chunks: VecDeque::new(), tx: Vec::new(), loopback: true };
        assert(transport.pending_chunks() =~= Seq::<Seq<u8>>::empty());
        transport
    }

    pub fn captured_tx(&self) -> (bytes: &[u8])
        ensures
            bytes@ == self.captured(),
    {
        self.tx.as_slice()
    }

    /// The number of bytes waiting to be read.
    pub fn bytes_to_read(&self) -> (count: usize)
        requires
            total_len(self.pending_chunks()) <= usize::MAX,
        ensures
            count == total_len(self.pending_chunks()),
    {
        let ghost chunks = self.pending_chunks();
        let mut total: usize = 0;
        let mut i: usize = 0;
        while i < self.rx_chunks.len()
            invariant
                chunks == self.pending_chunks(),
                chunks.len() == self.rx_chunks@.len(),
                i <= chunks.len(),
                total == total_len(chunks.take(i as int)),
                total_len(chunks) <= usize::MAX,
            decreases self.rx_chunks.len() - i,
        {
            proof {
                assert(chunks.take(i + 1).drop_last() =~= chunks.take(i as int));
                lemma_total_len_prefix(chunks, i + 1);
            }
            total = total + self.rx_chunks[i].len();
            i = i + 1;
        }
        assert(chunks.take(i as int) =~= chunks);
        total
    }
}

/// Dropping chunks from the end never adds bytes.
pub proof fn lemma_total_len_prefix(chunks: Seq<Seq<u8>>, n: int)
    requires
        0 <= n <= chunks.len(),
    ensures
        total_len(chunks.take(n)) <= total_len(chunks),
    decreases chunks.len() - n,
{
    if n < chunks.len() {
        lemma_total_len_prefix(chunks, n + 1);
        assert(chunks.take(n + 1).drop_last() =~= chunks.take(n));
    } else {
        assert(chunks.take(n) =~= chunks);
    }
}

impl Default for SimulationTransport {
    fn default() -> (transport: Self)
        ensures
            transport.pending_chunks() == Seq::<Seq<u8>>::empty(),
            transport.captured() == Seq::<u8>::empty(),
            !transport.is_loopback(),
    {
        let transport = SimulationTransport { rx_chunks: VecDeque::new(), tx: Vec::new(), loopback: false };
        assert(transport.pending_chunks() =~= Seq::<Seq<u8>>::empty());
        transport
    }
}

impl Transport for SimulationTransport {
    /// A read hands out the front chunk (after dropping empty ones), split when the room
    /// is smaller; with nothing pending it times out; a read of no room gives nothing.
    open spec fn read_step(
        before: &Self,
        room: nat,
        outcome: Result<Seq<u8>, std::io::Error>,
        after: &Self,
    ) -> bool {
        &&& after.captured() == before.captured()
        &&& after.is_loopback() == before.is_loopback()
        &&& if room == 0 {
            &&& outcome == Ok::<Seq<u8>, std::io::Error>(Seq::empty())
            &&& after.pending_chunks() == before.pending_chunks()
        } else {
            let pending = skip_empty_chunks(before.pending_chunks());
            if pending.len() == 0 {
                &&& outcome matches Err(error) && io_error_class(error) == IoErrorClass::TimedOut
                &&& after.pending_chunks() == Seq::<Seq<u8>>::empty()
            } else {
                let chunk = pending[0];
                let count = min_nat(room as int, chunk.len() as int);
                &&& outcome == Ok::<Seq<u8>, std::io::Error>(chunk.take(count))
                &&& after.pending_chunks() == if count == chunk.len() {
                    pending.drop_first()
                } else {
                    pending.update(0, chunk.skip(count))
                }
            }
        }
    }

    /// A write always succeeds: the bytes are captured, and in loopback they become the
    /// last pending chunk.
    open spec fn write_step(
        before: &Self,
        bytes: Seq<u8>,
        outcome: Result<(), std::io::Error>,
        after: &Self,
    ) -> bool {
        &&& outcome is Ok
        &&& after.captured() == before.captured() + bytes
        &&& after.is_loopback() == before.is_loopback()
        &&& after.pending_chunks() == if before.is_loopback() {
            before.pending_chunks().push(bytes)
        } else {
            before.pending_chunks()
        }
    }

    /// A flush always succeeds and changes nothing.
    open spec fn flush_step(before: &Self, outcome: Result<(), std::io::Error>, after: &Self) -> bool {
        outcome is Ok && *after == *before
    }

    /// Hands out the front chunk (after dropping empty ones), split when the buffer is
    /// shorter; with nothing pending, fails with a timeout.
    fn read(&mut self, buffer: &mut [u8]) -> (result: Result<usize, std::io::Error>)
        ensures
            final(self).captured() == old(self).captured(),
            final(self).is_loopback() == old(self).is_loopback(),
            old(buffer)@.len() == 0 ==> {
                &&& result matches Ok(count) && count == 0
                &&& final(self).pending_chunks() == old(self).pending_chunks()
                &&& final(buffer)@ == old(buffer)@
            },
            old(buffer)@.len() > 0 ==> {
                let pending = skip_empty_chunks(old(self).pending_chunks());
                if pending.len() == 0 {
                    &&& result matches Err(error) && io_error_class(error) == IoErrorClass::TimedOut
                    &&& final(self).pending_chunks() == Seq::<Seq<u8>>::empty()
                    &&& final(buffer)@ == old(buffer)@
                } else {
                    let chunk = pending[0];
                    let count = min_nat(old(buffer)@.len() as int, chunk.len() as int);
                    &&& result matches Ok(n) && n == count
                    &&& final(buffer)@ == chunk.take(count) + old(buffer)@.skip(count)
                    &&& final(self).pending_chunks() == if count == chunk.len() {
                        pending.drop_first()
                    } else {
                        pending.update(0, chunk.skip(count))
                    }
                }
            },
    {
        if buffer.len() == 0 {
            assert(buffer@.take(0) =~= Seq::<u8>::empty());
            return Ok(0);
        }
        while self.rx_chunks.len() > 0 && self.rx_chunks[0].len() == 0
            invariant
                skip_empty_chunks(self.pending_chunks()) == skip_empty_chunks(
                    old(self).pending_chunks(),
                ),
                self.tx == old(self).tx,
                self.loopback == old(self).loopback,
            decreases self.rx_chunks.len(),
        {
            let ghost before = self.pending_chunks();
            let _ = self.rx_chunks.pop_front();
            assert(self.pending_chunks() =~= before.drop_first());
        }
        let ghost pending = self.pending_chunks();
        assert(skip_empty_chunks(pending) == pending);
        if self.rx_chunks.len() == 0 {
            assert(pending =~= Seq::<Seq<u8>>::empty());
            return Err(timed_out_error("simulation RX exhausted"));
        }
        let mut chunk = self.rx_chunks.pop_front().unwrap();
        assert(self.pending_chunks() =~= pending.drop_first());
        let count = if buffer.len() < chunk.len() { buffer.len() } else { chunk.len() };
        let mut i: usize = 0;
        while i < count
            invariant
                i <= count,
                count <= chunk@.len(),
                count <= old(buffer)@.len(),
                buffer@.len() == old(buffer)@.len(),
                buffer@ =~= chunk@.take(i as int) + old(buffer)@.skip(i as int),
            decreases count - i,
        {
            buffer[i] = chunk[i];
            i = i + 1;
            assert(buffer@ =~= chunk@.take(i as int) + old(buffer)@.skip(i as int));
        }
        if count < chunk.len() {
            let rest = chunk.split_off(count);
            self.rx_chunks.push_front(rest);
            assert(self.pending_chunks() =~= pending.update(0, pending[0].skip(count as int)));
        }
        assert(buffer@.take(count as int) =~= pending[0].take(count as int));
        Ok(count)
    }

    fn write_all(&mut self, bytes: &[u8]) -> (result: Result<(), std::io::Error>)
        ensures
            result is Ok,
            final(self).captured() == old(self).captured() + bytes@,
            final(self).is_loopback() == old(self).is_loopback(),
            final(self).pending_chunks() == if old(self).is_loopback() {
                old(self).pending_chunks().push(bytes@)
            } else {
                old(self).pending_chunks()
            },
    {
        let mut i: usize = 0;
        let ghost start = self.tx@;
        while i < bytes.len()
            invariant
                i <= bytes@.len(),
                self.tx@ =~= start + bytes@.take(i as int),
                self.rx_chunks == old(self).rx_chunks,
                self.loopback == old(self).loopback,
                start == old(self).tx@,
            decreases bytes@.len() - i,
        {
            self.tx.push(bytes[i]);
            i = i + 1;
            assert(self.tx@ =~= start + bytes@.take(i as int));
        }
        assert(bytes@.take(i as int) =~= bytes@);
        if self.loopback {
            let copy = bytes_to_vec(bytes);
            self.rx_chunks.push_back(copy);
            assert(self.pending_chunks() =~= old(self).pending_chunks().push(bytes@));
        }
        Ok(())
    }

    fn flush(&mut self) -> (result: Result<(), std::io::Error>)
        ensures
            result is Ok,
            *final(self) == *old(self),
    {
        Ok(())
    }
}

/// A fresh vector holding the same bytes as the slice.
pub fn bytes_to_vec(bytes: &[u8]) -> (copy: Vec<u8>)
    ensures
        copy@ == bytes@,
{
    let mut copy: Vec<u8> = Vec::new();
    let mut i: usize = 0;
    while i < bytes.len()
        invariant
            i <= bytes@.len(),
            copy@ =~= bytes@.take(i as int),
        decreases bytes@.len() - i,
    {
        copy.push(bytes[i]);
        i = i + 1;
        assert(copy@ =~= bytes@.take(i as int));
    }
    assert(bytes@.take(i as int) =~= bytes@);
    copy
}

/// The bytes of `chunks`, one chunk after another.
pub open spec fn flatten(chunks: Seq<Seq<u8>>) -> Seq<u8>
    decreases chunks.len(),
{
    if chunks.len() == 0 {
        Seq::empty()
    } else {
        chunks[0] + flatten(chunks.drop_first())
    }
}

/// The bytes a call handed over: those of a write, and none otherwise.
pub open spec fn call_written<T>(call: IoCall<T>) -> Seq<u8> {
    match call {
        IoCall::Write { bytes, .. } => bytes,
        _ => Seq::empty(),
    }
}

/// The bytes the writes among `calls` handed over, in order.
pub open spec fn written_bytes<T>(calls: Seq<IoCall<T>>) -> Seq<u8>
    decreases calls.len(),
{
    if calls.len() == 0 {
        Seq::empty()
    } else {
        written_bytes(calls.drop_last()) + call_written(calls.last())
    }
}

proof fn lemma_flatten_skip_empty(chunks: Seq<Seq<u8>>)
    ensures
        flatten(skip_empty_chunks(chunks)) == flatten(chunks),
    decreases chunks.len(),
{
    if chunks.len() > 0 && chunks[0].len() == 0 {
        lemma_flatten_skip_empty(chunks.drop_first());
        assert(flatten(chunks) =~= flatten(chunks.drop_first()));
    }
}

proof fn lemma_flatten_push(chunks: Seq<Seq<u8>>, chunk: Seq<u8>)
    ensures
        flatten(chunks.push(chunk)) == flatten(chunks) + chunk,
    decreases chunks.len(),
{
    if chunks.len() == 0 {
        assert(chunks.push(chunk).drop_first() =~= Seq::<Seq<u8>>::empty());
        assert(flatten(Seq::<Seq<u8>>::empty()) =~= Seq::<u8>::empty());
        assert(chunks.push(chunk)[0] == chunk);
        assert(flatten(chunks.push(chunk)) =~= chunk);
    } else {
        lemma_flatten_push(chunks.drop_first(), chunk);
        assert(chunks.push(chunk).drop_first() =~= chunks.drop_first().push(chunk));
        assert(flatten(chunks.push(chunk)) =~= flatten(chunks) + chunk);
    }
}

/// What one simulated call does to the pending bytes and the captured bytes.
proof fn lemma_simulation_call(before: SimulationTransport, call: IoCall<SimulationTransport>)
    requires
        call_fits(before, call),
    ensures
        call.after().captured() == before.captured() + call_written(call),
        call.after().is_loopback() == before.is_loopback(),
        before.is_loopback() ==> flatten(before.pending_chunks()) + call_written(call) == call_read(
            call,
        ) + flatten(call.after().pending_chunks()),
        !before.is_loopback() ==> flatten(before.pending_chunks()) == call_read(call) + flatten(
            call.after().pending_chunks(),
        ),
{
    let after = call.after();
    let none = Seq::<u8>::empty();
    match call {
        IoCall::Write { bytes, .. } => {
            if before.is_loopback() {
                lemma_flatten_push(before.pending_chunks(), bytes);
            }
            assert(flatten(after.pending_chunks()) =~= none + flatten(after.pending_chunks()));
        },
        IoCall::Flush { .. } => {
            assert(before.captured() + none =~= before.captured());
            assert(flatten(after.pending_chunks()) =~= none + flatten(after.pending_chunks()));
            assert(flatten(before.pending_chunks()) + none =~= flatten(before.pending_chunks()));
        },
        IoCall::Read { room, outcome, .. } => {
            assert(before.captured() + none =~= before.captured());
            assert(flatten(before.pending_chunks()) + none =~= flatten(before.pending_chunks()));
            let c = before.pending_chunks();
            let pending = skip_empty_chunks(c);
            lemma_flatten_skip_empty(c);
            if room == 0 {
                assert(flatten(after.pending_chunks()) =~= none + flatten(after.pending_chunks()));
            } else if pending.len() == 0 {
                assert(flatten(pending) =~= none);
                assert(flatten(after.pending_chunks()) =~= none);
                assert(none + none =~= none);
            } else {
                let chunk = pending[0];
                let count = min_nat(room as int, chunk.len() as int);
                assert(call_read(call) == chunk.take(count));
                assert(chunk =~= chunk.take(count) + chunk.skip(count));
                if count == chunk.len() {
                    assert(chunk.take(count) =~= chunk);
                } else {
                    let rest = pending.update(0, chunk.skip(count));
                    assert(rest.drop_first() =~= pending.drop_first());
                    assert(rest[0] == chunk.skip(count));
                }
                assert(flatten(pending) =~= chunk.take(count) + flatten(after.pending_chunks()));
            }
        },
    }
}

/// The simulation loses and invents no byte, across any calls a session makes on it:
/// everything written is captured, in order; the bytes it had pending (and, in loopback,
/// the bytes written to it) are the bytes its reads gave followed by what is still
/// pending.
pub proof fn lemma_simulation_calls(start: SimulationTransport, calls: Seq<IoCall<SimulationTransport>>)
    requires
        calls_chain(start, calls),
    ensures
        ({
            let end = state_before(start, calls, calls.len() as int);
            &&& end.captured() == start.captured() + written_bytes(calls)
            &&& end.is_loopback() == start.is_loopback()
            &&& start.is_loopback() ==> flatten(start.pending_chunks()) + written_bytes(calls)
                == read_bytes(calls) + flatten(end.pending_chunks())
            &&& !start.is_loopback() ==> flatten(start.pending_chunks()) == read_bytes(calls)
                + flatten(end.pending_chunks())
        }),
    decreases calls.len(),
{
    if calls.len() == 0 {
        assert(start.captured() + Seq::<u8>::empty() =~= start.captured());
        assert(flatten(start.pending_chunks()) + Seq::<u8>::empty() =~= Seq::<u8>::empty() + flatten(start.pending_chunks()));
        assert(Seq::<u8>::empty() + flatten(start.pending_chunks()) =~= flatten(start.pending_chunks()));
    } else {
        let n = calls.len() as int;
        let front = calls.drop_last();
        assert forall|k: int| 0 <= k < front.len() implies #[trigger] call_fits(
            state_before(start, front, k),
            front[k],
        ) by {
            assert(front[k] == calls[k]);
            assert(state_before(start, front, k) == state_before(start, calls, k));
            assert(call_fits(state_before(start, calls, k), calls[k]));
        }
        lemma_simulation_calls(start, front);
        let mid = state_before(start, front, front.len() as int);
        assert(mid == state_before(start, calls, n - 1));
        let call = calls[n - 1];
        assert(call_fits(state_before(start, calls, n - 1), calls[n - 1]));
        lemma_simulation_call(mid, call);
        assert(calls.last() == call);
        assert(written_bytes(calls) == written_bytes(front) + call_written(call));
        assert(read_bytes(calls) == read_bytes(front) + call_read(call));
        assert(state_before(start, calls, n) == call.after());
        let f0 = flatten(start.pending_chunks());
        let f1 = flatten(mid.pending_chunks());
        let f2 = flatten(call.after().pending_chunks());
        let w = call_written(call);
        let r = call_read(call);
        assert(start.captured() + written_bytes(calls) =~= (start.captured() + written_bytes(front))
            + w);
        if start.is_loopback() {
            assert(f0 + written_bytes(calls) =~= (f0 + written_bytes(front)) + w);
            assert((read_bytes(front) + f1) + w =~= read_bytes(front) + (f1 + w));
            assert(read_bytes(front) + (r + f2) =~= read_bytes(calls) + f2);
        } else {
            assert(read_bytes(front) + (r + f2) =~= read_bytes(calls) + f2);
        }
    }
}

/// A session over a simulation hands out every byte the simulation had pending (and, in
/// loopback, every byte written to it) once and in order, and loses none: the bytes it
/// delivered, then those it still buffers, then those the simulation still holds, are
/// what the simulation started with, followed in loopback by what the session wrote.
pub proof fn lemma_session_over_simulation(
    start: SerialSession<SimulationTransport>,
    session: SerialSession<SimulationTransport>,
)
    requires
        start.io_calls() == Seq::<IoCall<SimulationTransport>>::empty(),
        start.delivered() == Seq::<u8>::empty(),
        start.buffered() == Seq::<u8>::empty(),
        session.made_calls(start),
        session.conserves(),
    ensures
        ({
            let origin = start.spec_transport();
            let now = session.spec_transport();
            let written = written_bytes(session.io_calls());
            let handed = session.delivered() + session.buffered();
            &&& now.captured() == origin.captured() + written
            &&& !origin.is_loopback() ==> handed + flatten(now.pending_chunks()) == flatten(
                origin.pending_chunks(),
            )
            &&& origin.is_loopback() ==> handed + flatten(now.pending_chunks()) == flatten(
                origin.pending_chunks(),
            ) + written
        }),
{
    let calls = session.calls_since(start);
    assert(session.io_calls() =~= calls);
    lemma_simulation_calls(start.spec_transport(), calls);
}

} // verus!
