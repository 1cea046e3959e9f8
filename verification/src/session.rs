use vstd::prelude::*;

use crate::error::Error;
use crate::outside::{
    classify_io_error, io_error_class, unexpected_eof_error, IoErrorClass,
};
use crate::transport::{min_nat, read_outcome, Transport};

verus! {

/// The most bytes one transport read asks for while searching for a delimiter.
pub const READ_CHUNK_BYTES: usize = 1024;

/// `delimiter` occurs in `bytes` ending exactly at position `end`.
pub open spec fn delimiter_ends_at(bytes: Seq<u8>, delimiter: Seq<u8>, end: int) -> bool {
    &&& delimiter.len() <= end <= bytes.len()
    &&& bytes.subrange(end - delimiter.len(), end) == delimiter
}

/// Some occurrence of `delimiter` in `bytes` ends at or before `limit`.
pub open spec fn delimiter_within(bytes: Seq<u8>, delimiter: Seq<u8>, limit: int) -> bool {
    exists|end: int| end <= limit && #[trigger] delimiter_ends_at(bytes, delimiter, end)
}

/// `bytes` ends with `delimiter`, and no earlier occurrence ends inside it.
pub open spec fn ends_at_first_delimiter(bytes: Seq<u8>, delimiter: Seq<u8>) -> bool {
    &&& delimiter_ends_at(bytes, delimiter, bytes.len() as int)
    &&& forall|end: int| end < bytes.len() ==> !#[trigger] delimiter_ends_at(bytes, delimiter, end)
}

pub open spec fn is_prefix_of(prefix: Seq<u8>, whole: Seq<u8>) -> bool {
    prefix.len() <= whole.len() && whole.take(prefix.len() as int) == prefix
}

/// The configuration checks that `read_until` makes before any I/O.
pub open spec fn read_until_config_ok(delimiter: Seq<u8>, max_bytes: int) -> bool {
    delimiter.len() > 0 && max_bytes > 0 && delimiter.len() <= max_bytes
}

/// The error a failed transport read becomes: timeouts and would-blocks carry the
/// bytes received so far; anything else is a read failure holding the transport's error.
pub open spec fn is_read_error_for(result: Error, error: std::io::Error, partial: Seq<u8>) -> bool {
    match io_error_class(error) {
        IoErrorClass::TimedOut | IoErrorClass::WouldBlock => result matches Error::Timeout {
            partial: p,
        } && p@ == partial,
        _ => result == Error::ReadFailed(error),
    }
}

/// One call a session made on its transport: what it handed over, what came back, and
/// the transport afterwards.
pub enum IoCall<T> {
    Write { bytes: Seq<u8>, outcome: Result<(), std::io::Error>, after: T },
    Flush { outcome: Result<(), std::io::Error>, after: T },
    Read { room: nat, outcome: Result<Seq<u8>, std::io::Error>, after: T },
}

impl<T> IoCall<T> {
    /// The transport after the call.
    pub open spec fn after(self) -> T {
        match self {
            IoCall::Write { after, .. } => after,
            IoCall::Flush { after, .. } => after,
            IoCall::Read { after, .. } => after,
        }
    }
}

/// The call fits what the transport says its calls do, starting from `before`.
pub open spec fn call_fits<T: Transport>(before: T, call: IoCall<T>) -> bool {
    match call {
        IoCall::Write { bytes, outcome, after } => T::write_step(&before, bytes, outcome, &after),
        IoCall::Flush { outcome, after } => T::flush_step(&before, outcome, &after),
        IoCall::Read { room, outcome, after } => T::read_step(&before, room, outcome, &after),
    }
}

/// The transport before the `k`-th call, when the calls began from `start`.
pub open spec fn state_before<T>(start: T, calls: Seq<IoCall<T>>, k: int) -> T {
    if k <= 0 {
        start
    } else {
        calls[k - 1].after()
    }
}

/// Each call starts from the transport the previous call left, the first from `start`,
/// and fits the transport's own account of its calls.
pub open spec fn calls_chain<T: Transport>(start: T, calls: Seq<IoCall<T>>) -> bool {
    forall|k: int| 0 <= k < calls.len() ==> #[trigger] call_fits(state_before(start, calls, k), calls[k])
}

/// What a `write_all` call gives the session.
pub open spec fn write_result(outcome: Result<(), std::io::Error>) -> Result<(), Error> {
    match outcome {
        Ok(()) => Ok(()),
        Err(error) => Err(Error::WriteFailed(error)),
    }
}

/// What a `flush` call gives the session.
pub open spec fn flush_result(outcome: Result<(), std::io::Error>) -> Result<(), Error> {
    match outcome {
        Ok(()) => Ok(()),
        Err(error) => Err(Error::FlushFailed(error)),
    }
}

/// `calls` are one `write_all` of `bytes`, then, when it succeeded, one `flush`; `result`
/// is what the failing call gave, or success.
pub open spec fn sent_then_flushed<T>(calls: Seq<IoCall<T>>, bytes: Seq<u8>, result: Result<(), Error>) -> bool {
    &&& calls.len() >= 1
    &&& calls[0] matches IoCall::Write { bytes: b, outcome: wrote, .. }
    &&& b == bytes
    &&& match wrote {
        Err(error) => calls.len() == 1 && result == Err::<(), Error>(Error::WriteFailed(error)),
        Ok(()) => {
            &&& calls.len() == 2
            &&& calls[1] matches IoCall::Flush { outcome: flushed, .. }
            &&& result == flush_result(flushed)
        },
    }
}

/// `calls` are one read into a buffer of `room` bytes, and `result` is what that read
/// gave the session: its bytes, or its error mapped as reads map errors.
pub open spec fn read_once<T>(calls: Seq<IoCall<T>>, room: nat, result: Result<Seq<u8>, Error>) -> bool {
    &&& calls.len() == 1
    &&& calls[0] matches IoCall::Read { room: r, outcome, .. }
    &&& r == room
    &&& match outcome {
        Ok(bytes) => result == Ok::<Seq<u8>, Error>(bytes),
        Err(error) => result matches Err(e) && is_read_error_for(e, error, Seq::empty()),
    }
}

/// A read result as bytes.
pub open spec fn bytes_result(result: Result<Vec<u8>, Error>) -> Result<Seq<u8>, Error> {
    match result {
        Ok(bytes) => Ok(bytes@),
        Err(error) => Err(error),
    }
}

/// The bytes a call read: those of a successful read, and none otherwise.
pub open spec fn call_read<T>(call: IoCall<T>) -> Seq<u8> {
    match call {
        IoCall::Read { outcome: Ok(bytes), .. } => bytes,
        _ => Seq::empty(),
    }
}

/// The bytes the successful reads among `calls` gave, in order.
pub open spec fn read_bytes<T>(calls: Seq<IoCall<T>>) -> Seq<u8>
    decreases calls.len(),
{
    if calls.len() == 0 {
        Seq::empty()
    } else {
        read_bytes(calls.drop_last()) + call_read(calls.last())
    }
}

/// The smaller of the read chunk and the room left under `max_bytes`.
pub open spec fn until_room(buffered: nat, max_bytes: int) -> int {
    min_nat(READ_CHUNK_BYTES as int, max_bytes - buffered)
}

/// The reads `read_until` makes after finding `start` buffered: each one is made while no
/// delimiter ends within `max_bytes` and fewer than `max_bytes` bytes are buffered, asks
/// for the read chunk or the room left, whichever is smaller, and every one but the last
/// gave at least one byte.
pub open spec fn until_reads<T>(start: Seq<u8>, calls: Seq<IoCall<T>>, delimiter: Seq<u8>, max_bytes: int) -> bool {
    forall|k: int| 0 <= k < calls.len() ==> {
        let before = start + read_bytes(#[trigger] calls.take(k));
        &&& calls[k] matches IoCall::Read { room, outcome, .. }
        &&& before.len() < max_bytes
        &&& !delimiter_within(before, delimiter, max_bytes)
        &&& room == until_room(before.len(), max_bytes)
        &&& (outcome matches Ok(bytes) ==> bytes.len() <= room)
        &&& (k < calls.len() - 1 ==> (outcome matches Ok(bytes) && bytes.len() > 0))
    }
}

/// Calls that chain from `start` to some transport, followed by calls that chain from
/// there, chain from `start`.
pub proof fn lemma_chain_concat<T: Transport>(start: T, first: Seq<IoCall<T>>, second: Seq<IoCall<T>>)
    requires
        calls_chain(start, first),
        calls_chain(state_before(start, first, first.len() as int), second),
    ensures
        calls_chain(start, first + second),
        state_before(start, first + second, (first + second).len() as int) == state_before(
            state_before(start, first, first.len() as int),
            second,
            second.len() as int,
        ),
{
    let all = first + second;
    let mid = state_before(start, first, first.len() as int);
    let n = first.len() as int;
    assert forall|k: int| 0 <= k < all.len() implies #[trigger] call_fits(
        state_before(start, all, k),
        all[k],
    ) by {
        if k < n {
            assert(all[k] == first[k]);
            assert(state_before(start, all, k) == state_before(start, first, k));
            assert(call_fits(state_before(start, first, k), first[k]));
        } else {
            assert(all[k] == second[k - n]);
            assert(state_before(start, all, k) == state_before(mid, second, k - n));
            assert(call_fits(state_before(mid, second, k - n), second[k - n]));
        }
    }
    if second.len() == 0 {
        assert(all =~= first);
    }
}

/// What `read_until` gives after finding `start` buffered and making `calls`, with `rest`
/// left buffered: `start` and the bytes read are the result followed by `rest` when the
/// delimiter arrived; on a failure nothing is consumed.
pub open spec fn until_outcome<T>(
    start: Seq<u8>,
    calls: Seq<IoCall<T>>,
    delimiter: Seq<u8>,
    max_bytes: int,
    result: Result<Seq<u8>, Error>,
    rest: Seq<u8>,
) -> bool {
    let received = start + read_bytes(calls);
    &&& until_reads(start, calls, delimiter, max_bytes)
    &&& match result {
        Ok(bytes) => {
            &&& forall|k: int| 0 <= k < calls.len() ==> (#[trigger] calls[k] matches IoCall::Read {
                outcome: Ok(b),
                ..
            } && b.len() > 0)
            &&& bytes.len() <= max_bytes
            &&& ends_at_first_delimiter(bytes, delimiter)
            &&& received == bytes + rest
        },
        Err(Error::ReadLimitExceeded { max_bytes: limit, partial }) => {
            &&& forall|k: int| 0 <= k < calls.len() ==> (#[trigger] calls[k] matches IoCall::Read {
                outcome: Ok(b),
                ..
            } && b.len() > 0)
            &&& limit == max_bytes
            &&& rest == received
            &&& received.len() >= max_bytes
            &&& partial@ == received.take(max_bytes)
            &&& !delimiter_within(received, delimiter, max_bytes)
        },
        Err(error) => {
            &&& rest == received
            &&& calls.len() > 0
            &&& received.len() < max_bytes
            &&& !delimiter_within(received, delimiter, max_bytes)
            &&& match calls.last() {
                IoCall::Read { outcome: Err(cause), .. } => is_read_error_for(error, cause, received),
                IoCall::Read { outcome: Ok(b), .. } => b.len() == 0 && (error matches Error::ReadFailed(
                    e,
                ) && io_error_class(e) == IoErrorClass::UnexpectedEof),
                _ => false,
            }
        },
    }
}

/// What a query gives after finding `start` buffered and making `calls`, with `rest` left
/// buffered: one `write_all` of `tx`; if it succeeded, one `flush`; if that succeeded,
/// the reads of `read_until` for `delimiter` within `max_bytes`, or, when the delimiter
/// and limit do not fit, no read and a configuration error.
pub open spec fn query_outcome<T>(
    start: Seq<u8>,
    calls: Seq<IoCall<T>>,
    tx: Seq<u8>,
    delimiter: Seq<u8>,
    max_bytes: int,
    result: Result<Seq<u8>, Error>,
    rest: Seq<u8>,
) -> bool {
    &&& calls.len() >= 1
    &&& calls[0] matches IoCall::Write { bytes: b, outcome: wrote, .. }
    &&& b == tx
    &&& match wrote {
        Err(error) => calls.len() == 1 && result == Err::<Seq<u8>, Error>(Error::WriteFailed(error))
            && rest == start,
        Ok(()) => {
            &&& calls.len() >= 2
            &&& calls[1] matches IoCall::Flush { outcome: flushed, .. }
            &&& match flushed {
                Err(error) => calls.len() == 2 && result == Err::<Seq<u8>, Error>(
                    Error::FlushFailed(error),
                ) && rest == start,
                Ok(()) => if read_until_config_ok(delimiter, max_bytes) {
                    until_outcome(start, calls.skip(2), delimiter, max_bytes, result, rest)
                } else {
                    &&& calls.len() == 2
                    &&& result matches Err(Error::InvalidConfiguration(_))
                    &&& rest == start
                },
            }
        },
    }
}

/// The bytes read by some calls, then some more, are the bytes each part read.
pub proof fn lemma_read_bytes_concat<T>(a: Seq<IoCall<T>>, b: Seq<IoCall<T>>)
    ensures
        read_bytes(a + b) == read_bytes(a) + read_bytes(b),
    decreases b.len(),
{
    if b.len() == 0 {
        assert(a + b =~= a);
        assert(read_bytes(a) + Seq::<u8>::empty() =~= read_bytes(a));
    } else {
        assert((a + b).drop_last() =~= a + b.drop_last());
        assert((a + b).last() == b.last());
        lemma_read_bytes_concat(a, b.drop_last());
        assert(read_bytes(a) + (read_bytes(b.drop_last()) + call_read(b.last())) =~= (read_bytes(a)
            + read_bytes(b.drop_last())) + call_read(b.last()));
    }
}

/// A serial session: a transport plus the bytes received but not yet consumed.
pub struct SerialSession<T: Transport> {
    transport: T,
    rx: Vec<u8>,
    calls: Ghost<Seq<IoCall<T>>>,
    taken: Ghost<Seq<u8>>,
}

impl<T: Transport> SerialSession<T> {
    /// Bytes received from the transport and not yet returned to a caller.
    pub closed spec fn buffered(&self) -> Seq<u8> {
        self.rx@
    }

    /// The session's transport.
    pub closed spec fn spec_transport(&self) -> T {
        self.transport
    }

    /// Every call the session has made on its transport, in order.
    pub closed spec fn io_calls(&self) -> Seq<IoCall<T>> {
        self.calls@
    }

    /// Every byte the session has handed to its callers, in order.
    pub closed spec fn delivered(&self) -> Seq<u8> {
        self.taken@
    }

    /// No byte is lost or made up: the bytes handed out, then those still buffered, are
    /// exactly the bytes the transport's reads gave.
    pub open spec fn conserves(&self) -> bool {
        self.delivered() + self.buffered() == read_bytes(self.io_calls())
    }

    /// The calls made since the session was `earlier`.
    pub open spec fn calls_since(&self, earlier: Self) -> Seq<IoCall<T>> {
        self.io_calls().skip(earlier.io_calls().len() as int)
    }

    /// A session has made no calls since itself.
    pub proof fn lemma_made_no_calls(&self)
        ensures
            self.made_calls(*self),
            self.calls_since(*self) == Seq::<IoCall<T>>::empty(),
    {
        assert(self.calls_since(*self) =~= Seq::<IoCall<T>>::empty());
        assert(self.io_calls() =~= self.io_calls() + Seq::<IoCall<T>>::empty());
    }

    /// Calls made from `first` to `second`, then from `second` to `self`, are calls made
    /// from `first` to `self`: those of the first stretch, then those of the second.
    pub proof fn lemma_made_calls_trans(&self, first: Self, second: Self)
        requires
            second.made_calls(first),
            self.made_calls(second),
        ensures
            self.made_calls(first),
            self.calls_since(first) == second.calls_since(first) + self.calls_since(second),
    {
        let x = second.calls_since(first);
        let y = self.calls_since(second);
        assert(self.io_calls() =~= first.io_calls() + (x + y));
        assert(self.calls_since(first) =~= x + y);
        lemma_chain_concat(first.spec_transport(), x, y);
    }

    /// The session became `self` from `earlier` by the calls it made since: the record
    /// grew by them alone, they chain from the earlier transport, and the last of them
    /// left the transport the session now holds.
    pub open spec fn made_calls(&self, earlier: Self) -> bool {
        let calls = self.calls_since(earlier);
        &&& earlier.io_calls().len() <= self.io_calls().len()
        &&& self.io_calls() == earlier.io_calls() + calls
        &&& calls_chain(earlier.spec_transport(), calls)
        &&& self.spec_transport() == state_before(earlier.spec_transport(), calls, calls.len() as int)
    }

    pub fn new(transport: T) -> (session: Self)
        ensures
            session.spec_transport() == transport,
            session.buffered() == Seq::<u8>::empty(),
            session.io_calls() == Seq::<IoCall<T>>::empty(),
            session.delivered() == Seq::<u8>::empty(),
            session.conserves(),
    {
        SerialSession { transport, rx: Vec::new(), calls: Ghost(Seq::empty()), taken: Ghost(Seq::empty()) }
    }

    /// Hands `bytes` to the transport's `write_all`, once.
    pub fn write_all(&mut self, bytes: &[u8]) -> (result: Result<(), Error>)
        ensures
            final(self).buffered() == old(self).buffered(),
            final(self).made_calls(*old(self)),
            final(self).calls_since(*old(self)).len() == 1,
            final(self).calls_since(*old(self))[0] matches IoCall::Write { bytes: b, outcome, .. }
                && b == bytes@ && result == write_result(outcome),
            final(self).delivered() == old(self).delivered(),
            old(self).conserves() ==> final(self).conserves(),
    {
        let outcome = self.transport.write_all(bytes);
        let ghost call = IoCall::Write { bytes: bytes@, outcome, after: self.transport };
        proof {
            self.calls@ = self.calls@.push(call);
            assert(self.calls@.skip(old(self).calls@.len() as int) =~= seq![call]);
            assert(seq![call][0] == call);
            assert(call_fits(state_before(old(self).transport, seq![call], 0), seq![call][0]));
            assert(self.calls@ =~= old(self).calls@ + seq![call]);
            assert(state_before(old(self).transport, seq![call], 1) == self.transport);
            assert(self.calls@.drop_last() =~= old(self).calls@);
            assert(read_bytes(self.calls@) =~= read_bytes(old(self).calls@) + call_read(call));
        }
        match outcome {
            Ok(()) => Ok(()),
            Err(error) => Err(Error::WriteFailed(error)),
        }
    }

    /// Calls the transport's `flush`, once.
    pub fn flush(&mut self) -> (result: Result<(), Error>)
        ensures
            final(self).buffered() == old(self).buffered(),
            final(self).made_calls(*old(self)),
            final(self).calls_since(*old(self)).len() == 1,
            final(self).calls_since(*old(self))[0] matches IoCall::Flush { outcome, .. } && result
                == flush_result(outcome),
            final(self).delivered() == old(self).delivered(),
            old(self).conserves() ==> final(self).conserves(),
    {
        let outcome = self.transport.flush();
        let ghost call = IoCall::Flush { outcome, after: self.transport };
        proof {
            self.calls@ = self.calls@.push(call);
            assert(self.calls@.skip(old(self).calls@.len() as int) =~= seq![call]);
            assert(seq![call][0] == call);
            assert(call_fits(state_before(old(self).transport, seq![call], 0), seq![call][0]));
            assert(self.calls@ =~= old(self).calls@ + seq![call]);
            assert(state_before(old(self).transport, seq![call], 1) == self.transport);
            assert(self.calls@.drop_last() =~= old(self).calls@);
            assert(read_bytes(self.calls@) =~= read_bytes(old(self).calls@) + call_read(call));
        }
        match outcome {
            Ok(()) => Ok(()),
            Err(error) => Err(Error::FlushFailed(error)),
        }
    }

    /// Reads into `buffer`, serving buffered bytes first; only when nothing is buffered
    /// does it read from the transport, once, into the whole buffer.
    pub fn read(&mut self, buffer: &mut [u8]) -> (result: Result<usize, Error>)
        ensures
            final(buffer)@.len() == old(buffer)@.len(),
            result matches Ok(count) ==> count <= old(buffer)@.len(),
            final(self).made_calls(*old(self)),
            final(self).delivered() == old(self).delivered() + match result {
                Ok(count) => final(buffer)@.take(count as int),
                Err(_) => Seq::<u8>::empty(),
            },
            old(self).conserves() ==> final(self).conserves(),
            old(buffer)@.len() == 0 ==> {
                &&& result matches Ok(count) && count == 0
                &&& *final(self) == *old(self)
                &&& final(buffer)@ == old(buffer)@
            },
            old(buffer)@.len() > 0 && old(self).buffered().len() > 0 ==> {
                let count = min_nat(old(buffer)@.len() as int, old(self).buffered().len() as int);
                &&& result matches Ok(n) && n == count
                &&& final(buffer)@ == old(self).buffered().take(count) + old(buffer)@.skip(count)
                &&& final(self).buffered() == old(self).buffered().skip(count)
                &&& final(self).spec_transport() == old(self).spec_transport()
                &&& final(self).io_calls() == old(self).io_calls()
            },
            old(buffer)@.len() > 0 && old(self).buffered().len() == 0 ==> {
                let calls = final(self).calls_since(*old(self));
                &&& final(self).buffered() == Seq::<u8>::empty()
                &&& calls.len() == 1
                &&& calls[0] matches IoCall::Read { room, outcome, .. }
                &&& room == old(buffer)@.len()
                &&& match outcome {
                    Ok(bytes) => result matches Ok(count) && count == bytes.len()
                        && final(buffer)@.take(bytes.len() as int) == bytes,
                    Err(error) => result matches Err(e) && is_read_error_for(e, error, Seq::empty()),
                }
            },
    {
        if buffer.len() == 0 {
            proof {
                assert(self.calls@.skip(self.calls@.len() as int) =~= Seq::<IoCall<T>>::empty());
                assert(self.taken@ + buffer@.take(0) =~= self.taken@);
            }
            return Ok(0);
        }
        if self.rx.len() > 0 {
            let count = if buffer.len() < self.rx.len() { buffer.len() } else { self.rx.len() };
            let mut i: usize = 0;
            while i < count
                invariant
                    i <= count,
                    count <= self.rx@.len(),
                    count <= old(buffer)@.len(),
                    buffer@.len() == old(buffer)@.len(),
                    self.rx@ == old(self).rx@,
                    buffer@ =~= self.rx@.take(i as int) + old(buffer)@.skip(i as int),
                decreases count - i,
            {
                buffer[i] = self.rx[i];
                i = i + 1;
                assert(buffer@ =~= self.rx@.take(i as int) + old(buffer)@.skip(i as int));
            }
            proof {
                self.taken@ = self.taken@ + self.rx@.take(count as int);
                assert(buffer@.take(count as int) =~= self.rx@.take(count as int));
                assert(self.rx@ =~= self.rx@.take(count as int) + self.rx@.skip(count as int));
            }
            let rest = self.rx.split_off(count);
            self.rx = rest;
            proof {
                assert(self.calls@.skip(self.calls@.len() as int) =~= Seq::<IoCall<T>>::empty());
                assert(self.taken@ + self.rx@ =~= old(self).taken@ + old(self).rx@);
            }
            return Ok(count);
        }
        let room = buffer.len();
        let result = self.transport.read(buffer);
        let ghost call = IoCall::Read {
            room: room as nat,
            outcome: read_outcome(result, buffer@),
            after: self.transport,
        };
        proof {
            self.calls@ = self.calls@.push(call);
            assert(self.calls@.skip(old(self).calls@.len() as int) =~= seq![call]);
            assert(seq![call][0] == call);
            assert(call_fits(state_before(old(self).transport, seq![call], 0), seq![call][0]));
            assert(self.calls@ =~= old(self).calls@ + seq![call]);
            assert(state_before(old(self).transport, seq![call], 1) == self.transport);
            assert(self.calls@.drop_last() =~= old(self).calls@);
            assert(read_bytes(self.calls@) =~= read_bytes(old(self).calls@) + call_read(call));
        }
        proof {
            match result {
                Ok(count) => {
                    self.taken@ = self.taken@ + buffer@.take(count as int);
                },
                Err(_) => {
                    assert(self.taken@ + Seq::<u8>::empty() =~= self.taken@);
                },
            }
            assert(self.rx@ =~= Seq::<u8>::empty());
        }
        match result {
            Ok(count) => Ok(count),
            Err(error) => Err(Self::map_read_error(error, Vec::new())),
        }
    }

    /// Returns the bytes through the first occurrence of `delimiter`, which must end
    /// within `max_bytes`. Bytes after the delimiter stay buffered, and on failure every
    /// byte received stays buffered: what was buffered and what the transport gave,
    /// together, are the result followed by what stays buffered.
    pub fn read_until(&mut self, delimiter: &[u8], max_bytes: usize) -> (result: Result<
        Vec<u8>,
        Error,
    >)
        ensures
            !read_until_config_ok(delimiter@, max_bytes as int) <==> result matches Err(
                Error::InvalidConfiguration(_),
            ),
            !read_until_config_ok(delimiter@, max_bytes as int) ==> *final(self) == *old(self),
            final(self).delivered() == old(self).delivered() + match result {
                Ok(bytes) => bytes@,
                Err(_) => Seq::<u8>::empty(),
            },
            old(self).conserves() ==> final(self).conserves(),
            read_until_config_ok(delimiter@, max_bytes as int) ==> {
                &&& final(self).made_calls(*old(self))
                &&& until_outcome(
                    old(self).buffered(),
                    final(self).calls_since(*old(self)),
                    delimiter@,
                    max_bytes as int,
                    bytes_result(result),
                    final(self).buffered(),
                )
            },
    {
        if delimiter.len() == 0 {
            assert(self.taken@ + Seq::<u8>::empty() =~= self.taken@);
            return Err(Error::InvalidConfiguration("delimiter must not be empty"));
        }
        if max_bytes == 0 || delimiter.len() > max_bytes {
            assert(self.taken@ + Seq::<u8>::empty() =~= self.taken@);
            return Err(Error::InvalidConfiguration("max bytes must be at least the delimiter length"));
        }
        let ghost start = old(self).rx@;
        let ghost n0 = old(self).calls@.len();
        proof {
            assert(self.calls@.skip(n0 as int) =~= Seq::<IoCall<T>>::empty());
            assert(start + read_bytes(Seq::<IoCall<T>>::empty()) =~= start);
        }
        loop
            invariant
                read_until_config_ok(delimiter@, max_bytes as int),
                start == old(self).rx@,
                n0 == old(self).calls@.len(),
                n0 <= self.calls@.len(),
                self.calls@ == old(self).calls@ + self.calls@.skip(n0 as int),
                calls_chain(old(self).transport, self.calls@.skip(n0 as int)),
                self.transport == state_before(
                    old(self).transport,
                    self.calls@.skip(n0 as int),
                    self.calls@.len() - n0,
                ),
                until_reads(start, self.calls@.skip(n0 as int), delimiter@, max_bytes as int),
                forall|k: int| 0 <= k < self.calls@.len() - n0 ==> (#[trigger] self.calls@.skip(n0 as int)[k] matches IoCall::Read { outcome: Ok(b), .. } && b.len() > 0),
                self.rx@ == start + read_bytes(self.calls@.skip(n0 as int)),
                self.taken@ == old(self).taken@,
            decreases max_bytes - self.rx@.len(),
        {
            let ghost calls = self.calls@.skip(n0 as int);
            proof {
                lemma_read_bytes_concat(old(self).calls@, calls);
                let r = read_bytes(calls);
                assert(self.taken@ + self.rx@ =~= (self.taken@ + start) + r);
                assert(self.taken@ + Seq::<u8>::empty() =~= self.taken@);
            }
            match find_delimiter_end(&self.rx, delimiter, max_bytes) {
                Some(end) => {
                    let ghost before = self.rx@;
                    let rest = self.rx.split_off(end);
                    let mut found = rest;
                    std::mem::swap(&mut found, &mut self.rx);
                    proof {
                        assert(found@ =~= before.take(end as int));
                        assert(before =~= found@ + self.rx@);
                        assert(delimiter_ends_at(found@, delimiter@, end as int)) by {
                            assert(found@.subrange(end - delimiter@.len(), end as int)
                                =~= before.subrange(end - delimiter@.len(), end as int));
                        }
                        assert forall|e: int| e < found@.len() implies !#[trigger] delimiter_ends_at(
                            found@,
                            delimiter@,
                            e,
                        ) by {
                            if delimiter_ends_at(found@, delimiter@, e) {
                                assert(found@.subrange(e - delimiter@.len(), e) =~= before.subrange(
                                    e - delimiter@.len(),
                                    e,
                                ));
                                assert(delimiter_ends_at(before, delimiter@, e));
                            }
                        }
                    }
                    proof {
                        self.taken@ = self.taken@ + found@;
                        assert(self.taken@ + self.rx@ =~= old(self).taken@ + before);
                    }
                    return Ok(found);
                },
                None => {},
            }
            if self.rx.len() >= max_bytes {
                let partial = prefix_copy(&self.rx, max_bytes);
                return Err(Error::ReadLimitExceeded { max_bytes, partial });
            }
            let room = max_bytes - self.rx.len();
            let read_size = if room < READ_CHUNK_BYTES { room } else { READ_CHUNK_BYTES };
            let mut buffer: Vec<u8> = vec![0u8; read_size];
            let ghost rx_before = self.rx@;
            let outcome = self.transport.read(buffer.as_mut_slice());
            let ghost call = IoCall::Read {
                room: read_size as nat,
                outcome: read_outcome(outcome, buffer@),
                after: self.transport,
            };
            proof {
                let k = calls.len() as int;
                self.calls@ = self.calls@.push(call);
                let now = self.calls@.skip(n0 as int);
                assert(now =~= calls.push(call));
                assert(now.take(k) =~= calls);
                assert(now.drop_last() =~= calls);
                assert(state_before(old(self).transport, now, k) == state_before(old(self).transport, calls, k));
                assert forall|j: int| 0 <= j < now.len() implies #[trigger] call_fits(
                    state_before(old(self).transport, now, j),
                    now[j],
                ) by {
                    if j < k {
                        assert(now[j] == calls[j]);
                        assert(state_before(old(self).transport, now, j) == state_before(old(self).transport, calls, j));
                    }
                }
                assert forall|j: int| 0 <= j < k implies #[trigger] now.take(j) == calls.take(j) by {
                    assert(now.take(j) =~= calls.take(j));
                }
            }
            match outcome {
                Err(error) => {
                    let partial = prefix_copy(&self.rx, self.rx.len());
                    assert(partial@ =~= self.rx@);
                    proof {
                        let now = self.calls@.skip(n0 as int);
                        assert(read_bytes(now) =~= read_bytes(calls));
                        lemma_read_bytes_concat(old(self).calls@, now);
                        assert(self.calls@ =~= old(self).calls@ + now);
                    }
                    return Err(Self::map_read_error(error, partial));
                },
                Ok(count) => {
                    if count == 0 {
                        proof {
                            let now = self.calls@.skip(n0 as int);
                            assert(read_bytes(now) =~= read_bytes(calls));
                            lemma_read_bytes_concat(old(self).calls@, now);
                            assert(self.calls@ =~= old(self).calls@ + now);
                        }
                        return Err(Error::ReadFailed(unexpected_eof_error("transport returned zero bytes")));
                    }
                    buffer.truncate(count);
                    let ghost got = buffer@;
                    self.rx.append(&mut buffer);
                    proof {
                        let now = self.calls@.skip(n0 as int);
                        assert(read_bytes(now) =~= read_bytes(calls) + got);
                        assert(self.rx@ =~= rx_before + got);
                    }
                },
            }
        }
    }

    pub fn transport(&self) -> (transport: &T)
        ensures
            *transport == self.spec_transport(),
    {
        &self.transport
    }

    pub fn buffered_len(&self) -> (count: usize)
        ensures
            count == self.buffered().len(),
    {
        self.rx.len()
    }

    fn map_read_error(error: std::io::Error, partial: Vec<u8>) -> (result: Error)
        ensures
            is_read_error_for(result, error, partial@),
    {
        match classify_io_error(&error) {
            IoErrorClass::TimedOut | IoErrorClass::WouldBlock => Error::Timeout { partial },
            IoErrorClass::UnexpectedEof | IoErrorClass::Other => Error::ReadFailed(error),
        }
    }
}

/// The first `count` bytes of `bytes`, copied.
fn prefix_copy(bytes: &Vec<u8>, count: usize) -> (copy: Vec<u8>)
    requires
        count <= bytes@.len(),
    ensures
        copy@ == bytes@.take(count as int),
{
    let mut copy: Vec<u8> = Vec::new();
    let mut i: usize = 0;
    while i < count
        invariant
            i <= count,
            count <= bytes@.len(),
            copy@ =~= bytes@.take(i as int),
        decreases count - i,
    {
        copy.push(bytes[i]);
        i = i + 1;
        assert(copy@ =~= bytes@.take(i as int));
    }
    copy
}

/// Whether `delimiter` occurs in `bytes` starting at `start`.
fn matches_at(bytes: &Vec<u8>, delimiter: &[u8], start: usize) -> (matched: bool)
    requires
        start + delimiter@.len() <= bytes@.len(),
    ensures
        matched == (bytes@.subrange(start as int, start + delimiter@.len()) == delimiter@),
{
    let blen = bytes.len();
    let mut i: usize = 0;
    while i < delimiter.len()
        invariant
            i <= delimiter@.len(),
            blen == bytes@.len(),
            start + delimiter@.len() <= bytes@.len(),
            forall|j: int| 0 <= j < i ==> bytes@[start + j] == delimiter@[j],
        decreases delimiter@.len() - i,
    {
        if bytes[start + i] != delimiter[i] {
            assert(bytes@.subrange(start as int, start + delimiter@.len())[i as int] != delimiter@[i as int]);
            return false;
        }
        i = i + 1;
    }
    assert(bytes@.subrange(start as int, start + delimiter@.len()) =~= delimiter@);
    true
}

/// The smallest end position, at most `limit`, of an occurrence of `delimiter`.
fn find_delimiter_end(bytes: &Vec<u8>, delimiter: &[u8], limit: usize) -> (found: Option<usize>)
    requires
        delimiter@.len() > 0,
    ensures
        match found {
            Some(end) => {
                &&& end <= limit
                &&& delimiter_ends_at(bytes@, delimiter@, end as int)
                &&& forall|e: int| e < end ==> !#[trigger] delimiter_ends_at(bytes@, delimiter@, e)
            },
            None => !delimiter_within(bytes@, delimiter@, limit as int),
        },
{
    let dlen = delimiter.len();
    let stop = if limit < bytes.len() { limit } else { bytes.len() };
    if dlen > stop {
        assert forall|e: int| e <= limit implies !#[trigger] delimiter_ends_at(bytes@, delimiter@, e) by {}
        return None;
    }
    let mut start: usize = 0;
    while start <= stop - dlen
        invariant
            dlen == delimiter@.len(),
            dlen > 0,
            stop <= limit,
            stop <= bytes@.len(),
            dlen <= stop,
            start <= stop - dlen + 1,
            forall|e: int| e < start + dlen ==> !#[trigger] delimiter_ends_at(bytes@, delimiter@, e),
        decreases stop - start,
    {
        if matches_at(bytes, delimiter, start) {
            return Some(start + dlen);
        }
        start = start + 1;
    }
    assert forall|e: int| e <= limit implies !#[trigger] delimiter_ends_at(bytes@, delimiter@, e) by {}
    None
}

} // verus!
