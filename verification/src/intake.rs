//! Buffers for what comes in from a connection, with a limit on their size.

use vstd::prelude::*;

use crate::http;

verus! {

/// The most bytes of a request that are read.
pub const MAX_INCOMING_JSON_BYTES: usize = 2097152;

/// The most bytes of a request that are asked for at once.
pub const REQUEST_CHUNK: usize = 32768;

/// The most bytes of a response that are taken.
pub const MAX_RESPONSE_BYTES: usize = 4194304;

/// The most seconds that reading a response takes.
pub const MAX_RESPONSE_SECONDS: u64 = 10;

/// How many bytes to ask for, given how many have been read.
pub open spec fn request_room(read: int) -> int {
    if read >= MAX_INCOMING_JSON_BYTES {
        0
    } else if MAX_INCOMING_JSON_BYTES - read < REQUEST_CHUNK {
        MAX_INCOMING_JSON_BYTES - read
    } else {
        REQUEST_CHUNK as int
    }
}

/// A request that is being read.
pub struct RequestBuffer {
    bytes: Vec<u8>,
}

impl View for RequestBuffer {
    type V = Seq<u8>;

    closed spec fn view(&self) -> Seq<u8> {
        self.bytes@
    }
}

impl RequestBuffer {
    #[verifier::type_invariant]
    spec fn fits(self) -> bool {
        self.bytes@.len() <= MAX_INCOMING_JSON_BYTES
    }

    /// Nothing read yet.
    pub fn new() -> (b: RequestBuffer)
        ensures
            b@ == Seq::<u8>::empty(),
    {
        RequestBuffer { bytes: Vec::new() }
    }

    /// How many bytes to ask for next; none once the limit is reached.
    pub fn room(&self) -> (n: usize)
        ensures
            n == request_room(self@.len() as int),
    {
        proof {
            use_type_invariant(self);
        }
        let left: usize = MAX_INCOMING_JSON_BYTES - self.bytes.len();
        if left < REQUEST_CHUNK {
            left
        } else {
            REQUEST_CHUNK
        }
    }

    /// Takes in what was read, of which there is no more than was asked for.
    pub fn push(&mut self, chunk: &[u8])
        requires
            chunk@.len() <= request_room(old(self)@.len() as int),
        ensures
            final(self)@ == old(self)@ + chunk@,
            final(self)@.len() <= MAX_INCOMING_JSON_BYTES,
    {
        proof {
            use_type_invariant(&*self);
        }
        let ghost before = self@;
        let mut bytes: Vec<u8> = Vec::new();
        std::mem::swap(&mut bytes, &mut self.bytes);
        bytes.extend_from_slice(chunk);
        assert(bytes@ =~= before + chunk@);
        self.bytes = bytes;
    }

    /// What was read.
    pub fn finish(self) -> (bytes: Vec<u8>)
        ensures
            bytes@ == self@,
            bytes@.len() <= MAX_INCOMING_JSON_BYTES,
    {
        proof {
            use_type_invariant(&self);
        }
        self.bytes
    }
}

/// Whether pieces that were read one after the other are each no larger than what
/// was asked for.
pub open spec fn as_asked(read: int, pieces: Seq<Seq<u8>>) -> bool
    decreases pieces.len(),
{
    pieces.len() > 0 ==> pieces[0].len() <= request_room(read) && as_asked(
        read + pieces[0].len(),
        pieces.drop_first(),
    )
}

/// A request is read whole up to the limit, and cut there: whatever pieces it comes
/// in, once nothing more comes or nothing more is asked for, what was read is all of
/// it or its first part of that size.
pub proof fn law_request_is_cut_at_the_limit(sent: Seq<u8>, pieces: Seq<Seq<u8>>)
    requires
        as_asked(0, pieces),
        http::joined(pieces).len() <= sent.len(),
        http::joined(pieces) == sent.take(http::joined(pieces).len() as int),
        http::joined(pieces).len() == sent.len() || request_room(
            http::joined(pieces).len() as int,
        ) == 0,
    ensures
        http::joined(pieces) == (if sent.len() <= MAX_INCOMING_JSON_BYTES {
            sent
        } else {
            sent.take(MAX_INCOMING_JSON_BYTES as int)
        }),
{
    lemma_stays_within(0, pieces);
    assert(sent.take(sent.len() as int) =~= sent);
}

proof fn lemma_stays_within(read: int, pieces: Seq<Seq<u8>>)
    requires
        0 <= read <= MAX_INCOMING_JSON_BYTES,
        as_asked(read, pieces),
    ensures
        read + http::joined(pieces).len() <= MAX_INCOMING_JSON_BYTES,
    decreases pieces.len(),
{
    if pieces.len() > 0 {
        lemma_stays_within(read + pieces[0].len(), pieces.drop_first());
    }
}

/// As many bytes are asked for at once as still fit, up to 32 kilobytes; two megabytes
/// fit in all.
pub proof fn law_room(read: int)
    requires
        0 <= read <= 2097152,
    ensures
        read + request_room(read) <= 2097152,
        request_room(read) <= 32768,
        request_room(read) == 32768 || read + request_room(read) == 2097152,
        request_room(read) == 0 <==> read == 2097152,
{
}

} // verus!
