//! Sentinel-delimited framing of messages on a byte stream.
//!
//! A message is written as its payload followed by exactly one sentinel
//! byte; the payload itself may not contain the sentinel (a payload
//! that does is truncated at the first occurrence, a defined
//! degradation rather than an error).  A decoder accumulates chunks
//! read from the transport and stops at the first sentinel it sees, so
//! message boundaries never depend on how the stream was split into
//! reads.

use vstd::prelude::*;

verus! {

/// The byte that marks the end of a framed message on the wire.
pub const SENTINEL: u8 = 0;

/// Transport reads happen in chunks of at most this many bytes.
pub const CHUNK_SIZE: usize = 128;

/// True when no byte of `s` is the sentinel.
pub open spec fn is_clean(s: Seq<u8>) -> bool {
    forall|i: int| 0 <= i < s.len() ==> s[i] != SENTINEL
}

/// True when some byte of `s` is the sentinel, i.e. `s` holds at least
/// one complete frame.
pub open spec fn contains_sentinel(s: Seq<u8>) -> bool {
    exists|i: int| 0 <= i < s.len() && s[i] == SENTINEL
}

/// The number of bytes of `s` before its first sentinel (all of `s`
/// when there is none): the length of the message a decoder yields.
pub open spec fn msg_len(s: Seq<u8>) -> nat
    decreases s.len(),
{
    if s.len() == 0 {
        0
    } else if s[0] == SENTINEL {
        0
    } else {
        1 + msg_len(s.drop_first())
    }
}

/// The message a decoder yields from `s`: the bytes before the first
/// sentinel (all of `s` when there is none).
pub open spec fn msg_of(s: Seq<u8>) -> Seq<u8> {
    s.take(msg_len(s) as int)
}

/// What remains of `s` once its first frame, payload and sentinel, has
/// been consumed.
pub open spec fn frame_rest(s: Seq<u8>) -> Seq<u8> {
    s.skip(msg_len(s) + 1int)
}

/// The characteristic facts about `msg_len`: it never passes the end
/// of the sequence, everything before it is sentinel-free, and it
/// lands on a sentinel exactly when the sequence holds one.
pub proof fn lemma_msg_len_spec(s: Seq<u8>)
    ensures
        msg_len(s) <= s.len(),
        is_clean(s.take(msg_len(s) as int)),
        msg_len(s) < s.len() ==> s[msg_len(s) as int] == SENTINEL,
        contains_sentinel(s) <==> msg_len(s) < s.len(),
    decreases s.len(),
{
    if s.len() == 0 {
    } else if s[0] == SENTINEL {
        assert(contains_sentinel(s));
    } else {
        let t = s.drop_first();
        lemma_msg_len_spec(t);
        let m = msg_len(s) as int;
        assert forall|i: int| 0 <= i < m implies s[i] != SENTINEL by {
            if i > 0 {
                assert(t.take(msg_len(t) as int)[i - 1] == t[i - 1]);
                assert(t[i - 1] == s[i]);
            }
        }
        assert(is_clean(s.take(m)));
        if contains_sentinel(s) {
            let w = choose|i: int| 0 <= i < s.len() && s[i] == SENTINEL;
            assert(t[w - 1] == SENTINEL);
            assert(contains_sentinel(t));
        }
        if contains_sentinel(t) {
            let w = choose|i: int| 0 <= i < t.len() && t[i] == SENTINEL;
            assert(s[w + 1] == SENTINEL);
            assert(contains_sentinel(s));
        }
    }
}

/// `msg_len` is the only cut that leaves a sentinel-free prefix and
/// stops at a sentinel or at the end: any `k` with those properties is
/// it.
pub proof fn lemma_msg_len_unique(s: Seq<u8>, k: int)
    requires
        0 <= k <= s.len(),
        is_clean(s.take(k)),
        k < s.len() ==> s[k] == SENTINEL,
    ensures
        msg_len(s) == k,
    decreases s.len(),
{
    if s.len() == 0 {
    } else if k == 0 {
    } else {
        assert(s.take(k)[0] == s[0]);
        let t = s.drop_first();
        assert forall|i: int| 0 <= i < k - 1 implies #[trigger] t.take(k - 1)[i] != SENTINEL by {
            assert(t.take(k - 1)[i] == s[i + 1]);
            assert(s.take(k)[i + 1] == s[i + 1]);
        }
        if k - 1 < t.len() {
            assert(t[k - 1] == s[k]);
        }
        lemma_msg_len_unique(t, k - 1);
    }
}

/// Law: encoding a sentinel-free payload and then decoding the bytes
/// written to the transport yields exactly that payload (round trip).
pub proof fn lemma_round_trip(p: Seq<u8>)
    requires
        is_clean(p),
    ensures
        msg_of(p.push(SENTINEL)) == p,
        frame_rest(p.push(SENTINEL)) == Seq::<u8>::empty(),
{
    let s = p.push(SENTINEL);
    assert forall|i: int| 0 <= i < p.len() implies s.take(p.len() as int)[i] != SENTINEL by {
        assert(s.take(p.len() as int)[i] == p[i]);
    }
    lemma_msg_len_unique(s, p.len() as int);
    assert(s.take(p.len() as int) =~= p);
    assert(s.skip(p.len() + 1int) =~= Seq::<u8>::empty());
}

/// Law: a byte sequence whose first sentinel sits at position `k`
/// decodes to exactly its first `k` bytes.
pub proof fn lemma_truncates_at_sentinel(s: Seq<u8>, k: int)
    requires
        0 <= k < s.len(),
        s[k] == SENTINEL,
        is_clean(s.take(k)),
    ensures
        msg_of(s) == s.take(k),
{
    lemma_msg_len_unique(s, k);
}

/// Encodes one message for the wire: the payload followed by exactly
/// one sentinel byte.
pub fn encode(payload: &Vec<u8>) -> (r: Vec<u8>)
    ensures
        r@ == payload@.push(SENTINEL),
{
    let mut r: Vec<u8> = Vec::new();
    let mut i: usize = 0;
    while i < payload.len()
        invariant
            i <= payload.len(),
            r@ == payload@.take(i as int),
        decreases payload.len() - i,
    {
        r.push(payload[i]);
        i = i + 1;
        assert(payload@.take(i as int) =~= payload@.take(i - 1).push(payload@[i - 1]));
    }
    assert(payload@.take(payload@.len() as int) =~= payload@);
    r.push(SENTINEL);
    r
}

/// Finds the position of the first sentinel in `data`, i.e. the length
/// of the message framed there; `data.len()` when no sentinel has
/// arrived yet.
pub fn scan_sentinel(data: &Vec<u8>) -> (r: usize)
    ensures
        r == msg_len(data@),
        r <= data@.len(),
        r < data@.len() <==> contains_sentinel(data@),
{
    let mut i: usize = 0;
    while i < data.len() && data[i] != SENTINEL
        invariant
            i <= data.len(),
            is_clean(data@.take(i as int)),
        decreases data.len() - i,
    {
        let ghost pre = i as int;
        i = i + 1;
        assert forall|j: int| 0 <= j < i implies data@.take(i as int)[j] != SENTINEL by {
            assert(data@.take(i as int)[j] == data@[j]);
            if j < pre {
                assert(data@.take(pre)[j] == data@[j]);
            }
        }
    }
    proof {
        lemma_msg_len_unique(data@, i as int);
        lemma_msg_len_spec(data@);
    }
    i
}

/// One step of the decode scanning policy: when the chunk holds no
/// sentinel it is appended to the accumulator whole and reading must
/// continue; otherwise only the bytes before the chunk's first
/// sentinel are appended and the message is complete.
pub fn absorb_chunk(acc: &mut Vec<u8>, chunk: &Vec<u8>) -> (done: bool)
    ensures
        done == contains_sentinel(chunk@),
        final(acc)@ == old(acc)@ + msg_of(chunk@),
{
    let end = scan_sentinel(chunk);
    let mut j: usize = 0;
    while j < end
        invariant
            j <= end,
            end <= chunk@.len(),
            end == msg_len(chunk@),
            acc@ == old(acc)@ + chunk@.take(j as int),
        decreases end - j,
    {
        acc.push(chunk[j]);
        j = j + 1;
        assert(chunk@.take(j as int) =~= chunk@.take(j - 1).push(chunk@[j - 1]));
    }
    end < chunk.len()
}

/// Removes the first complete frame from `buf` (its payload and the
/// sentinel after it) and returns the payload; returns `None` and
/// leaves `buf` unchanged when no complete frame has arrived yet.
pub fn take_frame(buf: &mut Vec<u8>) -> (r: Option<Vec<u8>>)
    ensures
        contains_sentinel(old(buf)@) ==> (r matches Some(p) && p@ == msg_of(old(buf)@)
            && final(buf)@ == frame_rest(old(buf)@)),
        !contains_sentinel(old(buf)@) ==> r is None && final(buf)@ == old(buf)@,
{
    let end = scan_sentinel(buf);
    if end == buf.len() {
        return None;
    }
    let mut payload: Vec<u8> = Vec::new();
    let mut j: usize = 0;
    while j < end
        invariant
            j <= end,
            end < buf@.len(),
            end == msg_len(buf@),
            payload@ == buf@.take(j as int),
        decreases end - j,
    {
        payload.push(buf[j]);
        j = j + 1;
        assert(buf@.take(j as int) =~= buf@.take(j - 1).push(buf@[j - 1]));
    }
    let mut rest: Vec<u8> = Vec::new();
    let mut k: usize = end + 1;
    while k < buf.len()
        invariant
            end + 1 <= k <= buf@.len(),
            end == msg_len(buf@),
            rest@ == buf@.subrange(end + 1, k as int),
        decreases buf.len() - k,
    {
        rest.push(buf[k]);
        k = k + 1;
        assert(buf@.subrange(end + 1, k as int)
            =~= buf@.subrange(end + 1, k - 1).push(buf@[k - 1]));
    }
    assert(rest@ =~= frame_rest(buf@));
    *buf = rest;
    Some(payload)
}

} // verus!
