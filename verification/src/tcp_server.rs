//! The decoding side of the TCP server: bytes read from the socket become text
//! chunks. A multi-byte character split across two reads waits in the buffer
//! for the rest of its bytes; bytes that can never be UTF-8 are dropped.

use vstd::prelude::*;
use vstd::string::StringSliceAdditionalSpecFns;
use vstd::utf8::{
    decode_utf8, decode_utf8_encode_utf8, encode_utf8, encode_utf8_decode_utf8,
    partial_valid_partial_invalid_utf8, valid_utf8, valid_utf8_concat,
};

verus! {

/// The longest prefix of `b`, up to `k` bytes, that is valid UTF-8.
pub open spec fn valid_prefix_len_upto(b: Seq<u8>, k: int) -> int
    decreases k,
{
    if k <= 0 {
        0
    } else if valid_utf8(b.take(k)) {
        k
    } else {
        valid_prefix_len_upto(b, k - 1)
    }
}

/// The length of the longest prefix of `b` that is valid UTF-8.
pub open spec fn valid_prefix_len(b: Seq<u8>) -> int {
    valid_prefix_len_upto(b, b.len() as int)
}

/// Whether more bytes could still make `b` UTF-8: `b` is the start of some
/// valid sequence.
pub open spec fn extendable(b: Seq<u8>) -> bool {
    exists|w: Seq<u8>| valid_utf8(#[trigger] (b + w))
}

/// The length of the invalid byte sequence where UTF-8 decoding of `bytes`
/// stops, as `std::str::from_utf8` reports it in its error (`None`: the
/// input ends inside a character).
pub uninterp spec fn spec_utf8_error_len(bytes: Seq<u8>) -> Option<usize>;

/// Why a byte sequence is not UTF-8.
pub struct Utf8Failure {
    /// Length of the longest valid prefix.
    pub valid_up_to: usize,
    /// Length of the invalid sequence that follows it; `None` when the input
    /// ends inside a character.
    pub error_len: Option<usize>,
}

/// Calls `std::str::from_utf8`. Its documentation says: the result is `Ok`
/// exactly when the bytes are UTF-8, and then it holds these very bytes;
/// otherwise the error's `valid_up_to` is the greatest length whose prefix
/// is UTF-8, and its `error_len` is either the length of the invalid
/// sequence that starts there (at least one byte, within the input) or
/// `None`, when the input ends one to three bytes after that point, in the
/// middle of a character: so an input that more bytes could make UTF-8 gets
/// `None`. Which length the invalid sequence has is left unsaid here and
/// named instead.
#[verifier::external_body]
fn utf8_decode(v: &[u8]) -> (r: Result<&str, Utf8Failure>)
    ensures
        r is Ok <==> valid_utf8(v@),
        r matches Ok(s) ==> s.spec_bytes() == v@,
        r matches Err(f) ==> {
            &&& f.valid_up_to as int == valid_prefix_len(v@)
            &&& f.error_len == spec_utf8_error_len(v@)
            &&& f.error_len matches Some(n) ==> n >= 1 && f.valid_up_to + n <= v@.len()
            &&& f.error_len is None ==> f.valid_up_to < v@.len() <= f.valid_up_to + 3
            &&& extendable(v@) ==> f.error_len is None
        },
{
    match std::str::from_utf8(v) {
        Ok(s) => Ok(s),
        Err(e) => Err(Utf8Failure { valid_up_to: e.valid_up_to(), error_len: e.error_len() }),
    }
}

proof fn lemma_valid_prefix_bounds(b: Seq<u8>, k: int)
    requires
        0 <= k <= b.len(),
    ensures
        0 <= valid_prefix_len_upto(b, k) <= k,
        valid_utf8(b.take(valid_prefix_len_upto(b, k))),
    decreases k,
{
    if k <= 0 {
        assert(valid_utf8(b.take(0))) by {
            assert(b.take(0) =~= Seq::<u8>::empty());
        }
    } else if !valid_utf8(b.take(k)) {
        lemma_valid_prefix_bounds(b, k - 1);
    }
}

/// What the buffer yields: the texts decoded from it, first to last, and the
/// bytes left over for the next read. The whole buffer when it is UTF-8;
/// otherwise its longest valid prefix, then the rest; bytes that more bytes
/// could make UTF-8 (a character cut at the end) wait; an invalid sequence at
/// the front is dropped.
pub open spec fn drain_utf8(b: Seq<u8>) -> (Seq<Seq<char>>, Seq<u8>)
    decreases b.len(),
{
    if b.len() == 0 {
        (seq![], b)
    } else if valid_utf8(b) {
        (seq![decode_utf8(b)], seq![])
    } else {
        let k = valid_prefix_len(b);
        if 0 < k < b.len() {
            let rest = drain_utf8(b.skip(k));
            (seq![decode_utf8(b.take(k))] + rest.0, rest.1)
        } else if k == 0 {
            if extendable(b) {
                (seq![], b)
            } else {
                match spec_utf8_error_len(b) {
                    Some(n) => if 1 <= n <= b.len() {
                        drain_utf8(b.skip(n as int))
                    } else {
                        (seq![], b)
                    },
                    None => (seq![], b),
                }
            }
        } else {
            (seq![], b)
        }
    }
}

proof fn lemma_encode_concat(c1: Seq<char>, c2: Seq<char>)
    ensures
        encode_utf8(c1 + c2) == encode_utf8(c1) + encode_utf8(c2),
    decreases c1.len(),
{
    if c1.len() == 0 {
        assert(c1 + c2 =~= c2);
    } else {
        lemma_encode_concat(c1.drop_first(), c2);
        assert((c1 + c2).drop_first() =~= c1.drop_first() + c2);
        assert((c1 + c2)[0] == c1[0]);
        let h = vstd::utf8::encode_scalar(c1[0] as u32);
        assert(h + (encode_utf8(c1.drop_first()) + encode_utf8(c2)) =~= (h + encode_utf8(
            c1.drop_first(),
        )) + encode_utf8(c2));
    }
}

/// Decoding two valid sequences one after the other decodes their concatenation.
proof fn lemma_decode_concat(p: Seq<u8>, q: Seq<u8>)
    requires
        valid_utf8(p),
        valid_utf8(q),
    ensures
        valid_utf8(p + q),
        decode_utf8(p + q) == decode_utf8(p) + decode_utf8(q),
{
    valid_utf8_concat(p, q);
    decode_utf8_encode_utf8(p);
    decode_utf8_encode_utf8(q);
    lemma_encode_concat(decode_utf8(p), decode_utf8(q));
    encode_utf8_decode_utf8(decode_utf8(p) + decode_utf8(q));
}

/// What follows a valid prefix of a valid sequence is valid.
proof fn lemma_valid_suffix(x: Seq<u8>, k: int)
    requires
        valid_utf8(x),
        0 <= k <= x.len(),
        valid_utf8(x.take(k)),
    ensures
        valid_utf8(x.skip(k)),
{
    assert(x.subrange(0, k) =~= x.take(k));
    assert(x.subrange(k, x.len() as int) =~= x.skip(k));
    if !valid_utf8(x.skip(k)) {
        partial_valid_partial_invalid_utf8(x, k);
    }
}

/// The search for the longest valid prefix up to `k` bytes finds one that is
/// valid, and no longer one up to `k` is.
proof fn lemma_prefix_upto(b: Seq<u8>, k: int)
    requires
        0 <= k <= b.len(),
    ensures
        0 <= valid_prefix_len_upto(b, k) <= k,
        valid_utf8(b.take(valid_prefix_len_upto(b, k))),
        forall|j: int| valid_prefix_len_upto(b, k) < j <= k ==> !valid_utf8(#[trigger] b.take(j)),
    decreases k,
{
    if k <= 0 {
        assert(b.take(0) =~= Seq::<u8>::empty());
    } else if !valid_utf8(b.take(k)) {
        lemma_prefix_upto(b, k - 1);
    }
}

/// With no valid non-empty prefix up to `k` bytes, the search finds none.
proof fn lemma_prefix_upto_zero(b: Seq<u8>, k: int)
    requires
        0 <= k <= b.len(),
        forall|j: int| 0 < j <= k ==> !valid_utf8(#[trigger] b.take(j)),
    ensures
        valid_prefix_len_upto(b, k) == 0,
    decreases k,
{
    if k > 0 {
        lemma_prefix_upto_zero(b, k - 1);
    }
}

/// The texts, joined.
pub open spec fn joined(ts: Seq<Seq<char>>) -> Seq<char>
    decreases ts.len(),
{
    if ts.len() == 0 {
        seq![]
    } else {
        joined(ts.drop_last()) + ts.last()
    }
}

/// Joining the texts of two lists is joining each and appending.
proof fn lemma_joined_append(a: Seq<Seq<char>>, b: Seq<Seq<char>>)
    ensures
        joined(a + b) == joined(a) + joined(b),
    decreases b.len(),
{
    if b.len() == 0 {
        assert(a + b =~= a);
        assert(joined(a) + joined(b) =~= joined(a));
    } else {
        lemma_joined_append(a, b.drop_last());
        assert((a + b).drop_last() =~= a + b.drop_last());
        assert((a + b).last() == b.last());
    }
}

/// No text of the list is empty.
pub open spec fn all_nonempty(ts: Seq<Seq<char>>) -> bool {
    forall|i: int| 0 <= i < ts.len() ==> (#[trigger] ts[i]).len() > 0
}

/// A valid non-empty sequence decodes to some text.
proof fn lemma_decode_nonempty(b: Seq<u8>)
    requires
        valid_utf8(b),
        b.len() > 0,
    ensures
        decode_utf8(b).len() > 0,
{
    decode_utf8_encode_utf8(b);
    if decode_utf8(b).len() == 0 {
        assert(decode_utf8(b) =~= Seq::<char>::empty());
        assert(encode_utf8(Seq::<char>::empty()) =~= Seq::<u8>::empty());
    }
}

/// Draining bytes that more bytes `w` make valid hands out, in non-empty
/// texts, exactly the longest valid prefix, and keeps the rest, which `w`
/// completes.
proof fn lemma_drain_extendable(y: Seq<u8>, w: Seq<u8>)
    requires
        valid_utf8(y + w),
    ensures
        ({
            let k = valid_prefix_len(y);
            let d = drain_utf8(y);
            &&& 0 <= k <= y.len()
            &&& valid_utf8(y.take(k))
            &&& d.1 == y.skip(k)
            &&& joined(d.0) == decode_utf8(y.take(k))
            &&& all_nonempty(d.0)
            &&& valid_utf8(y.skip(k) + w)
            &&& (valid_utf8(y) ==> d.1.len() == 0)
        }),
{
    let x = y + w;
    let n = y.len() as int;
    let k = valid_prefix_len(y);
    let e: Seq<Seq<char>> = Seq::empty();
    assert(joined(e) == Seq::<char>::empty());
    lemma_prefix_upto(y, n);
    assert(y.take(k) =~= x.take(k));
    lemma_valid_suffix(x, k);
    assert(y.skip(k) + w =~= x.skip(k));
    let r = y.skip(k);
    if n == 0 {
        assert(y.take(0) =~= Seq::<u8>::empty());
        assert(y.skip(0) =~= y);
        assert(decode_utf8(Seq::<u8>::empty()) =~= Seq::<char>::empty()) by {
            assert(y.take(0) =~= Seq::<u8>::empty());
        }
    } else if valid_utf8(y) {
        assert(y.take(n) =~= y);
        assert(k == n);
        lemma_decode_nonempty(y);
        let ts: Seq<Seq<char>> = seq![decode_utf8(y)];
        assert(ts.drop_last() =~= e);
        assert(joined(ts) =~= decode_utf8(y));
        assert(y.skip(n) =~= Seq::<u8>::empty());
    } else {
        assert(k < n) by {
            if k == n {
                assert(y.take(n) =~= y);
            }
        }
        assert(r.len() > 0);
        assert forall|j: int| 0 < j <= r.len() implies !valid_utf8(#[trigger] r.take(j)) by {
            if valid_utf8(r.take(j)) {
                valid_utf8_concat(y.take(k), r.take(j));
                assert(y.take(k) + r.take(j) =~= y.take(k + j));
            }
        }
        lemma_prefix_upto_zero(r, r.len() as int);
        assert(r.take(r.len() as int) =~= r);
        assert(extendable(r)) by {
            assert(valid_utf8(r + w));
        }
        assert(drain_utf8(r) == (e, r));
        if k > 0 {
            lemma_decode_nonempty(y.take(k));
            let ts: Seq<Seq<char>> = seq![decode_utf8(y.take(k))];
            assert(ts + e =~= ts);
            assert(ts.drop_last() =~= e);
            assert(joined(ts) =~= decode_utf8(y.take(k)));
        } else {
            assert(y.skip(0) =~= y);
            assert(y.take(0) =~= Seq::<u8>::empty());
            assert(extendable(y)) by {
                assert(valid_utf8(y + w));
            }
            assert(decode_utf8(y.take(0)) =~= Seq::<char>::empty()) by {
                encode_utf8_decode_utf8(Seq::<char>::empty());
                assert(encode_utf8(Seq::<char>::empty()) =~= Seq::<u8>::empty());
            }
        }
    }
}

/// Packets read one after the other into an empty buffer, the buffer drained
/// after each: the texts handed out and the bytes left waiting.
pub open spec fn feed_packets(ps: Seq<Seq<u8>>) -> (Seq<Seq<char>>, Seq<u8>)
    decreases ps.len(),
{
    if ps.len() == 0 {
        (seq![], seq![])
    } else {
        let (ts, buf) = feed_packets(ps.drop_last());
        let (ts2, buf2) = drain_utf8(buf + ps.last());
        (ts + ts2, buf2)
    }
}

/// What packets that more bytes `w` complete give: the texts of a valid
/// prefix of their bytes, none empty, and the rest waiting in the buffer.
proof fn lemma_feed_prefix(ps: Seq<Seq<u8>>, w: Seq<u8>)
    requires
        valid_utf8(ps.flatten() + w),
    ensures
        ({
            let (ts, r) = feed_packets(ps);
            let pre = ps.flatten().take(ps.flatten().len() - r.len());
            &&& r.len() <= ps.flatten().len()
            &&& ps.flatten() == pre + r
            &&& valid_utf8(pre)
            &&& joined(ts) == decode_utf8(pre)
            &&& all_nonempty(ts)
            &&& valid_utf8(r + w)
        }),
    decreases ps.len(),
{
    if ps.len() == 0 {
        let e: Seq<Seq<char>> = Seq::empty();
        assert(joined(e) == Seq::<char>::empty());
        assert(ps.flatten() =~= Seq::<u8>::empty());
        assert(ps.flatten().take(0) =~= Seq::<u8>::empty());
        assert(ps.flatten() + w =~= w);
        assert(Seq::<u8>::empty() + w =~= w);
        encode_utf8_decode_utf8(Seq::<char>::empty());
        assert(encode_utf8(Seq::<char>::empty()) =~= Seq::<u8>::empty());
    } else {
        let init = ps.drop_last();
        let p = ps.last();
        assert(ps =~= init.push(p));
        init.lemma_flatten_push(p);
        assert(init.flatten() + (p + w) =~= ps.flatten() + w);
        lemma_feed_prefix(init, p + w);
        let (ts1, r1) = feed_packets(init);
        let pre1 = init.flatten().take(init.flatten().len() - r1.len());
        let y = r1 + p;
        assert(r1 + (p + w) =~= y + w);
        lemma_drain_extendable(y, w);
        let k = valid_prefix_len(y);
        let (ts2, r) = drain_utf8(y);
        lemma_decode_concat(pre1, y.take(k));
        lemma_joined_append(ts1, ts2);
        let pre = ps.flatten().take(ps.flatten().len() - r.len());
        assert(ps.flatten() =~= pre1 + y.take(k) + r);
        assert(pre =~= pre1 + y.take(k));
        assert forall|i: int| 0 <= i < (ts1 + ts2).len() implies (#[trigger] (ts1 + ts2)[i]).len()
            > 0 by {
            if i < ts1.len() {
                assert((ts1 + ts2)[i] == ts1[i]);
            } else {
                assert((ts1 + ts2)[i] == ts2[i - ts1.len()]);
            }
        }
    }
}

/// A valid text read in any number of packets, cut anywhere, comes out whole
/// and in order: the texts handed out join to the text, none of them is
/// empty, and nothing is left waiting after the last packet.
pub proof fn law_packets_come_out_whole(ps: Seq<Seq<u8>>)
    requires
        valid_utf8(ps.flatten()),
    ensures
        feed_packets(ps).1.len() == 0,
        joined(feed_packets(ps).0) == decode_utf8(ps.flatten()),
        all_nonempty(feed_packets(ps).0),
{
    let w: Seq<u8> = Seq::empty();
    assert(ps.flatten() + w =~= ps.flatten());
    lemma_feed_prefix(ps, w);
    let (ts, r) = feed_packets(ps);
    assert(r + w =~= r);
    if ps.len() > 0 {
        let init = ps.drop_last();
        let p = ps.last();
        assert(ps =~= init.push(p));
        init.lemma_flatten_push(p);
        assert(init.flatten() + (p + w) =~= ps.flatten() + w);
        assert(p + w =~= p);
        lemma_feed_prefix(init, p);
        let (ts1, r1) = feed_packets(init);
        let y = r1 + p;
        assert(y + w =~= y);
        lemma_drain_extendable(y, w);
    }
    let pre = ps.flatten().take(ps.flatten().len() - r.len());
    assert(pre =~= ps.flatten());
}

/// The texts of a list of strings.
pub open spec fn text_views(v: Seq<String>) -> Seq<Seq<char>> {
    v.map_values(|s: String| s@)
}

/// Takes every complete text out of the byte buffer, in order: the buffer
/// keeps only an incomplete character cut at its end; invalid bytes are
/// dropped. Returns the texts to send on.
pub fn process_utf8_buffer(buffer: &mut Vec<u8>) -> (out: Vec<String>)
    ensures
        (text_views(out@), final(buffer)@) == drain_utf8(old(buffer)@),
{
    let mut out: Vec<String> = Vec::new();
    let ghost b0 = buffer@;
    assert(text_views(out@) =~= Seq::<Seq<char>>::empty());
    loop
        invariant
            drain_utf8(b0) == (text_views(out@) + drain_utf8(buffer@).0, drain_utf8(buffer@).1),
        ensures
            drain_utf8(b0) == (text_views(out@), buffer@),
        decreases buffer@.len(),
    {
        if buffer.len() == 0 {
            assert(text_views(out@) + drain_utf8(buffer@).0 =~= text_views(out@));
            break;
        }
        let ghost b = buffer@;
        match utf8_decode(buffer.as_slice()) {
            Ok(s) => {
                proof {
                    encode_utf8_decode_utf8(s@);
                }
                out.push(String::from_str(s));
                buffer.clear();
                proof {
                    assert(text_views(out@) =~= text_views(out@.drop_last()).push(decode_utf8(b)));
                    assert(drain_utf8(buffer@).0 =~= Seq::<Seq<char>>::empty());
                    assert(text_views(out@) + drain_utf8(buffer@).0 =~= text_views(out@.drop_last())
                        + seq![decode_utf8(b)]);
                }
                break;
            },
            Err(f) => {
                let k = f.valid_up_to;
                if k > 0 {
                    proof {
                        lemma_valid_prefix_bounds(b, b.len() as int);
                    }
                    let mut head = buffer.split_off(k);
                    std::mem::swap(buffer, &mut head);
                    assert(head@ == b.take(k as int));
                    match utf8_decode(head.as_slice()) {
                        Ok(s) => {
                            proof {
                                encode_utf8_decode_utf8(s@);
                            }
                            let ghost before = text_views(out@);
                            out.push(String::from_str(s));
                            proof {
                                assert(buffer@ == b.skip(k as int));
                                assert(text_views(out@) =~= before.push(decode_utf8(b.take(k as int))));
                                assert(before.push(decode_utf8(b.take(k as int))) + drain_utf8(buffer@).0
                                    =~= before + (seq![decode_utf8(b.take(k as int))] + drain_utf8(
                                    buffer@,
                                ).0));
                            }
                        },
                        Err(_) => {
                            proof {
                                assert(false);
                            }
                        },
                    }
                } else {
                    match f.error_len {
                        Some(n) => {
                            let tail = buffer.split_off(n);
                            *buffer = tail;
                            assert(buffer@ == b.skip(n as int));
                        },
                        None => {
                            assert(drain_utf8(b) == (Seq::<Seq<char>>::empty(), b));
                            assert(text_views(out@) + drain_utf8(buffer@).0 =~= text_views(out@));
                            break;
                        },
                    }
                }
            },
        }
    }
    out
}

/// What happened on the socket since the last iteration of the reader.
pub enum ReadEvent {
    /// The listener handed over a new connection; it replaces the current one.
    NewConnection,
    /// These bytes were read.
    Data(Vec<u8>),
    /// The client closed the connection.
    Closed,
    /// The read timed out: nothing arrived.
    TimedOut,
    /// The read failed.
    Failed,
}

/// What the reader does about an event.
pub struct ReaderStep {
    /// Texts to send on to the lexer, in order.
    pub texts: Vec<String>,
    /// Whether the current connection must be dropped.
    pub drop_connection: bool,
}

/// One iteration of the reader: a new connection discards the bytes left
/// from the previous one; bytes read join the leftover ones and every
/// complete text is taken out; a closed or failed connection is dropped.
pub fn reader_step(leftover: &mut Vec<u8>, event: ReadEvent) -> (step: ReaderStep)
    ensures
        match event {
            ReadEvent::NewConnection => final(leftover)@.len() == 0 && step.texts@.len() == 0
                && !step.drop_connection,
            ReadEvent::Data(bytes) => (text_views(step.texts@), final(leftover)@) == drain_utf8(
                old(leftover)@ + bytes@,
            ) && !step.drop_connection,
            ReadEvent::TimedOut => final(leftover)@ == old(leftover)@ && step.texts@.len() == 0
                && !step.drop_connection,
            _ => final(leftover)@ == old(leftover)@ && step.texts@.len() == 0
                && step.drop_connection,
        },
{
    match event {
        ReadEvent::NewConnection => {
            leftover.clear();
            ReaderStep { texts: Vec::new(), drop_connection: false }
        },
        ReadEvent::Data(bytes) => {
            let mut bytes = bytes;
            leftover.append(&mut bytes);
            let texts = process_utf8_buffer(leftover);
            ReaderStep { texts, drop_connection: false }
        },
        ReadEvent::TimedOut => ReaderStep { texts: Vec::new(), drop_connection: false },
        _ => ReaderStep { texts: Vec::new(), drop_connection: true },
    }
}

} // verus!
