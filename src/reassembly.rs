//! What the framing state machine guarantees over whole byte streams.
use vstd::prelude::*;
use crate::settings::ByteOrder;
use crate::size::{lemma_size_prefix_round_trip, size_prefix, size_value};
use crate::transport::{FrameModel, FramePhase, feed, frame, initial_model, phase_wf, step};

verus! {

/// An idle machine, between frames, with packets `q` queued.
pub open spec fn idle(q: Seq<Seq<u8>>) -> FrameModel {
    FrameModel { phase: FramePhase::AwaitingSize(Seq::empty()), packets: q }
}

/// The effect of handing the machine `chunks` one after another.
pub open spec fn feed_chunks(m: FrameModel, order: ByteOrder, max: nat, chunks: Seq<Seq<u8>>) -> FrameModel
    decreases chunks.len(),
{
    if chunks.len() == 0 {
        m
    } else {
        feed(feed_chunks(m, order, max, chunks.drop_last()), order, max, chunks.last())
    }
}

/// The frames of `payloads`, one after another.
pub open spec fn frames_of(payloads: Seq<Seq<u8>>, order: ByteOrder) -> Seq<u8>
    decreases payloads.len(),
{
    if payloads.len() == 0 {
        Seq::empty()
    } else {
        frames_of(payloads.drop_last(), order) + frame(payloads.last(), order)
    }
}

/// Consuming `a` and then `b` is consuming `a + b`: where a read ends has no effect.
pub proof fn lemma_feed_concat(m: FrameModel, order: ByteOrder, max: nat, a: Seq<u8>, b: Seq<u8>)
    ensures
        feed(feed(m, order, max, a), order, max, b) == feed(m, order, max, a + b),
    decreases b.len(),
{
    if b.len() == 0 {
        assert(a + b =~= a);
    } else {
        lemma_feed_concat(m, order, max, a, b.drop_last());
        assert((a + b).drop_last() =~= a + b.drop_last());
        assert((a + b).last() == b.last());
    }
}

/// Handing over chunks one by one is handing over their concatenation.
pub proof fn lemma_feed_chunks(m: FrameModel, order: ByteOrder, max: nat, chunks: Seq<Seq<u8>>)
    ensures
        feed_chunks(m, order, max, chunks) == feed(m, order, max, chunks.flatten()),
    decreases chunks.len(),
{
    if chunks.len() == 0 {
    } else {
        let init = chunks.drop_last();
        lemma_feed_chunks(m, order, max, init);
        assert(init.push(chunks.last()) =~= chunks);
        init.lemma_flatten_push(chunks.last());
        lemma_feed_concat(m, order, max, init.flatten(), chunks.last());
    }
}

/// A failed machine ignores whatever follows.
proof fn lemma_failed_stays(m: FrameModel, order: ByteOrder, max: nat, s: Seq<u8>)
    requires
        m.phase is Failed,
    ensures
        feed(m, order, max, s) == m,
    decreases s.len(),
{
    if s.len() > 0 {
        lemma_failed_stays(m, order, max, s.drop_last());
    }
}

/// Payload bytes that do not finish the frame are collected.
proof fn lemma_fill_payload(q: Seq<Seq<u8>>, order: ByteOrder, max: nat, size: nat, r: Seq<u8>, s: Seq<u8>)
    requires
        r.len() + s.len() < size,
    ensures
        feed(FrameModel { phase: FramePhase::AwaitingPacket { size, received: r }, packets: q }, order, max, s)
            == (FrameModel { phase: FramePhase::AwaitingPacket { size, received: r + s }, packets: q }),
    decreases s.len(),
{
    if s.len() == 0 {
        assert(r + s =~= r);
    } else {
        lemma_fill_payload(q, order, max, size, r, s.drop_last());
        assert((r + s.drop_last()).push(s.last()) =~= r + s);
    }
}

/// The byte that finishes a payload queues it and makes the machine idle.
proof fn lemma_complete_payload(q: Seq<Seq<u8>>, order: ByteOrder, max: nat, size: nat, r: Seq<u8>, s: Seq<u8>)
    requires
        s.len() > 0,
        r.len() + s.len() == size,
    ensures
        feed(FrameModel { phase: FramePhase::AwaitingPacket { size, received: r }, packets: q }, order, max, s)
            == idle(q.push(r + s)),
{
    lemma_fill_payload(q, order, max, size, r, s.drop_last());
    assert((r + s.drop_last()).push(s.last()) =~= r + s);
}

/// What a size prefix declaring `n` does to an idle machine.
proof fn lemma_read_prefix(q: Seq<Seq<u8>>, order: ByteOrder, max: nat, n: nat)
    requires
        n <= u32::MAX,
    ensures
        feed(idle(q), order, max, size_prefix(n, order)) == (if n > max {
            FrameModel { phase: FramePhase::Failed { size: n }, packets: q }
        } else if n == 0 {
            idle(q.push(Seq::empty()))
        } else {
            FrameModel { phase: FramePhase::AwaitingPacket { size: n, received: Seq::empty() }, packets: q }
        }),
{
    lemma_size_prefix_round_trip(n, order);
    let pr = size_prefix(n, order);
    let m = idle(q);
    let e = Seq::<u8>::empty();
    let s1 = e.push(pr[0]);
    let s2 = s1.push(pr[1]);
    let s3 = s2.push(pr[2]);
    let s4 = s3.push(pr[3]);
    assert(s4 =~= pr);
    lemma_feed_push(m, order, max, e, pr[0]);
    let m1 = FrameModel { phase: FramePhase::AwaitingSize(s1), packets: q };
    assert(feed(m, order, max, s1) == m1);
    lemma_feed_push(m, order, max, s1, pr[1]);
    let m2 = FrameModel { phase: FramePhase::AwaitingSize(s2), packets: q };
    assert(feed(m, order, max, s2) == m2);
    lemma_feed_push(m, order, max, s2, pr[2]);
    let m3 = FrameModel { phase: FramePhase::AwaitingSize(s3), packets: q };
    assert(feed(m, order, max, s3) == m3);
    lemma_feed_push(m, order, max, s3, pr[3]);
    assert(size_value(s4, order) == n);
}

/// Consuming one more byte is one more step.
proof fn lemma_feed_push(m: FrameModel, order: ByteOrder, max: nat, s: Seq<u8>, b: u8)
    ensures
        feed(m, order, max, s.push(b)) == step(feed(m, order, max, s), order, max, b),
{
    assert(s.push(b).drop_last() =~= s);
}

/// One whole frame, handed to an idle machine, queues exactly its payload.
pub proof fn lemma_one_frame(q: Seq<Seq<u8>>, order: ByteOrder, max: nat, p: Seq<u8>)
    requires
        p.len() <= max,
        p.len() <= u32::MAX,
    ensures
        feed(idle(q), order, max, frame(p, order)) == idle(q.push(p)),
{
    let pr = size_prefix(p.len(), order);
    lemma_read_prefix(q, order, max, p.len());
    lemma_feed_concat(idle(q), order, max, pr, p);
    if p.len() == 0 {
        assert(p =~= Seq::<u8>::empty());
    } else {
        lemma_complete_payload(q, order, max, p.len(), Seq::empty(), p);
        assert(Seq::<u8>::empty() + p =~= p);
    }
}

/// A frame of size zero completes at once to an empty payload.
pub proof fn lemma_zero_length_frame(q: Seq<Seq<u8>>, order: ByteOrder, max: nat)
    ensures
        feed(idle(q), order, max, size_prefix(0, order)) == idle(q.push(Seq::empty())),
{
    lemma_read_prefix(q, order, max, 0);
}

/// Feeding back the bytes of a frame reproduces its payload unchanged.
pub proof fn lemma_round_trip(order: ByteOrder, max: nat, p: Seq<u8>)
    requires
        p.len() <= max,
        p.len() <= u32::MAX,
    ensures
        feed(initial_model(), order, max, frame(p, order)) == idle(seq![p]),
{
    lemma_one_frame(Seq::empty(), order, max, p);
    assert(Seq::<Seq<u8>>::empty().push(p) =~= seq![p]);
}

/// However the bytes of one frame are split into reads, a fresh machine
/// assembles exactly its payload.
pub proof fn lemma_reassembly(order: ByteOrder, max: nat, p: Seq<u8>, chunks: Seq<Seq<u8>>)
    requires
        p.len() <= max,
        p.len() <= u32::MAX,
        chunks.flatten() == frame(p, order),
    ensures
        feed_chunks(initial_model(), order, max, chunks) == idle(seq![p]),
{
    lemma_feed_chunks(initial_model(), order, max, chunks);
    lemma_round_trip(order, max, p);
}

/// The frames of several payloads, consumed at once, queue those payloads in order.
pub proof fn lemma_many_frames(q: Seq<Seq<u8>>, order: ByteOrder, max: nat, payloads: Seq<Seq<u8>>)
    requires
        forall|i: int| 0 <= i < payloads.len() ==> #[trigger] payloads[i].len() <= max
            && payloads[i].len() <= u32::MAX,
    ensures
        feed(idle(q), order, max, frames_of(payloads, order)) == idle(q + payloads),
    decreases payloads.len(),
{
    if payloads.len() == 0 {
        assert(q + payloads =~= q);
    } else {
        let init = payloads.drop_last();
        let p = payloads.last();
        assert(p == payloads[payloads.len() - 1]);
        lemma_many_frames(q, order, max, init);
        lemma_feed_concat(idle(q), order, max, frames_of(init, order), frame(p, order));
        lemma_one_frame(q + init, order, max, p);
        assert((q + init).push(p) =~= q + payloads);
    }
}

/// A size prefix over the limit fails the machine, which then ignores the rest.
pub proof fn lemma_oversized(q: Seq<Seq<u8>>, order: ByteOrder, max: nat, n: nat, rest: Seq<u8>)
    requires
        max < n <= u32::MAX,
    ensures
        feed(idle(q), order, max, size_prefix(n, order) + rest)
            == (FrameModel { phase: FramePhase::Failed { size: n }, packets: q }),
{
    lemma_read_prefix(q, order, max, n);
    lemma_feed_concat(idle(q), order, max, size_prefix(n, order), rest);
    lemma_failed_stays(feed(idle(q), order, max, size_prefix(n, order)), order, max, rest);
}

/// A step keeps the phase invariant.
proof fn lemma_step_wf(m: FrameModel, order: ByteOrder, max: nat, b: u8)
    requires
        phase_wf(m.phase, max),
    ensures
        phase_wf(step(m, order, max, b).phase, max),
{
}

/// Consuming bytes keeps the phase invariant.
pub proof fn lemma_feed_wf(m: FrameModel, order: ByteOrder, max: nat, s: Seq<u8>)
    requires
        phase_wf(m.phase, max),
    ensures
        phase_wf(feed(m, order, max, s).phase, max),
    decreases s.len(),
{
    if s.len() > 0 {
        lemma_feed_wf(m, order, max, s.drop_last());
        lemma_step_wf(feed(m, order, max, s.drop_last()), order, max, s.last());
    }
}

/// Byte `i` of `s` completes a size prefix that declares more than `max`.
pub open spec fn completes_oversized_prefix(m: FrameModel, order: ByteOrder, max: nat, s: Seq<u8>, i: int) -> bool {
    let before = feed(m, order, max, s.take(i));
    &&& 0 <= i < s.len()
    &&& before.phase is AwaitingSize
    &&& before.phase->AwaitingSize_0.len() == 3
    &&& size_value(before.phase->AwaitingSize_0.push(s[i]), order) > max
}

/// A working machine fails on `s` exactly when some byte of `s` completes a
/// size prefix over the limit; the failure records that declared size, and
/// the packets queued are those completed before that prefix.
pub proof fn lemma_fails_iff_oversized_prefix(m: FrameModel, order: ByteOrder, max: nat, s: Seq<u8>)
    requires
        phase_wf(m.phase, max),
        !(m.phase is Failed),
    ensures
        (feed(m, order, max, s).phase is Failed) <==> exists|i: int|
            completes_oversized_prefix(m, order, max, s, i),
        forall|i: int| #[trigger] completes_oversized_prefix(m, order, max, s, i) ==> {
            let before = feed(m, order, max, s.take(i));
            feed(m, order, max, s) == (FrameModel {
                phase: FramePhase::Failed {
                    size: size_value(before.phase->AwaitingSize_0.push(s[i]), order),
                },
                packets: before.packets,
            })
        },
    decreases s.len(),
{
    if s.len() == 0 {
        assert forall|i: int| !completes_oversized_prefix(m, order, max, s, i) by {}
    } else {
        let init = s.drop_last();
        let n = s.len() - 1;
        lemma_fails_iff_oversized_prefix(m, order, max, init);
        lemma_feed_wf(m, order, max, init);
        assert(s.take(n) =~= init);
        assert forall|i: int| 0 <= i < n implies #[trigger] s.take(i) == init.take(i) by {
            assert(s.take(i) =~= init.take(i));
        }
        assert forall|i: int| 0 <= i < n implies completes_oversized_prefix(m, order, max, s, i)
            == completes_oversized_prefix(m, order, max, init, i) by {
            assert(s.take(i) == init.take(i));
            assert(s[i] == init[i]);
        }
        let prev = feed(m, order, max, init);
        if prev.phase is Failed {
            let w = choose|i: int| completes_oversized_prefix(m, order, max, init, i);
            assert(completes_oversized_prefix(m, order, max, s, w));
            assert forall|i: int| #[trigger] completes_oversized_prefix(m, order, max, s, i) implies i < n by {
                if i == n {
                    assert(s.take(i) == init);
                }
            }
        } else {
            assert forall|i: int| 0 <= i < n implies !#[trigger] completes_oversized_prefix(m, order, max, s, i) by {
                assert(completes_oversized_prefix(m, order, max, s, i)
                    == completes_oversized_prefix(m, order, max, init, i));
            }
            if feed(m, order, max, s).phase is Failed {
                assert(completes_oversized_prefix(m, order, max, s, n));
            }
        }
    }
}

} // verus!
