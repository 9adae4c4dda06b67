//! Frame splitter: turns raw byte chunks into complete logical lines,
//! carrying a trailing partial line across chunk boundaries.

use vstd::prelude::*;

verus! {

/// One splitting step: a newline byte closes the pending line, any other
/// byte extends it. The accumulator pairs the complete lines so far with
/// the pending partial line.
pub open spec fn split_step(acc: (Seq<Seq<u8>>, Seq<u8>), b: u8) -> (Seq<Seq<u8>>, Seq<u8>) {
    if b == ('\n' as u8) {
        (acc.0.push(acc.1), Seq::<u8>::empty())
    } else {
        (acc.0, acc.1.push(b))
    }
}

/// Splits `bytes` byte by byte, continuing from `acc`.
pub open spec fn split_bytes(acc: (Seq<Seq<u8>>, Seq<u8>), bytes: Seq<u8>) -> (Seq<Seq<u8>>, Seq<u8>)
    decreases bytes.len(),
{
    if bytes.len() == 0 {
        acc
    } else {
        split_bytes(split_step(acc, bytes[0]), bytes.drop_first())
    }
}

/// Splitting distributes over concatenation of the input: feeding two
/// byte runs one after the other splits exactly like feeding them joined.
pub proof fn lemma_split_bytes_concat(acc: (Seq<Seq<u8>>, Seq<u8>), a: Seq<u8>, b: Seq<u8>)
    ensures
        split_bytes(acc, a + b) == split_bytes(split_bytes(acc, a), b),
    decreases a.len(),
{
    if a.len() == 0 {
        assert(a + b =~= b);
    } else {
        assert((a + b).drop_first() =~= a.drop_first() + b);
        lemma_split_bytes_concat(split_step(acc, a[0]), a.drop_first(), b);
    }
}

/// Splits one chunk into complete logical lines, continuing from the
/// partial line carried over from earlier chunks, and hands back the new
/// trailing partial line.
pub fn split_frames(carry: Vec<u8>, chunk: &[u8]) -> (r: (Vec<Vec<u8>>, Vec<u8>))
    ensures
        r.0.deep_view() == split_bytes((Seq::<Seq<u8>>::empty(), carry@), chunk@).0,
        r.1@ == split_bytes((Seq::<Seq<u8>>::empty(), carry@), chunk@).1,
{
    let ghost start: (Seq<Seq<u8>>, Seq<u8>) = (Seq::<Seq<u8>>::empty(), carry@);
    let mut lines: Vec<Vec<u8>> = Vec::new();
    let mut cur: Vec<u8> = carry;
    let n = chunk.len();
    assert(chunk@.skip(0) =~= chunk@);
    assert(lines.deep_view() =~= Seq::<Seq<u8>>::empty());
    for i in 0..n
        invariant
            n == chunk@.len(),
            split_bytes(start, chunk@) == split_bytes(
                (lines.deep_view(), cur@),
                chunk@.skip(i as int),
            ),
    {
        let ghost pre: (Seq<Seq<u8>>, Seq<u8>) = (lines.deep_view(), cur@);
        proof {
            assert(chunk@.skip(i as int)[0] == chunk@[i as int]);
            assert(chunk@.skip(i as int).drop_first() =~= chunk@.skip(i as int + 1));
        }
        let b = chunk[i];
        if b == ('\n' as u8) {
            let ghost old_lines = lines.deep_view();
            lines.push(cur);
            cur = Vec::new();
            proof {
                assert(lines.deep_view() =~~= old_lines.push(pre.1));
                assert((lines.deep_view(), cur@) == split_step(pre, b));
            }
        } else {
            cur.push(b);
            proof {
                assert((lines.deep_view(), cur@) == split_step(pre, b));
            }
        }
    }
    assert(chunk@.skip(n as int) =~= Seq::<u8>::empty());
    (lines, cur)
}

} // verus!
