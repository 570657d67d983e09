//! Framing of the reply to a list-directory request.
//!
//! The reply is the response tag followed by frames. A frame is a two-byte
//! big-endian count followed by that many 20-byte hashes. Every frame but the
//! last holds `FRAME_MAX` hashes; the last holds fewer, possibly none, and so
//! marks the end of the list.
use vstd::prelude::*;

use super::RESPONSE_LIST_DIR;
use crate::bytes::{be16, from_be16, lemma_be16_roundtrip, push_be16};

verus! {

/// The largest number of hashes in one frame.
pub const FRAME_MAX: u16 = 65535;

/// The hashes as byte sequences.
pub open spec fn hash_views(items: Seq<[u8; 20]>) -> Seq<Seq<u8>> {
    items.map_values(|h: [u8; 20]| h@)
}

/// The hashes laid end to end.
pub open spec fn hashes_bytes(hs: Seq<Seq<u8>>) -> Seq<u8>
    decreases hs.len(),
{
    if hs.len() == 0 {
        Seq::empty()
    } else {
        hashes_bytes(hs.drop_last()) + hs.last()
    }
}

/// The frames that carry a list of hashes.
pub open spec fn spec_frames(hs: Seq<Seq<u8>>) -> Seq<u8>
    decreases hs.len(),
{
    if hs.len() < FRAME_MAX {
        be16(hs.len() as u16) + hashes_bytes(hs)
    } else {
        be16(FRAME_MAX) + hashes_bytes(hs.take(FRAME_MAX as int)) + spec_frames(hs.skip(FRAME_MAX as int))
    }
}

/// The whole reply to a list-directory request.
pub open spec fn spec_list_dir_response(hs: Seq<Seq<u8>>) -> Seq<u8> {
    seq![RESPONSE_LIST_DIR] + spec_frames(hs)
}

/// The number of hashes the next frame takes.
pub open spec fn frame_count(len: nat) -> nat {
    if len < FRAME_MAX {
        len
    } else {
        FRAME_MAX as nat
    }
}

/// Reads a list back from frames: each frame's count, then that many
/// 20-byte hashes; a frame with fewer than `FRAME_MAX` hashes must end the
/// bytes.
pub open spec fn spec_parse_frames(bytes: Seq<u8>) -> Option<Seq<Seq<u8>>>
    decreases bytes.len(),
{
    if bytes.len() < 2 {
        None
    } else {
        let n = from_be16(bytes.take(2)) as int;
        let end = 2 + 20 * n;
        if bytes.len() < end {
            None
        } else {
            let items = Seq::new(n as nat, |i: int| bytes.subrange(2 + 20 * i, 2 + 20 * i + 20));
            if n < FRAME_MAX {
                if bytes.len() == end {
                    Some(items)
                } else {
                    None
                }
            } else {
                match spec_parse_frames(bytes.skip(end)) {
                    Some(rest) => Some(items + rest),
                    None => None,
                }
            }
        }
    }
}

/// Whether every entry is a 20-byte hash.
pub open spec fn all_hashes(hs: Seq<Seq<u8>>) -> bool {
    forall|i: int| 0 <= i < hs.len() ==> #[trigger] hs[i].len() == 20
}

/// Laid end to end, 20-byte hashes take 20 bytes each and each can be cut
/// out again at its offset.
pub proof fn lemma_hashes_bytes(hs: Seq<Seq<u8>>)
    requires
        all_hashes(hs),
    ensures
        hashes_bytes(hs).len() == 20 * hs.len(),
        forall|i: int|
            0 <= i < hs.len() ==> #[trigger] hashes_bytes(hs).subrange(20 * i, 20 * i + 20) == hs[i],
    decreases hs.len(),
{
    if hs.len() > 0 {
        let init = hs.drop_last();
        assert(all_hashes(init)) by {
            assert forall|i: int| 0 <= i < init.len() implies #[trigger] init[i].len() == 20 by {
                assert(init[i] == hs[i]);
            }
        }
        lemma_hashes_bytes(init);
        let b = hashes_bytes(hs);
        assert(b == hashes_bytes(init) + hs.last());
        assert(hs.last().len() == 20) by {
            assert(hs[hs.len() - 1].len() == 20);
        }
        assert forall|i: int| 0 <= i < hs.len() implies #[trigger] b.subrange(20 * i, 20 * i + 20) == hs[i] by {
            if i < hs.len() - 1 {
                assert(b.subrange(20 * i, 20 * i + 20) =~= hashes_bytes(init).subrange(20 * i, 20 * i + 20));
                assert(init[i] == hs[i]);
            } else {
                assert(b.subrange(20 * i, 20 * i + 20) =~= hs.last());
            }
        }
    }
}

/// A reader of the frames gets back exactly the list they carry: framing
/// loses, adds and reorders nothing.
pub proof fn lemma_frames_roundtrip(hs: Seq<Seq<u8>>)
    requires
        all_hashes(hs),
    ensures
        spec_parse_frames(spec_frames(hs)) == Some(hs),
    decreases hs.len(),
{
    let bytes = spec_frames(hs);
    if hs.len() < FRAME_MAX {
        lemma_hashes_bytes(hs);
        lemma_be16_roundtrip(hs.len() as u16);
        let body = hashes_bytes(hs);
        assert(bytes == be16(hs.len() as u16) + body);
        assert(bytes.take(2) =~= be16(hs.len() as u16));
        let n = hs.len() as int;
        let items = Seq::new(n as nat, |i: int| bytes.subrange(2 + 20 * i, 2 + 20 * i + 20));
        assert forall|i: int| 0 <= i < n implies #[trigger] items[i] == hs[i] by {
            assert(bytes.subrange(2 + 20 * i, 2 + 20 * i + 20) =~= body.subrange(20 * i, 20 * i + 20));
        }
        assert(items =~= hs);
    } else {
        let head = hs.take(FRAME_MAX as int);
        let tail = hs.skip(FRAME_MAX as int);
        assert(all_hashes(head)) by {
            assert forall|i: int| 0 <= i < head.len() implies #[trigger] head[i].len() == 20 by {
                assert(head[i] == hs[i]);
            }
        }
        assert(all_hashes(tail)) by {
            assert forall|i: int| 0 <= i < tail.len() implies #[trigger] tail[i].len() == 20 by {
                assert(tail[i] == hs[i + FRAME_MAX]);
            }
        }
        lemma_hashes_bytes(head);
        lemma_be16_roundtrip(FRAME_MAX);
        lemma_frames_roundtrip(tail);
        let body = hashes_bytes(head);
        let end = 2 + 20 * (FRAME_MAX as int);
        assert(bytes == be16(FRAME_MAX) + body + spec_frames(tail));
        assert(bytes.take(2) =~= be16(FRAME_MAX));
        assert(bytes.skip(end) =~= spec_frames(tail));
        let items = Seq::new(FRAME_MAX as nat, |i: int| bytes.subrange(2 + 20 * i, 2 + 20 * i + 20));
        assert forall|i: int| 0 <= i < FRAME_MAX implies #[trigger] items[i] == head[i] by {
            assert(bytes.subrange(2 + 20 * i, 2 + 20 * i + 20) =~= body.subrange(20 * i, 20 * i + 20));
        }
        assert(items =~= head);
        assert(head + tail =~= hs);
    }
}

/// The list carried by the reply is exactly the list of hashes given.
pub proof fn lemma_list_dir_response_roundtrip(items: Seq<[u8; 20]>)
    ensures
        spec_list_dir_response(hash_views(items))[0] == RESPONSE_LIST_DIR,
        spec_parse_frames(spec_list_dir_response(hash_views(items)).skip(1)) == Some(hash_views(items)),
{
    let hs = hash_views(items);
    assert(all_hashes(hs)) by {
        assert forall|i: int| 0 <= i < hs.len() implies #[trigger] hs[i].len() == 20 by {
            assert(hs[i] == items[i]@);
        }
    }
    lemma_frames_roundtrip(hs);
    assert(spec_list_dir_response(hs).skip(1) =~= spec_frames(hs));
}

/// A frame takes all remaining hashes when fewer than 65535 remain, and
/// 65535 otherwise.
pub proof fn lemma_frame_count(len: nat)
    ensures
        frame_count(len) <= 65535,
        len < 65535 ==> frame_count(len) == len,
        len >= 65535 ==> frame_count(len) == 65535,
{
}

/// The frames, byte by byte: the first two bytes count the hashes of the
/// first frame (all of them if fewer than 65535, else 65535), most
/// significant first; then come those hashes, 20 bytes each, in order.
/// With fewer than 65535 hashes that is all; otherwise the frames of the
/// remaining hashes follow.
pub proof fn lemma_frames_layout(hs: Seq<Seq<u8>>)
    requires
        all_hashes(hs),
    ensures
        ({
            let f = spec_frames(hs);
            let n = if hs.len() < 65535 { hs.len() as int } else { 65535int };
            &&& f.len() >= 2 + 20 * n
            &&& f[0] * 256 + f[1] == n
            &&& forall|i: int, j: int|
                0 <= i < n && 0 <= j < 20 ==> #[trigger] f[2 + 20 * i + j] == #[trigger] hs[i][j]
            &&& hs.len() < 65535 ==> f.len() == 2 + 20 * n
            &&& hs.len() >= 65535 ==> f.skip(2 + 20 * 65535int) == spec_frames(hs.skip(65535))
        }),
{
    let f = spec_frames(hs);
    let n = if hs.len() < 65535 { hs.len() as int } else { 65535int };
    let head = hs.take(n);
    assert(all_hashes(head)) by {
        assert forall|i: int| 0 <= i < head.len() implies #[trigger] head[i].len() == 20 by {
            assert(head[i] == hs[i]);
        }
    }
    lemma_hashes_bytes(head);
    let body = hashes_bytes(head);
    if hs.len() < 65535 {
        assert(head =~= hs);
        assert(f == be16(hs.len() as u16) + body);
    } else {
        assert(f == be16(FRAME_MAX) + body + spec_frames(hs.skip(65535)));
        assert(f.skip(2 + 20 * 65535int) =~= spec_frames(hs.skip(65535)));
    }
    assert forall|i: int, j: int| 0 <= i < n && 0 <= j < 20 implies #[trigger] f[2 + 20 * i + j]
        == #[trigger] hs[i][j] by {
        assert(body.subrange(20 * i, 20 * i + 20) == head[i]);
        assert(head[i] == hs[i]);
        assert(f[2 + 20 * i + j] == body[20 * i + j]);
        assert(body[20 * i + j] == body.subrange(20 * i, 20 * i + 20)[j]);
    }
}

/// Appends one hash.
fn push_hash(out: &mut Vec<u8>, h: &[u8; 20])
    ensures
        final(out)@ == old(out)@ + h@,
{
    let mut i: usize = 0;
    while i < 20
        invariant
            0 <= i <= 20,
            h@.len() == 20,
            out@ == old(out)@ + h@.subrange(0, i as int),
        decreases 20 - i,
    {
        out.push(h[i]);
        i = i + 1;
        assert(out@ =~= old(out)@ + h@.subrange(0, i as int));
    }
    assert(h@.subrange(0, 20) =~= h@);
}

/// Takes up to `FRAME_MAX` hashes from the front of `items` and lays them end
/// to end: returns how many were taken and their bytes.
pub fn to_frame(items: &[[u8; 20]]) -> (r: (u16, Vec<u8>))
    ensures
        r.0 == frame_count(items@.len()),
        r.1@ == hashes_bytes(hash_views(items@).take(r.0 as int)),
{
    let mut frame: Vec<u8> = Vec::new();
    let mut n: u16 = 0;
    while n < FRAME_MAX && (n as usize) < items.len()
        invariant
            n <= FRAME_MAX,
            n <= items@.len(),
            frame@ == hashes_bytes(hash_views(items@).take(n as int)),
        decreases FRAME_MAX - n,
    {
        push_hash(&mut frame, &items[n as usize]);
        proof {
            let hs = hash_views(items@);
            assert(hs.take(n + 1).drop_last() =~= hs.take(n as int));
            assert(hs.take(n + 1).last() == items@[n as int]@);
        }
        n = n + 1;
    }
    (n, frame)
}

/// The reply to a list-directory request that carries `items`, in order.
pub fn list_dir_response(items: &[[u8; 20]]) -> (r: Vec<u8>)
    ensures
        r@ == spec_list_dir_response(hash_views(items@)),
{
    let ghost hs = hash_views(items@);
    let mut out: Vec<u8> = Vec::new();
    out.push(RESPONSE_LIST_DIR);
    let mut start: usize = 0;
    assert(hs.skip(0) =~= hs);
    loop
        invariant
            start <= items@.len(),
            hs == hash_views(items@),
            out@ + spec_frames(hs.skip(start as int)) == spec_list_dir_response(hs),
        decreases items@.len() - start,
    {
        let rest = vstd::slice::slice_subrange(items, start, items.len());
        let (n, frame) = to_frame(rest);
        proof {
            assert(hash_views(rest@) =~= hs.skip(start as int));
        }
        let ghost before = out@;
        push_be16(&mut out, n);
        let mut frame = frame;
        out.append(&mut frame);
        if n != FRAME_MAX {
            proof {
                assert(hs.skip(start as int).take(n as int) =~= hs.skip(start as int));
                assert(out@ == before + spec_frames(hs.skip(start as int)));
            }
            return out;
        }
        proof {
            assert(hs.skip(start as int).skip(FRAME_MAX as int) =~= hs.skip(start + FRAME_MAX));
            assert(out@ + spec_frames(hs.skip(start + FRAME_MAX)) =~= before + spec_frames(hs.skip(start as int)));
        }
        start = start + FRAME_MAX as usize;
    }
}

} // verus!
