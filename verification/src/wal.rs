//! Bookkeeping of the indexed write-ahead log: records framed by a 4-byte
//! big-endian length, each carrying a monotonic index.
//!
//! How a record encodes its index, term and command is not defined here:
//! callers decode each record's index themselves and hand it in, so this
//! module holds the framing and the index rules, and no file handling.

use vstd::prelude::*;
use crate::byteseq::views;
use crate::frame::{be_u32_at, be_u32_bytes, buf_get_u32, buf_put_u32, lemma_be_u32_roundtrip};

verus! {

/// The bytes of the frame that carries `data`: its length, truncated to 32
/// bits, big-endian, then the data.
pub open spec fn frame_of(data: Seq<u8>) -> Seq<u8> {
    be_u32_bytes((data.len() % 0x1_0000_0000) as u32) + data
}

/// The bytes of a log holding `records`, one frame each, in order.
pub open spec fn frames_bytes(records: Seq<Seq<u8>>) -> Seq<u8>
    decreases records.len(),
{
    if records.len() == 0 {
        Seq::empty()
    } else {
        frame_of(records[0]) + frames_bytes(records.drop_first())
    }
}

/// The records of the frames in `log`, read from the front: a tail of fewer
/// than 4 bytes ends the log; a frame cut short makes it unreadable.
pub open spec fn frames_of(log: Seq<u8>) -> Option<Seq<Seq<u8>>>
    decreases log.len(),
{
    if log.len() < 4 {
        Some(Seq::empty())
    } else {
        let len: int = be_u32_at(log, 0) as int;
        if log.len() - 4 < len {
            None
        } else {
            match frames_of(log.subrange(4 + len, log.len() as int)) {
                Some(rest) => Some(seq![log.subrange(4, 4 + len)] + rest),
                None => None,
            }
        }
    }
}

/// Frames `data` as one record of the log.
pub fn frame_record(data: &[u8]) -> (out: Vec<u8>)
    requires
        data@.len() + 4 <= isize::MAX,
    ensures
        out@ == frame_of(data@),
{
    let len: u64 = data.len() as u64;
    #[verifier::truncate]
    let len32: u32 = len as u32;
    assert(len32 == len % 0x1_0000_0000) by (bit_vector)
        requires
            len32 == len as u32;
    let mut out: Vec<u8> = Vec::new();
    buf_put_u32(&mut out, len32);
    out.extend_from_slice(data);
    assert(out@ =~= frame_of(data@));
    out
}

/// Splits a whole log into its records, as `frames_of` reads them; `None`
/// where a frame is cut short.
pub fn split_frames(log: &[u8]) -> (r: Option<Vec<Vec<u8>>>)
    ensures
        match r {
            Some(out) => frames_of(log@) == Some(views(out@)),
            None => frames_of(log@) is None,
        },
{
    let mut out: Vec<Vec<u8>> = Vec::new();
    let mut pos: usize = 0;
    proof {
        assert(log@.subrange(0, log@.len() as int) =~= log@);
        assert(views(out@) =~= Seq::<Seq<u8>>::empty());
        match frames_of(log@) {
            Some(rest) => {
                assert(views(out@) + rest =~= rest);
            },
            None => {},
        }
    }
    while log.len() - pos >= 4
        invariant
            pos <= log@.len(),
            frames_of(log@) == match frames_of(log@.subrange(pos as int, log@.len() as int)) {
                Some(rest) => Some(views(out@) + rest),
                None => None,
            },
        decreases log@.len() - pos,
    {
        let ghost tail = log@.subrange(pos as int, log@.len() as int);
        let len: usize = buf_get_u32(log, pos) as usize;
        assert(len == be_u32_at(tail, 0));
        if log.len() - pos - 4 < len {
            assert(frames_of(tail) is None);
            return None;
        }
        let data = vstd::slice::slice_to_vec(vstd::slice::slice_subrange(log, pos + 4, pos + 4 + len));
        assert(data@ =~= tail.subrange(4, 4 + len));
        assert(tail.subrange(4 + len, tail.len() as int) =~= log@.subrange(
            (pos + 4 + len) as int,
            log@.len() as int,
        ));
        let ghost before = views(out@);
        out.push(data);
        assert(views(out@) =~= before.push(data@));
        pos = pos + 4 + len;
        proof {
            match frames_of(log@.subrange(pos as int, log@.len() as int)) {
                Some(rest) => {
                    assert(views(out@) + rest =~= before + (seq![data@] + rest));
                },
                None => {},
            }
        }
    }
    assert(frames_of(log@.subrange(pos as int, log@.len() as int)) == Some(Seq::<Seq<u8>>::empty()));
    assert(views(out@) + Seq::<Seq<u8>>::empty() =~= views(out@));
    Some(out)
}

/// Reading a frame from the front of a log gives its record, then the rest
/// of the log.
pub proof fn lemma_frames_of_front(d: Seq<u8>, rest: Seq<u8>)
    requires
        d.len() < 0x1_0000_0000,
    ensures
        frames_of(frame_of(d) + rest) == match frames_of(rest) {
            Some(r) => Some(seq![d] + r),
            None => None::<Seq<Seq<u8>>>,
        },
{
    let b = frame_of(d) + rest;
    let len32: u32 = (d.len() % 0x1_0000_0000) as u32;
    assert(len32 == d.len());
    assert(b =~= Seq::<u8>::empty() + be_u32_bytes(len32) + (d + rest));
    lemma_be_u32_roundtrip(len32, Seq::<u8>::empty(), d + rest);
    assert(b.subrange(4, 4 + d.len() as int) =~= d);
    assert(b.subrange(4 + d.len() as int, b.len() as int) =~= rest);
}

/// Reading a log back gives the records written to it, in order, as long
/// as each record's length fits the 32-bit length field.
pub proof fn lemma_frames_roundtrip(records: Seq<Seq<u8>>)
    requires
        forall|i: int| 0 <= i < records.len() ==> #[trigger] records[i].len() < 0x1_0000_0000,
    ensures
        frames_of(frames_bytes(records)) == Some(records),
    decreases records.len(),
{
    if records.len() > 0 {
        let rest = records.drop_first();
        assert(forall|i: int| 0 <= i < rest.len() ==> rest[i] == records[i + 1]);
        lemma_frames_roundtrip(rest);
        lemma_frames_of_front(records[0], frames_bytes(rest));
        assert(seq![records[0]] + rest =~= records);
    }
}

/// The largest index among those present, 0 where there is none.
pub open spec fn max_index(indices: Seq<Option<u64>>) -> u64
    decreases indices.len(),
{
    if indices.len() == 0 {
        0
    } else {
        let m: u64 = max_index(indices.drop_last());
        match indices.last() {
            Some(i) => if i > m {
                i
            } else {
                m
            },
            None => m,
        }
    }
}

/// Reading of the indexed log.
pub struct WalReader;

impl WalReader {
    /// The latest index in a log, from the indices of its records (`None` for
    /// a record that could not be read): the largest present, 0 where there is
    /// none.
    pub fn latest_index(indices: &Vec<Option<u64>>) -> (r: u64)
        ensures
            r == max_index(indices@),
    {
        let mut best: u64 = 0;
        let mut k: usize = 0;
        while k < indices.len()
            invariant
                k <= indices@.len(),
                best == max_index(indices@.subrange(0, k as int)),
            decreases indices@.len() - k,
        {
            assert(indices@.subrange(0, k + 1).drop_last() =~= indices@.subrange(0, k as int));
            match indices[k] {
                Some(i) => if i > best {
                    best = i;
                },
                None => {},
            }
            k = k + 1;
        }
        assert(indices@.subrange(0, k as int) =~= indices@);
        best
    }
}

/// The latest index bounds every index present, and is one of them unless
/// none is present and it is 0.
pub proof fn lemma_max_index(indices: Seq<Option<u64>>)
    ensures
        forall|k: int| 0 <= k < indices.len() ==> (#[trigger] indices[k] matches Some(i) ==> i
            <= max_index(indices)),
        max_index(indices) == 0 || exists|k: int|
            0 <= k < indices.len() && #[trigger] indices[k] == Some(max_index(indices)),
    decreases indices.len(),
{
    if indices.len() > 0 {
        let init = indices.drop_last();
        lemma_max_index(init);
        assert forall|k: int| 0 <= k < indices.len() implies (#[trigger] indices[k] matches Some(
            i,
        ) ==> i <= max_index(indices)) by {
            if k < init.len() {
                assert(indices[k] == init[k]);
            }
        }
        if max_index(indices) != 0 {
            if indices.last() == Some(max_index(indices)) {
                assert(indices[indices.len() - 1] == Some(max_index(indices)));
            } else {
                let k: int = choose|k: int| 0 <= k < init.len() && #[trigger] init[k] == Some(max_index(init));
                assert(indices[k] == init[k]);
            }
        }
    }
}

/// The records of `records` (each with its index, `None` where it could not
/// be read) whose index is above `min_index`, in order.
pub open spec fn kept_after(records: Seq<(Option<u64>, Seq<u8>)>, min_index: u64) -> Seq<Seq<u8>>
    decreases records.len(),
{
    if records.len() == 0 {
        Seq::empty()
    } else {
        let init = kept_after(records.drop_last(), min_index);
        match records.last().0 {
            Some(i) => if i > min_index {
                init.push(records.last().1)
            } else {
                init
            },
            None => init,
        }
    }
}

/// Truncation keeps exactly the readable records whose index is above
/// `min_index`: every such record's data is kept, nothing else is, and the
/// kept data come in the order of the log.
pub proof fn lemma_kept_after_exact(records: Seq<(Option<u64>, Seq<u8>)>, min_index: u64)
    ensures
        kept_after(records, min_index) == records.filter_map(
            |r: (Option<u64>, Seq<u8>)|
                if r.0 is Some && r.0->0 > min_index {
                    Some(r.1)
                } else {
                    None::<Seq<u8>>
                },
        ),
        forall|k: int|
            #![trigger records[k]]
            0 <= k < records.len() && records[k].0 is Some && records[k].0->0
                > min_index ==> kept_after(records, min_index).contains(records[k].1),
        forall|j: int|
            #![trigger kept_after(records, min_index)[j]]
            0 <= j < kept_after(records, min_index).len() ==> exists|k: int|
                #![trigger records[k]]
                0 <= k < records.len() && records[k].1 == kept_after(
                    records,
                    min_index,
                )[j] && records[k].0 is Some && records[k].0->0 > min_index,
    decreases records.len(),
{
    let f = |r: (Option<u64>, Seq<u8>)|
        if r.0 is Some && r.0->0 > min_index {
            Some(r.1)
        } else {
            None::<Seq<u8>>
        };
    if records.len() > 0 {
        let init = records.drop_last();
        let last = records.last();
        let kept = kept_after(records, min_index);
        let before = kept_after(init, min_index);
        lemma_kept_after_exact(init, min_index);
        assert(forall|k: int| 0 <= k < init.len() ==> #[trigger] init[k] == records[k]);
        if last.0 is Some && last.0->0 > min_index {
            assert(kept == before.push(last.1));
            assert(before.push(last.1) =~= before + seq![last.1]);
        } else {
            assert(kept == before);
        }
        assert forall|k: int|
            #![trigger records[k]]
            0 <= k < records.len() && records[k].0 is Some && records[k].0->0
                > min_index implies kept.contains(records[k].1) by {
            if k < init.len() {
                assert(init[k] == records[k]);
                let m: int = choose|m: int| 0 <= m < before.len() && before[m] == init[k].1;
                assert(kept[m] == before[m]);
            } else {
                assert(kept[kept.len() - 1] == records[k].1);
            }
        }
        assert forall|j: int| #![trigger kept[j]] 0 <= j < kept.len() implies exists|k: int|
            #![trigger records[k]]
                0 <= k < records.len() && records[k].1 == kept[j] && records[k].0 is Some
                && records[k].0->0 > min_index by {
            if j < before.len() {
                assert(kept[j] == before[j]);
                let k: int = choose|k: int|
                    #![trigger init[k]]
                    0 <= k < init.len() && init[k].1 == before[j] && init[k].0 is Some
                        && init[k].0->0 > min_index;
                assert(init[k] == records[k]);
            } else {
                assert(records[records.len() - 1].1 == kept[j]);
            }
        }
    }
}

/// Whether `data` is the data of a record of `records` whose index could be
/// read and lies above `min_index`.
pub open spec fn readable_after(records: Seq<(Option<u64>, Vec<u8>)>, min_index: u64, data: Seq<u8>) -> bool {
    exists|k: int|
        #![trigger records[k]]
        0 <= k < records.len() && records[k].1@ == data && records[k].0 is Some && records[k].0->0
            > min_index
}

/// The records that truncating the log up to `min_index` keeps: those whose
/// index is above it, in order; records that could not be read are
/// dropped.
pub fn records_after(records: &Vec<(Option<u64>, Vec<u8>)>, min_index: u64) -> (out: Vec<Vec<u8>>)
    ensures
        views(out@) == kept_after(records@.map_values(|r: (Option<u64>, Vec<u8>)| (r.0, r.1@)), min_index),
        views(out@) == records@.map_values(|r: (Option<u64>, Vec<u8>)| (r.0, r.1@)).filter_map(
            |r: (Option<u64>, Seq<u8>)|
                if r.0 is Some && r.0->0 > min_index {
                    Some(r.1)
                } else {
                    None::<Seq<u8>>
                },
        ),
        forall|k: int|
            #![trigger records@[k]]
            0 <= k < records@.len() && records@[k].0 is Some && records@[k].0->0
                > min_index ==> views(out@).contains(records@[k].1@),
        forall|j: int|
            0 <= j < out@.len() ==> #[trigger] readable_after(records@, min_index, out@[j]@),
{
    let ghost model = records@.map_values(|r: (Option<u64>, Vec<u8>)| (r.0, r.1@));
    let mut out: Vec<Vec<u8>> = Vec::new();
    let mut k: usize = 0;
    while k < records.len()
        invariant
            k <= records@.len(),
            model == records@.map_values(|r: (Option<u64>, Vec<u8>)| (r.0, r.1@)),
            views(out@) == kept_after(model.subrange(0, k as int), min_index),
        decreases records@.len() - k,
    {
        assert(model.subrange(0, k + 1).drop_last() =~= model.subrange(0, k as int));
        assert(model.subrange(0, k + 1).last() == model[k as int]);
        let ghost before = views(out@);
        match records[k].0 {
            Some(i) => if i > min_index {
                out.push(records[k].1.clone());
                assert(views(out@) =~= before.push(records@[k as int].1@));
            },
            None => {},
        }
        k = k + 1;
    }
    assert(model.subrange(0, k as int) =~= model);
    proof {
        lemma_kept_after_exact(model, min_index);
        assert forall|k: int|
            #![trigger records@[k]]
            0 <= k < records@.len() && records@[k].0 is Some && records@[k].0->0
                > min_index implies views(out@).contains(records@[k].1@) by {
            assert(model[k] == (records@[k].0, records@[k].1@));
        }
        assert forall|j: int| 0 <= j < out@.len() implies #[trigger] readable_after(
            records@,
            min_index,
            out@[j]@,
        ) by {
            assert(views(out@)[j] == out@[j]@);
            let k: int = choose|k: int|
                #![trigger model[k]]
                0 <= k < model.len() && model[k].1 == views(out@)[j] && model[k].0 is Some
                    && model[k].0->0 > min_index;
            assert(model[k] == (records@[k].0, records@[k].1@));
        }
    }
    out
}

/// The index after `i`: one more, wrapping around at the end of the range.
pub open spec fn following_index(i: u64) -> u64 {
    if i == u64::MAX {
        0
    } else {
        (i + 1) as u64
    }
}

/// The indices that `k` assignments in a row hand out, the first being
/// `next`.
pub open spec fn assigned_indices(next: u64, k: nat) -> Seq<u64>
    decreases k,
{
    if k == 0 {
        Seq::empty()
    } else {
        seq![next] + assigned_indices(following_index(next), (k - 1) as nat)
    }
}

/// Assigns the indices of new records: one more than the latest index in
/// the log when it was opened, then counting up.
pub struct IndexCounter {
    next: u64,
}

impl IndexCounter {
    /// The index the next record gets.
    pub closed spec fn next_index(&self) -> u64 {
        self.next
    }

    /// A counter for a log whose latest index is `last`.
    pub fn after(last: u64) -> (c: IndexCounter)
        requires
            last < u64::MAX,
        ensures
            c.next_index() == last + 1,
    {
        IndexCounter { next: last + 1 }
    }

    /// Takes the next index, wrapping around at the end of the range.
    pub fn assign(&mut self) -> (i: u64)
        ensures
            i == old(self).next_index(),
            final(self).next_index() == following_index(i),
    {
        let i: u64 = self.next;
        self.next = self.next.wrapping_add(1);
        i
    }
}

/// Appends to a log whose latest index is `last` get consecutive indices:
/// `k` assignments from `IndexCounter::after(last)` hand out `last + 1`,
/// ..., `last + k`, as long as they stay in range.
pub proof fn lemma_assigned_consecutive(last: u64, k: nat)
    requires
        last + k <= u64::MAX,
    ensures
        assigned_indices((last + 1) as u64, k) == Seq::new(k, |i: int| (last + 1 + i) as u64),
    decreases k,
{
    if k > 0 {
        if last + 1 < u64::MAX {
            lemma_assigned_consecutive((last + 1) as u64, (k - 1) as nat);
        } else {
            assert(k == 1);
            assert(assigned_indices(following_index((last + 1) as u64), 0) == Seq::<u64>::empty());
        }
        assert(assigned_indices((last + 1) as u64, k) =~= Seq::new(k, |i: int| (last + 1 + i) as u64));
    }
}

/// After `k` consecutive appends to a log whose latest index is `last`, the
/// latest index of the log is `last + k`.
pub proof fn lemma_latest_after_appends(existing: Seq<Option<u64>>, last: u64, k: nat)
    requires
        max_index(existing) == last,
        last + k <= u64::MAX,
    ensures
        max_index(existing + Seq::new(k, |i: int| Some((last + 1 + i) as u64))) == last + k,
    decreases k,
{
    let all = existing + Seq::new(k, |i: int| Some((last + 1 + i) as u64));
    if k == 0 {
        assert(all =~= existing);
    } else {
        let fewer = existing + Seq::new((k - 1) as nat, |i: int| Some((last + 1 + i) as u64));
        lemma_latest_after_appends(existing, last, (k - 1) as nat);
        assert(all.drop_last() =~= fewer);
        assert(all.last() == Some((last + k) as u64));
    }
}

} // verus!
