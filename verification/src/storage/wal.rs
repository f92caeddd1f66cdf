//! The write-ahead log: operations, their framing on disk, and the storage
//! wrapper that logs every write before applying it.
//!
//! A log is a sequence of records, each a 4-byte little-endian length
//! followed by that many bytes of serialised operation.

use vstd::prelude::*;
use crate::byteseq::views;
use vstd::bytes::{spec_u32_from_le_bytes, spec_u32_to_le_bytes};
use super::{Storage, StorageError};

verus! {

/// One write recorded in the log.
#[derive(Debug, PartialEq, Eq)]
pub enum Operation {
    Put { key: Vec<u8>, value: Vec<u8> },
    Delete { key: Vec<u8> },
}

/// The map after applying one operation to `m`.
pub open spec fn apply_op(m: Map<Seq<u8>, Seq<u8>>, op: Operation) -> Map<Seq<u8>, Seq<u8>> {
    match op {
        Operation::Put { key, value } => m.insert(key@, value@),
        Operation::Delete { key } => m.remove(key@),
    }
}

/// Whether `op` puts `value` under `key`.
pub open spec fn is_put_of(op: Operation, key: Seq<u8>, value: Seq<u8>) -> bool {
    match op {
        Operation::Put { key: k, value: v } => k@ == key && v@ == value,
        Operation::Delete { .. } => false,
    }
}

/// Whether `op` deletes `key`.
pub open spec fn is_delete_of(op: Operation, key: Seq<u8>) -> bool {
    match op {
        Operation::Put { .. } => false,
        Operation::Delete { key: k } => k@ == key,
    }
}

/// The map after applying `ops`, in order, to `m`.
pub open spec fn replay(m: Map<Seq<u8>, Seq<u8>>, ops: Seq<Operation>) -> Map<Seq<u8>, Seq<u8>>
    decreases ops.len(),
{
    if ops.len() == 0 {
        m
    } else {
        apply_op(replay(m, ops.drop_last()), ops.last())
    }
}

/// The bytes of the record that carries `payload`: its length, truncated to
/// 32 bits, little-endian, then the payload.
pub open spec fn record_bytes(payload: Seq<u8>) -> Seq<u8> {
    spec_u32_to_le_bytes((payload.len() % 0x1_0000_0000) as u32) + payload
}

/// The bytes of a log holding `payloads`, one record each, in order.
pub open spec fn log_bytes(payloads: Seq<Seq<u8>>) -> Seq<u8>
    decreases payloads.len(),
{
    if payloads.len() == 0 {
        Seq::empty()
    } else {
        record_bytes(payloads[0]) + log_bytes(payloads.drop_first())
    }
}

/// The payloads of the records in `log`, read from the front: a tail of
/// fewer than 4 bytes ends the log; a record whose payload is cut short
/// makes the log unreadable (`None`).
pub open spec fn records_of(log: Seq<u8>) -> Option<Seq<Seq<u8>>>
    decreases log.len(),
{
    if log.len() < 4 {
        Some(Seq::empty())
    } else {
        let len: int = spec_u32_from_le_bytes(log.subrange(0, 4)) as int;
        if log.len() - 4 < len {
            None
        } else {
            match records_of(log.subrange(4 + len, log.len() as int)) {
                Some(rest) => Some(seq![log.subrange(4, 4 + len)] + rest),
                None => None,
            }
        }
    }
}

/// Frames `payload` as one log record.
pub fn encode_record(payload: &[u8]) -> (out: Vec<u8>)
    ensures
        out@ == record_bytes(payload@),
{
    let len: u64 = payload.len() as u64;
    #[verifier::truncate]
    let len32: u32 = len as u32;
    assert(len32 == len % 0x1_0000_0000) by (bit_vector)
        requires
            len32 == len as u32;
    let mut out = vstd::bytes::u32_to_le_bytes(len32);
    out.extend_from_slice(payload);
    assert(out@ =~= record_bytes(payload@));
    out
}

/// Splits a whole log into the payloads of its records, as `records_of`
/// reads them; `None` where a record is cut short.
pub fn split_records(log: &[u8]) -> (r: Option<Vec<Vec<u8>>>)
    ensures
        match r {
            Some(out) => records_of(log@) == Some(views(out@)),
            None => records_of(log@) is None,
        },
{
    let mut out: Vec<Vec<u8>> = Vec::new();
    let mut pos: usize = 0;
    proof {
        assert(log@.subrange(0, log@.len() as int) =~= log@);
        assert(views(out@) =~= Seq::<Seq<u8>>::empty());
        match records_of(log@) {
            Some(rest) => {
                assert(views(out@) + rest =~= rest);
            },
            None => {},
        }
    }
    while log.len() - pos >= 4
        invariant
            pos <= log@.len(),
            records_of(log@) == match records_of(log@.subrange(pos as int, log@.len() as int)) {
                Some(rest) => Some(views(out@) + rest),
                None => None,
            },
        decreases log@.len() - pos,
    {
        let ghost tail = log@.subrange(pos as int, log@.len() as int);
        let len_bytes = vstd::slice::slice_subrange(log, pos, pos + 4);
        assert(len_bytes@ =~= tail.subrange(0, 4));
        let len32: u32 = vstd::bytes::u32_from_le_bytes(len_bytes);
        let len: usize = len32 as usize;
        if log.len() - pos - 4 < len {
            assert(records_of(tail) is None);
            return None;
        }
        let payload = vstd::slice::slice_to_vec(vstd::slice::slice_subrange(log, pos + 4, pos + 4 + len));
        assert(payload@ =~= tail.subrange(4, 4 + len));
        assert(tail.subrange(4 + len, tail.len() as int) =~= log@.subrange(
            (pos + 4 + len) as int,
            log@.len() as int,
        ));
        let ghost before = views(out@);
        out.push(payload);
        assert(views(out@) =~= before.push(payload@));
        pos = pos + 4 + len;
        proof {
            match records_of(log@.subrange(pos as int, log@.len() as int)) {
                Some(rest) => {
                    assert(views(out@) + rest =~= before + (seq![payload@] + rest));
                },
                None => {},
            }
        }
    }
    assert(records_of(log@.subrange(pos as int, log@.len() as int)) == Some(Seq::<Seq<u8>>::empty()));
    assert(views(out@) + Seq::<Seq<u8>>::empty() =~= views(out@));
    Some(out)
}

/// Reading a record back from the front of a log gives its payload, then
/// the rest of the log.
pub proof fn lemma_records_of_front(payload: Seq<u8>, rest: Seq<u8>)
    requires
        payload.len() < 0x1_0000_0000,
    ensures
        records_of(record_bytes(payload) + rest) == match records_of(rest) {
            Some(r) => Some(seq![payload] + r),
            None => None::<Seq<Seq<u8>>>,
        },
{
    vstd::bytes::lemma_auto_spec_u32_to_from_le_bytes();
    let len32: u32 = (payload.len() % 0x1_0000_0000) as u32;
    assert(len32 == payload.len());
    let b = record_bytes(payload) + rest;
    let le = spec_u32_to_le_bytes(len32);
    assert(le.len() == 4);
    assert(b.subrange(0, 4) =~= le);
    assert(b.subrange(4, 4 + payload.len() as int) =~= payload);
    assert(b.subrange(4 + payload.len() as int, b.len() as int) =~= rest);
}

/// Appending a record to a log extends the log's bytes by that record.
pub proof fn lemma_log_bytes_push(payloads: Seq<Seq<u8>>, p: Seq<u8>)
    ensures
        log_bytes(payloads.push(p)) == log_bytes(payloads) + record_bytes(p),
    decreases payloads.len(),
{
    if payloads.len() == 0 {
        assert(payloads.push(p).drop_first() =~= Seq::<Seq<u8>>::empty());
        assert(payloads.push(p)[0] == p);
        assert(log_bytes(payloads.push(p).drop_first()) == Seq::<u8>::empty());
        assert(log_bytes(payloads.push(p)) =~= record_bytes(p));
    } else {
        lemma_log_bytes_push(payloads.drop_first(), p);
        assert(payloads.push(p).drop_first() =~= payloads.drop_first().push(p));
        assert(log_bytes(payloads.push(p)) =~= log_bytes(payloads) + record_bytes(p));
    }
}

/// Reading a log back gives the payloads written to it, in order, as long
/// as each payload's length fits the 32-bit length field.
pub proof fn lemma_log_roundtrip(payloads: Seq<Seq<u8>>)
    requires
        forall|i: int| 0 <= i < payloads.len() ==> #[trigger] payloads[i].len() < 0x1_0000_0000,
    ensures
        records_of(log_bytes(payloads)) == Some(payloads),
    decreases payloads.len(),
{
    if payloads.len() == 0 {
    } else {
        let rest = payloads.drop_first();
        assert(forall|i: int| 0 <= i < rest.len() ==> rest[i] == payloads[i + 1]);
        lemma_log_roundtrip(rest);
        lemma_records_of_front(payloads[0], log_bytes(rest));
        assert(seq![payloads[0]] + rest =~= payloads);
    }
}

/// Applies one operation to a store.
pub fn apply_operation<S: Storage>(store: &mut S, op: &Operation) -> (r: Result<(), StorageError>)
    requires
        old(store).well_formed(),
    ensures
        final(store).well_formed(),
        final(store).models_contents() == old(store).models_contents(),
        final(store).infallible() == old(store).infallible(),
        old(store).models_contents() ==> final(store).contents() == apply_op(
            old(store).contents(),
            *op,
        ) || (r is Err && final(store).contents() == old(store).contents()),
        old(store).infallible() ==> r is Ok,
{
    match op {
        Operation::Put { key, value } => store.put(key.as_slice(), value.as_slice()),
        Operation::Delete { key } => store.delete(key.as_slice()),
    }
}

/// Where the operations of a write-ahead log are kept. Nothing is promised
/// of an implementation: the log lives outside the program (a file, most
/// often), and what `replay` reads back is whatever is there.
pub trait OperationLog {
    /// Reads back every operation in the log, oldest first.
    fn replay(&mut self) -> Result<Vec<Operation>, StorageError>;

    /// Appends one operation to the log, durably.
    fn append_op(&mut self, op: &Operation) -> Result<(), StorageError>;
}

/// A store whose every write is appended to a write-ahead log before it is
/// applied.
///
/// `origin` is what the inner store held when the log was opened.
/// `logged` is every operation replayed from the log, then every operation
/// handed to the log since, whatever the append answered. `journal` is
/// every operation that took effect on the inner store: those replayed,
/// then each logged write that the inner store carried out.
pub struct WalStorage<S: Storage, L: OperationLog> {
    inner: S,
    log: L,
    origin: Ghost<Map<Seq<u8>, Seq<u8>>>,
    logged: Ghost<Seq<Operation>>,
    journal: Ghost<Seq<Operation>>,
}

impl<S: Storage, L: OperationLog> WalStorage<S, L> {
    /// What the inner store held before any operation of the log.
    pub closed spec fn origin(&self) -> Map<Seq<u8>, Seq<u8>> {
        self.origin@
    }

    /// The operations that took effect, in order, since the log was opened.
    pub closed spec fn journal(&self) -> Seq<Operation> {
        self.journal@
    }

    /// The operations replayed from the log, then those handed to it since,
    /// in order.
    pub closed spec fn logged(&self) -> Seq<Operation> {
        self.logged@
    }

    /// Whether no operation of the inner store can fail: then only the
    /// log can make a write fail, and a read never fails.
    pub closed spec fn inner_infallible(&self) -> bool {
        self.inner.infallible()
    }

    /// Wraps `inner`, first applying, in order, every operation that `log`
    /// replays. A failure to read the log, or the first failure of the
    /// inner store, is returned.
    pub fn new(inner: S, log: L) -> (r: Result<Self, StorageError>)
        requires
            inner.well_formed(),
        ensures
            r matches Ok(w) ==> {
                &&& w.well_formed()
                &&& w.models_contents() == inner.models_contents()
                &&& w.infallible() == false
                &&& w.inner_infallible() == inner.infallible()
                &&& w.origin() == inner.contents()
                &&& w.journal() == w.logged()
                &&& inner.models_contents() ==> w.contents() == replay(
                    inner.contents(),
                    w.journal(),
                )
            },
    {
        let mut log = log;
        let replayed = log.replay();
        Self::resume(inner, log, replayed)
    }

    /// Wraps `inner` and `log`, given what reading the log back gave:
    /// where that failed, its error; else the operations are applied to
    /// `inner` in order, and the first failure of the inner store is
    /// returned.
    #[verifier::loop_isolation(false)]
    pub fn resume(inner: S, log: L, replayed: Result<Vec<Operation>, StorageError>) -> (r: Result<
        Self,
        StorageError,
    >)
        requires
            inner.well_formed(),
        ensures
            replayed is Err ==> r is Err,
            replayed is Ok && inner.infallible() ==> r is Ok,
            r matches Ok(w) ==> {
                &&& w.well_formed()
                &&& w.models_contents() == inner.models_contents()
                &&& w.infallible() == false
                &&& w.inner_infallible() == inner.infallible()
                &&& w.origin() == inner.contents()
                &&& replayed matches Ok(ops) && w.journal() == ops@ && w.logged() == ops@
                &&& inner.models_contents() ==> w.contents() == replay(
                    inner.contents(),
                    w.journal(),
                )
            },
    {
        let ghost origin = inner.contents();
        let ghost models = inner.models_contents();
        let ghost never_fails = inner.infallible();
        let replayed = match replayed {
            Ok(ops) => ops,
            Err(e) => return Err(e),
        };
        let mut inner = inner;
        let mut i: usize = 0;
        while i < replayed.len()
            invariant
                i <= replayed@.len(),
                inner.well_formed(),
                inner.models_contents() == models,
                inner.infallible() == never_fails,
                inner.models_contents() ==> inner.contents() == replay(
                    origin,
                    replayed@.subrange(0, i as int),
                ),
            decreases replayed@.len() - i,
        {
            match apply_operation(&mut inner, &replayed[i]) {
                Ok(()) => {},
                Err(e) => {
                    return Err(e);
                },
            }
            assert(replayed@.subrange(0, i + 1).drop_last() =~= replayed@.subrange(0, i as int));
            i = i + 1;
        }
        assert(replayed@.subrange(0, i as int) =~= replayed@);
        Ok(
            WalStorage {
                inner,
                log,
                origin: Ghost(origin),
                logged: Ghost(replayed@),
                journal: Ghost(replayed@),
            },
        )
    }

    /// Applies `op`, given the outcome `appended` of appending it to the
    /// log: where the append failed, its error is returned and nothing
    /// changes; else the inner store's outcome is returned. The journal
    /// grows by `op` where it took effect.
    fn apply_logged(&mut self, op: Operation, appended: Result<(), StorageError>) -> (r: Result<
        (),
        StorageError,
    >)
        requires
            old(self).well_formed(),
        ensures
            final(self).well_formed(),
            final(self).models_contents() == old(self).models_contents(),
            final(self).inner_infallible() == old(self).inner_infallible(),
            final(self).origin() == old(self).origin(),
            final(self).logged() == old(self).logged(),
            appended is Err ==> r == appended && final(self).journal() == old(self).journal()
                && final(self).contents() == old(self).contents(),
            appended is Ok && old(self).inner_infallible() ==> r is Ok,
            final(self).journal() == old(self).journal().push(op) || (r is Err && final(self).journal() == old(self).journal()),
            r is Ok ==> final(self).journal() == old(self).journal().push(op),
            old(self).models_contents() ==> final(self).contents() == apply_op(
                old(self).contents(),
                op,
            ) || (r is Err && final(self).contents() == old(self).contents()),
    {
        match appended {
            Err(e) => Err(e),
            Ok(()) => {
                let ghost before = self.inner.contents();
                let r = apply_operation(&mut self.inner, &op);
                let ghost journal = self.journal@.push(op);
                assert(journal.drop_last() =~= self.journal@);
                let ghost took_effect = r is Ok || (self.inner.models_contents()
                    && self.inner.contents() == apply_op(before, op));
                self.journal = Ghost(
                    if took_effect {
                        journal
                    } else {
                        self.journal@
                    },
                );
                r
            },
        }
    }

    /// Hands `op` to the log, then applies it; where the append fails its
    /// error is returned and nothing changes but the record of what was
    /// handed to the log.
    fn log_and_apply(&mut self, op: Operation) -> (r: Result<(), StorageError>)
        requires
            old(self).well_formed(),
        ensures
            final(self).well_formed(),
            final(self).models_contents() == old(self).models_contents(),
            final(self).inner_infallible() == old(self).inner_infallible(),
            final(self).origin() == old(self).origin(),
            final(self).logged() == old(self).logged().push(op),
            final(self).journal() == old(self).journal().push(op) || (r is Err && final(self).journal() == old(self).journal()),
            r is Ok ==> final(self).journal() == old(self).journal().push(op),
            old(self).models_contents() ==> final(self).contents() == apply_op(
                old(self).contents(),
                op,
            ) || (r is Err && final(self).contents() == old(self).contents()),
    {
        let appended = self.log.append_op(&op);
        self.logged = Ghost(self.logged@.push(op));
        self.apply_logged(op, appended)
    }
}

impl<S: Storage, L: OperationLog> Storage for WalStorage<S, L> {
    /// Contents are exact where the inner store's are.
    closed spec fn models_contents(&self) -> bool {
        self.inner.models_contents()
    }

    /// Appending to the log may fail, so a write may.
    closed spec fn infallible(&self) -> bool {
        false
    }

    closed spec fn contents(&self) -> Map<Seq<u8>, Seq<u8>> {
        self.inner.contents()
    }

    /// The inner store is well formed and, where it models its contents,
    /// holds exactly the journal replayed on the origin.
    closed spec fn well_formed(&self) -> bool {
        &&& self.inner.well_formed()
        &&& self.inner.models_contents() ==> self.inner.contents() == replay(
            self.origin@,
            self.journal@,
        )
    }

    /// Reads from the inner store, which never fails where the inner
    /// store is infallible.
    fn get(&self, key: &[u8]) -> (r: Result<Option<Vec<u8>>, StorageError>)
        ensures
            self.inner_infallible() ==> r is Ok,
    {
        self.inner.get(key)
    }

    /// Appends the put to the log, then applies it; on success the journal
    /// grows by that put.
    fn put(&mut self, key: &[u8], value: &[u8]) -> (r: Result<(), StorageError>)
        ensures
            final(self).origin() == old(self).origin(),
            final(self).inner_infallible() == old(self).inner_infallible(),
            final(self).logged().drop_last() == old(self).logged(),
            is_put_of(final(self).logged().last(), key@, value@),
            final(self).journal() == old(self).journal().push(final(self).logged().last()) || (r is Err
                && final(self).journal() == old(self).journal()),
            r is Ok ==> final(self).journal() == old(self).journal().push(final(self).logged().last()),
            r is Ok && old(self).journal() == old(self).logged() ==> final(self).journal() == final(self).logged(),
    {
        let op = Operation::Put {
            key: vstd::slice::slice_to_vec(key),
            value: vstd::slice::slice_to_vec(value),
        };
        let r = self.log_and_apply(op);
        assert(self.logged@.drop_last() =~= old(self).logged@);
        r
    }

    /// Appends the delete to the log, then applies it; on success the
    /// journal grows by that delete.
    fn delete(&mut self, key: &[u8]) -> (r: Result<(), StorageError>)
        ensures
            final(self).origin() == old(self).origin(),
            final(self).inner_infallible() == old(self).inner_infallible(),
            final(self).logged().drop_last() == old(self).logged(),
            is_delete_of(final(self).logged().last(), key@),
            final(self).journal() == old(self).journal().push(final(self).logged().last()) || (r is Err
                && final(self).journal() == old(self).journal()),
            r is Ok ==> final(self).journal() == old(self).journal().push(final(self).logged().last()),
            r is Ok && old(self).journal() == old(self).logged() ==> final(self).journal() == final(self).logged(),
    {
        let op = Operation::Delete { key: vstd::slice::slice_to_vec(key) };
        let r = self.log_and_apply(op);
        assert(self.logged@.drop_last() =~= old(self).logged@);
        r
    }
}

/// What a write-ahead-logged store holds is its journal replayed on what
/// its inner store held when the log was opened.
pub proof fn lemma_contents_is_replay<S: Storage, L: OperationLog>(w: &WalStorage<S, L>)
    requires
        w.well_formed(),
        w.models_contents(),
    ensures
        w.contents() == replay(w.origin(), w.journal()),
{
}

/// A store rebuilt from a log holds what the store that wrote the log
/// held: where both started from the same contents, every write handed to
/// the writer's log took effect, and the rebuilt store replayed exactly what
/// the writer handed to its log.
pub proof fn lemma_rebuilt_matches<S1: Storage, L1: OperationLog, S2: Storage, L2: OperationLog>(
    written: &WalStorage<S1, L1>,
    rebuilt: &WalStorage<S2, L2>,
)
    requires
        written.well_formed(),
        rebuilt.well_formed(),
        written.models_contents(),
        rebuilt.models_contents(),
        written.origin() == rebuilt.origin(),
        written.journal() == written.logged(),
        rebuilt.journal() == written.logged(),
    ensures
        written.contents() == rebuilt.contents(),
{
    lemma_contents_is_replay(written);
    lemma_contents_is_replay(rebuilt);
}

} // verus!
