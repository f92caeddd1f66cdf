//! The named-map protocol served over TCP.
//!
//! Request: `map_len: u8`, `map_name` (`map_len` bytes), `op: u8`, then by
//! operation (lengths are 4-byte big-endian):
//! - GET (`0x01`): key length, key;
//! - PUT (`0x02`): key length, value length, key, value;
//! - DELETE (`0x03`): key length, key.
//!
//! Reply: GET found `0x11` + value length + value; GET missing `0x12`;
//! PUT done `0x21`; DELETE done `0x31`; failure `0xFF`; unknown map `0xFE`
//! and unknown operation `0xFD`, after which the connection is closed.

use vstd::prelude::*;
use crate::frame::{be_u32_at, be_u32_bytes, lemma_be_u32_roundtrip, buf_get_u32, buf_get_u8, buf_put_u32, buf_put_u8};
use crate::storage::{Storage, StorageError};

verus! {

pub const OP_GET: u8 = 0x01;
pub const OP_PUT: u8 = 0x02;
pub const OP_DELETE: u8 = 0x03;

pub const REPLY_FOUND: u8 = 0x11;
pub const REPLY_MISSING: u8 = 0x12;
pub const REPLY_STORED: u8 = 0x21;
pub const REPLY_DELETED: u8 = 0x31;
pub const REPLY_FAILED: u8 = 0xFF;
pub const REPLY_UNKNOWN_MAP: u8 = 0xFE;
pub const REPLY_UNKNOWN_OP: u8 = 0xFD;

/// An operation on one map.
#[derive(Debug, PartialEq, Eq)]
pub enum MapOp {
    Get { key: Vec<u8> },
    Put { key: Vec<u8>, value: Vec<u8> },
    Delete { key: Vec<u8> },
}

/// A reply to one request.
#[derive(Debug, PartialEq, Eq)]
pub enum MapReply {
    Found(Vec<u8>),
    Missing,
    Stored,
    Deleted,
    Failed,
    UnknownMap,
    UnknownOp,
}

/// Whether `c` is the code of a known operation.
pub open spec fn known_op(c: u8) -> bool {
    c == OP_GET || c == OP_PUT || c == OP_DELETE
}

/// Bytes of the fixed part of an operation with code `c`: the code and its
/// length fields.
pub open spec fn op_header_len(c: u8) -> int {
    if c == OP_PUT {
        9
    } else {
        5
    }
}

/// Bytes of keys and values of the operation whose code is at `at`, as its
/// length fields give them.
pub open spec fn op_body_len(b: Seq<u8>, at: int) -> int {
    if b[at] == OP_PUT {
        be_u32_at(b, at + 1) + be_u32_at(b, at + 5)
    } else {
        be_u32_at(b, at + 1) as int
    }
}

/// The wire bytes of an operation (code, length fields, key, value).
pub open spec fn op_bytes(op: MapOp) -> Seq<u8> {
    match op {
        MapOp::Get { key } => seq![OP_GET] + be_u32_bytes(key@.len() as u32) + key@,
        MapOp::Put { key, value } => seq![OP_PUT] + be_u32_bytes(key@.len() as u32) + be_u32_bytes(
            value@.len() as u32,
        ) + key@ + value@,
        MapOp::Delete { key } => seq![OP_DELETE] + be_u32_bytes(key@.len() as u32) + key@,
    }
}

/// Whether the lengths of an operation's key and value fit their fields.
pub open spec fn op_fits(op: MapOp) -> bool {
    match op {
        MapOp::Get { key } => key@.len() < 0x1_0000_0000,
        MapOp::Put { key, value } => key@.len() < 0x1_0000_0000 && value@.len() < 0x1_0000_0000,
        MapOp::Delete { key } => key@.len() < 0x1_0000_0000,
    }
}

/// Outcome of reading an operation from a buffer.
#[derive(Debug, PartialEq, Eq)]
pub enum OpParse {
    /// The buffer ends before the operation does.
    Incomplete,
    /// The code is not that of a known operation.
    Unknown(u8),
    /// The operation, and the position just after it.
    Complete(MapOp, usize),
}

/// Whether the buffer `b` holds the whole operation starting at `at`.
pub open spec fn op_complete_at(b: Seq<u8>, at: int) -> bool {
    &&& at < b.len()
    &&& known_op(b[at])
    &&& at + op_header_len(b[at]) <= b.len()
    &&& at + op_header_len(b[at]) + op_body_len(b, at) <= b.len()
}

/// Reads the operation whose code is at `at` in `buf`.
pub fn parse_op(buf: &[u8], at: usize) -> (r: OpParse)
    requires
        at <= buf@.len(),
    ensures
        match r {
            OpParse::Incomplete => at < buf@.len() ==> known_op(buf@[at as int]) && !op_complete_at(
                buf@,
                at as int,
            ),
            OpParse::Unknown(c) => at < buf@.len() && c == buf@[at as int] && !known_op(c),
            OpParse::Complete(op, end) => {
                &&& op_complete_at(buf@, at as int)
                &&& end == at + op_header_len(buf@[at as int]) + op_body_len(buf@, at as int)
                &&& buf@.subrange(at as int, end as int) == op_bytes(op)
            },
        },
{
    if at >= buf.len() {
        return OpParse::Incomplete;
    }
    let code: u8 = buf_get_u8(buf, at);
    if code != OP_GET && code != OP_PUT && code != OP_DELETE {
        return OpParse::Unknown(code);
    }
    let avail: usize = buf.len() - at;
    let ghost b = buf@;
    if code == OP_PUT {
        if avail < 9 {
            return OpParse::Incomplete;
        }
        let klen: usize = buf_get_u32(buf, at + 1) as usize;
        let vlen: usize = buf_get_u32(buf, at + 5) as usize;
        if avail - 9 < klen || avail - 9 - klen < vlen {
            return OpParse::Incomplete;
        }
        let kstart: usize = at + 9;
        let key = vstd::slice::slice_to_vec(vstd::slice::slice_subrange(buf, kstart, kstart + klen));
        let value = vstd::slice::slice_to_vec(
            vstd::slice::slice_subrange(buf, kstart + klen, kstart + klen + vlen),
        );
        let end: usize = kstart + klen + vlen;
        let op = MapOp::Put { key, value };
        proof {
            assert(b.subrange(at as int, end as int) =~= seq![OP_PUT] + b.subrange(at + 1, at + 5)
                + b.subrange(at + 5, at + 9) + key@ + value@);
            lemma_be_u32_field(b, at + 1);
            lemma_be_u32_field(b, at + 5);
            assert(b.subrange(at as int, end as int) =~= op_bytes(op));
        }
        OpParse::Complete(op, end)
    } else {
        if avail < 5 {
            return OpParse::Incomplete;
        }
        let klen: usize = buf_get_u32(buf, at + 1) as usize;
        if avail - 5 < klen {
            return OpParse::Incomplete;
        }
        let kstart: usize = at + 5;
        let key = vstd::slice::slice_to_vec(vstd::slice::slice_subrange(buf, kstart, kstart + klen));
        let end: usize = kstart + klen;
        let op = if code == OP_GET {
            MapOp::Get { key }
        } else {
            MapOp::Delete { key }
        };
        proof {
            lemma_be_u32_field(b, at + 1);
            assert(b.subrange(at as int, end as int) =~= seq![code] + b.subrange(at + 1, at + 5)
                + b.subrange(kstart as int, end as int));
            assert(b.subrange(at as int, end as int) =~= op_bytes(op));
        }
        OpParse::Complete(op, end)
    }
}

/// The four bytes at `pos` are the big-endian bytes of the number they
/// hold.
pub proof fn lemma_be_u32_field(b: Seq<u8>, pos: int)
    requires
        0 <= pos,
        pos + 4 <= b.len(),
    ensures
        b.subrange(pos, pos + 4) == be_u32_bytes(be_u32_at(b, pos)),
{
    let x0: int = b[pos] as int;
    let x1: int = b[pos + 1] as int;
    let x2: int = b[pos + 2] as int;
    let x3: int = b[pos + 3] as int;
    let v: int = x0 * 0x100_0000 + x1 * 0x1_0000 + x2 * 0x100 + x3;
    assert(0 <= v < 0x1_0000_0000 && v / 0x100_0000 == x0 && (v / 0x1_0000) % 256 == x1 && (v
        / 0x100) % 256 == x2 && v % 256 == x3) by (nonlinear_arith)
        requires
            v == x0 * 0x100_0000 + x1 * 0x1_0000 + x2 * 0x100 + x3,
            0 <= x0 < 256,
            0 <= x1 < 256,
            0 <= x2 < 256,
            0 <= x3 < 256,
    ;
    let n: u32 = be_u32_at(b, pos);
    assert(n == v);
    assert(b.subrange(pos, pos + 4) =~= be_u32_bytes(n));
}

/// The wire bytes of a reply; a found value's length is truncated to 32
/// bits.
pub open spec fn reply_bytes(reply: MapReply) -> Seq<u8> {
    match reply {
        MapReply::Found(v) => seq![REPLY_FOUND] + be_u32_bytes((v@.len() % 0x1_0000_0000) as u32)
            + v@,
        MapReply::Missing => seq![REPLY_MISSING],
        MapReply::Stored => seq![REPLY_STORED],
        MapReply::Deleted => seq![REPLY_DELETED],
        MapReply::Failed => seq![REPLY_FAILED],
        MapReply::UnknownMap => seq![REPLY_UNKNOWN_MAP],
        MapReply::UnknownOp => seq![REPLY_UNKNOWN_OP],
    }
}

/// The value a reply carries, if any.
pub open spec fn reply_value(reply: MapReply) -> Seq<u8> {
    match reply {
        MapReply::Found(v) => v@,
        _ => Seq::empty(),
    }
}

/// The bytes of a reply that come before the value it carries: the reply
/// code, and for a found value its length. The value itself follows.
pub fn reply_header(reply: &MapReply) -> (out: Vec<u8>)
    ensures
        out@ + reply_value(*reply) == reply_bytes(*reply),
{
    let mut out: Vec<u8> = Vec::new();
    match reply {
        MapReply::Found(v) => {
            let len: u64 = v.len() as u64;
            #[verifier::truncate]
            let len32: u32 = len as u32;
            assert(len32 == len % 0x1_0000_0000) by (bit_vector)
                requires
                    len32 == len as u32;
            buf_put_u8(&mut out, REPLY_FOUND);
            buf_put_u32(&mut out, len32);
        },
        MapReply::Missing => buf_put_u8(&mut out, REPLY_MISSING),
        MapReply::Stored => buf_put_u8(&mut out, REPLY_STORED),
        MapReply::Deleted => buf_put_u8(&mut out, REPLY_DELETED),
        MapReply::Failed => buf_put_u8(&mut out, REPLY_FAILED),
        MapReply::UnknownMap => buf_put_u8(&mut out, REPLY_UNKNOWN_MAP),
        MapReply::UnknownOp => buf_put_u8(&mut out, REPLY_UNKNOWN_OP),
    }
    assert(out@ + reply_value(*reply) =~= reply_bytes(*reply));
    out
}

/// Whether `reply` is what carrying out `op` on a store holding `before`,
/// and leaving it holding `after`, answers; for a store that models its
/// contents.
pub open spec fn executed(
    before: Map<Seq<u8>, Seq<u8>>,
    after: Map<Seq<u8>, Seq<u8>>,
    op: MapOp,
    reply: MapReply,
) -> bool {
    match op {
        MapOp::Get { key } => after == before && match reply {
            MapReply::Found(v) => before.contains_key(key@) && before[key@] == v@,
            MapReply::Missing => !before.contains_key(key@),
            MapReply::Failed => true,
            _ => false,
        },
        MapOp::Put { key, value } => match reply {
            MapReply::Stored => after == before.insert(key@, value@),
            MapReply::Failed => after == before || after == before.insert(key@, value@),
            _ => false,
        },
        MapOp::Delete { key } => match reply {
            MapReply::Deleted => after == before.remove(key@),
            MapReply::Failed => after == before || after == before.remove(key@),
            _ => false,
        },
    }
}

/// The reply to a GET, given what the store's lookup answered: the value
/// found, `Missing` where the key is absent, `Failed` on a store error.
pub fn get_reply(answer: Result<Option<Vec<u8>>, StorageError>) -> (reply: MapReply)
    ensures
        match answer {
            Ok(Some(v)) => reply == MapReply::Found(v),
            Ok(None) => reply is Missing,
            Err(_) => reply is Failed,
        },
{
    match answer {
        Ok(Some(v)) => MapReply::Found(v),
        Ok(None) => MapReply::Missing,
        Err(_) => MapReply::Failed,
    }
}

/// The reply to a PUT, given what the store's put answered: `Stored`, or
/// `Failed` on a store error.
pub fn put_reply(answer: Result<(), StorageError>) -> (reply: MapReply)
    ensures
        match answer {
            Ok(()) => reply is Stored,
            Err(_) => reply is Failed,
        },
{
    match answer {
        Ok(()) => MapReply::Stored,
        Err(_) => MapReply::Failed,
    }
}

/// The reply to a DELETE, given what the store's delete answered:
/// `Deleted`, or `Failed` on a store error.
pub fn delete_reply(answer: Result<(), StorageError>) -> (reply: MapReply)
    ensures
        match answer {
            Ok(()) => reply is Deleted,
            Err(_) => reply is Failed,
        },
{
    match answer {
        Ok(()) => MapReply::Deleted,
        Err(_) => MapReply::Failed,
    }
}

/// Carries out one operation on a store and gives the reply to send: the
/// store's answer as `get_reply`, `put_reply` or `delete_reply` maps it.
pub fn execute<S: Storage>(store: &mut S, op: MapOp) -> (reply: MapReply)
    requires
        old(store).well_formed(),
    ensures
        final(store).well_formed(),
        final(store).models_contents() == old(store).models_contents(),
        final(store).infallible() == old(store).infallible(),
        old(store).models_contents() ==> executed(
            old(store).contents(),
            final(store).contents(),
            op,
            reply,
        ),
        old(store).infallible() ==> reply !is Failed,
        reply !is UnknownMap && reply !is UnknownOp,
        op is Get ==> reply is Found || reply is Missing || reply is Failed,
        op is Put ==> reply is Stored || reply is Failed,
        op is Delete ==> reply is Deleted || reply is Failed,
{
    match op {
        MapOp::Get { key } => get_reply(store.get(key.as_slice())),
        MapOp::Put { key, value } => put_reply(store.put(key.as_slice(), value.as_slice())),
        MapOp::Delete { key } => delete_reply(store.delete(key.as_slice())),
    }
}

/// Whether the buffer holds the whole map name at its front.
pub open spec fn name_complete(b: Seq<u8>) -> bool {
    1 <= b.len() && 1 + b[0] <= b.len()
}

/// The map name at the front of the buffer.
pub open spec fn name_of(b: Seq<u8>) -> Seq<u8> {
    b.subrange(1, 1 + b[0])
}

/// What `String::from_utf8_lossy` makes of `bytes`: the bytes decoded as
/// UTF-8, each invalid sequence replaced by U+FFFD. A function of the
/// bytes alone.
pub uninterp spec fn utf8_lossy(bytes: Seq<u8>) -> Seq<char>;

/// `String::from_utf8_lossy`, made an owned string: the bytes decoded as
/// UTF-8, invalid sequences replaced by U+FFFD; bytes that are valid UTF-8
/// decode to the characters they encode.
#[verifier::external_body]
fn decode_lossy(bytes: &[u8]) -> (s: String)
    ensures
        s@ == utf8_lossy(bytes@),
        vstd::utf8::valid_utf8(bytes@) ==> s@ == vstd::utf8::decode_utf8(bytes@),
{
    String::from_utf8_lossy(bytes).into_owned()
}

/// The map name at the front of the buffer, as a name: its bytes decoded
/// as UTF-8, invalid sequences replaced by U+FFFD.
pub open spec fn map_name_of(b: Seq<u8>) -> Seq<char> {
    utf8_lossy(name_of(b))
}

/// The last position of `name` in `names`, if any.
pub open spec fn last_index_of(names: Seq<Seq<char>>, name: Seq<char>) -> Option<int>
    decreases names.len(),
{
    if names.len() == 0 {
        None
    } else if names.last() == name {
        Some(names.len() - 1)
    } else {
        last_index_of(names.drop_last(), name)
    }
}

/// What the server does next with the bytes it has read.
#[derive(Debug, PartialEq, Eq)]
pub enum Step {
    /// Read more bytes, then step again with the longer buffer.
    NeedMore,
    /// Send `reply`, drop the first `consumed` bytes of the buffer, and
    /// close the connection if `close`.
    Reply { reply: MapReply, consumed: usize, close: bool },
}

/// A server of several named maps.
pub struct MapServer<S: Storage> {
    maps: Vec<(String, S)>,
}

impl<S: Storage> MapServer<S> {
    /// The map names, in order.
    pub closed spec fn names(&self) -> Seq<Seq<char>> {
        self.maps@.map_values(|e: (String, S)| e.0@)
    }

    /// The store of the `i`-th map.
    pub closed spec fn store(&self, i: int) -> S {
        self.maps@[i].1
    }

    /// Every store is well formed.
    pub closed spec fn wf(&self) -> bool {
        forall|i: int| 0 <= i < self.maps@.len() ==> (#[trigger] self.maps@[i]).1.well_formed()
    }

    /// A server of `maps`, each a name and its store; where a name occurs
    /// more than once, the last store under it serves it.
    pub fn new(maps: Vec<(String, S)>) -> (s: Self)
        requires
            forall|i: int| 0 <= i < maps@.len() ==> (#[trigger] maps@[i]).1.well_formed(),
        ensures
            s.wf(),
            s.names() == maps@.map_values(|e: (String, S)| e.0@),
            forall|i: int| 0 <= i < maps@.len() ==> s.store(i) == #[trigger] maps@[i].1,
    {
        MapServer { maps }
    }

    /// The last position of `name` among the map names.
    fn find(&self, name: &String) -> (r: Option<usize>)
        ensures
            match r {
                Some(i) => i < self.maps@.len() && last_index_of(self.names(), name@) == Some(
                    i as int,
                ),
                None => last_index_of(self.names(), name@) is None,
            },
    {
        let mut i: usize = self.maps.len();
        assert(self.names().subrange(0, i as int) =~= self.names());
        while i > 0
            invariant
                i <= self.maps@.len(),
                last_index_of(self.names(), name@) == last_index_of(
                    self.names().subrange(0, i as int),
                    name@,
                ),
            decreases i,
        {
            let ghost prefix = self.names().subrange(0, i as int);
            assert(prefix.last() == self.maps@[i - 1].0@);
            if self.maps[i - 1].0 == *name {
                return Some(i - 1);
            }
            assert(prefix.drop_last() =~= self.names().subrange(0, i - 1));
            i = i - 1;
        }
        None
    }

    /// Decides what to do with the bytes `buf` read so far on a
    /// connection: wait for more, or carry out the request at its front and
    /// reply. The map name is read as UTF-8, invalid sequences replaced by
    /// U+FFFD. An unknown map or operation is answered and the connection
    /// closed.
    pub fn step(&mut self, buf: &[u8]) -> (r: Step)
        requires
            old(self).wf(),
        ensures
            final(self).wf(),
            final(self).names() == old(self).names(),
            name_complete(buf@) && vstd::utf8::valid_utf8(name_of(buf@)) ==> map_name_of(buf@)
                == vstd::utf8::decode_utf8(name_of(buf@)),
            !name_complete(buf@) ==> r is NeedMore && *final(self) == *old(self),
            name_complete(buf@) && last_index_of(old(self).names(), map_name_of(buf@)) is None ==> {
                &&& *final(self) == *old(self)
                &&& r matches Step::Reply { reply, close, .. }
                &&& reply is UnknownMap
                &&& close
            },
            name_complete(buf@) ==> (last_index_of(old(self).names(), map_name_of(buf@)) matches Some(
                i,
            ) ==> {
                let at: int = 1 + buf@[0];
                &&& forall|j: int| 0 <= j < old(self).names().len() && j != i ==> final(self).store(
                    j,
                ) == old(self).store(j)
                &&& at < buf@.len() && !known_op(buf@[at]) ==> {
                    &&& *final(self) == *old(self)
                    &&& r matches Step::Reply { reply, close, .. }
                    &&& reply is UnknownOp
                    &&& close
                }
                &&& (at < buf@.len() ==> known_op(buf@[at])) && !op_complete_at(buf@, at) ==> {
                    &&& *final(self) == *old(self)
                    &&& r is NeedMore
                }
                &&& op_complete_at(buf@, at) ==> {
                    let end: int = at + op_header_len(buf@[at]) + op_body_len(buf@, at);
                    let before = old(self).store(i);
                    let after = final(self).store(i);
                    &&& after.models_contents() == before.models_contents()
                    &&& after.infallible() == before.infallible()
                    &&& r matches Step::Reply { reply, consumed, close }
                    &&& consumed == end
                    &&& !close
                    &&& reply !is UnknownMap && reply !is UnknownOp
                    &&& exists|op: MapOp|
                        {
                            &&& buf@.subrange(at, end) == #[trigger] op_bytes(op)
                            &&& before.models_contents() ==> executed(
                                before.contents(),
                                after.contents(),
                                op,
                                reply,
                            )
                            &&& before.infallible() ==> reply !is Failed
                            &&& op is Get ==> reply is Found || reply is Missing || reply is Failed
                            &&& op is Put ==> reply is Stored || reply is Failed
                            &&& op is Delete ==> reply is Deleted || reply is Failed
                        }
                }
            }),
    {
        if buf.len() < 1 {
            return Step::NeedMore;
        }
        let name_len: usize = buf_get_u8(buf, 0) as usize;
        if buf.len() - 1 < name_len {
            return Step::NeedMore;
        }
        let name_bytes = vstd::slice::slice_subrange(buf, 1, 1 + name_len);
        let name = decode_lossy(name_bytes);
        assert(name_bytes@ == name_of(buf@));
        let i: usize = match self.find(&name) {
            Some(i) => i,
            None => {
                return Step::Reply { reply: MapReply::UnknownMap, consumed: 1 + name_len, close: true };
            },
        };
        let at: usize = 1 + name_len;
        match parse_op(buf, at) {
            OpParse::Incomplete => Step::NeedMore,
            OpParse::Unknown(_) => {
                Step::Reply { reply: MapReply::UnknownOp, consumed: at, close: true }
            },
            OpParse::Complete(op, end) => {
                let ghost old_maps = self.maps@;
                let ghost the_op = op;
                assert(old_maps[i as int].1.well_formed());
                let (entry_name, mut store) = self.maps.remove(i);
                let reply = execute(&mut store, op);
                self.maps.insert(i, (entry_name, store));
                assert(self.maps@ =~= old_maps.update(i as int, (entry_name, store)));
                assert(self.names() =~= old(self).names());
                assert(buf@.subrange(at as int, end as int) == op_bytes(the_op));
                Step::Reply { reply, consumed: end, close: false }
            },
        }
    }
}

/// Whether two operations are the same request: same kind, same key and
/// value bytes.
pub open spec fn same_op(a: MapOp, b: MapOp) -> bool {
    match (a, b) {
        (MapOp::Get { key: k1 }, MapOp::Get { key: k2 }) => k1@ == k2@,
        (MapOp::Put { key: k1, value: v1 }, MapOp::Put { key: k2, value: v2 }) => k1@ == k2@ && v1@
            == v2@,
        (MapOp::Delete { key: k1 }, MapOp::Delete { key: k2 }) => k1@ == k2@,
        _ => false,
    }
}

/// The bytes of a whole request: map name length, map name, operation.
pub open spec fn request_bytes(name: Seq<u8>, op: MapOp) -> Seq<u8> {
    seq![name.len() as u8] + name + op_bytes(op)
}

/// A request sent in the documented format is read back whole, whatever
/// follows it: its map name is complete and is the name sent, its
/// operation is complete and ends where the request does.
pub proof fn lemma_request_roundtrip(name: Seq<u8>, op: MapOp, rest: Seq<u8>)
    requires
        name.len() < 256,
        op_fits(op),
    ensures
        ({
            let b = request_bytes(name, op) + rest;
            let at: int = 1 + name.len() as int;
            &&& name_complete(b)
            &&& name_of(b) == name
            &&& op_complete_at(b, at)
            &&& at + op_header_len(b[at]) + op_body_len(b, at) == request_bytes(name, op).len()
        }),
{
    let b = request_bytes(name, op) + rest;
    let at: int = 1 + name.len() as int;
    assert(b[0] == name.len());
    assert(name_of(b) =~= name);
    let pre = seq![name.len() as u8] + name;
    match op {
        MapOp::Get { key } => {
            let k: u32 = key@.len() as u32;
            assert(b =~= (pre + seq![OP_GET]) + be_u32_bytes(k) + (key@ + rest));
            lemma_be_u32_roundtrip(k, pre + seq![OP_GET], key@ + rest);
        },
        MapOp::Delete { key } => {
            let k: u32 = key@.len() as u32;
            assert(b =~= (pre + seq![OP_DELETE]) + be_u32_bytes(k) + (key@ + rest));
            lemma_be_u32_roundtrip(k, pre + seq![OP_DELETE], key@ + rest);
        },
        MapOp::Put { key, value } => {
            let k: u32 = key@.len() as u32;
            let v: u32 = value@.len() as u32;
            assert(b =~= (pre + seq![OP_PUT]) + be_u32_bytes(k) + (be_u32_bytes(v) + key@ + value@
                + rest));
            lemma_be_u32_roundtrip(k, pre + seq![OP_PUT], be_u32_bytes(v) + key@ + value@ + rest);
            assert(b =~= (pre + seq![OP_PUT] + be_u32_bytes(k)) + be_u32_bytes(v) + (key@ + value@
                + rest));
            lemma_be_u32_roundtrip(v, pre + seq![OP_PUT] + be_u32_bytes(k), key@ + value@ + rest);
        },
    }
}

/// Distinct requests have distinct bytes: bytes that both `a` and `b`
/// encode to make them the same request.
pub proof fn lemma_op_bytes_injective(a: MapOp, b: MapOp)
    requires
        op_fits(a),
        op_fits(b),
        op_bytes(a) == op_bytes(b),
    ensures
        same_op(a, b),
{
    let s = op_bytes(a);
    let empty = Seq::<u8>::empty();
    match (a, b) {
        (MapOp::Get { key: k1 }, MapOp::Get { key: k2 }) => {
            assert(k1@ =~= s.subrange(5, s.len() as int));
            assert(k2@ =~= s.subrange(5, s.len() as int));
        },
        (MapOp::Delete { key: k1 }, MapOp::Delete { key: k2 }) => {
            assert(k1@ =~= s.subrange(5, s.len() as int));
            assert(k2@ =~= s.subrange(5, s.len() as int));
        },
        (MapOp::Put { key: k1, value: v1 }, MapOp::Put { key: k2, value: v2 }) => {
            let l1: u32 = k1@.len() as u32;
            let l2: u32 = k2@.len() as u32;
            assert(op_bytes(a) =~= seq![OP_PUT] + be_u32_bytes(l1) + (be_u32_bytes(
                v1@.len() as u32,
            ) + k1@ + v1@));
            assert(op_bytes(b) =~= seq![OP_PUT] + be_u32_bytes(l2) + (be_u32_bytes(
                v2@.len() as u32,
            ) + k2@ + v2@));
            lemma_be_u32_roundtrip(l1, seq![OP_PUT], be_u32_bytes(v1@.len() as u32) + k1@ + v1@);
            lemma_be_u32_roundtrip(l2, seq![OP_PUT], be_u32_bytes(v2@.len() as u32) + k2@ + v2@);
            assert(k1@ =~= s.subrange(9, 9 + k1@.len() as int));
            assert(k2@ =~= s.subrange(9, 9 + k2@.len() as int));
            assert(v1@ =~= s.subrange(9 + k1@.len() as int, s.len() as int));
            assert(v2@ =~= s.subrange(9 + k2@.len() as int, s.len() as int));
        },
        _ => {
            assert(s[0] == op_bytes(a)[0]);
            assert(s[0] == op_bytes(b)[0]);
        },
    }
}

} // verus!
