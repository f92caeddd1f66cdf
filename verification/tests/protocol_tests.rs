use cache_rs::protocol::{
    delete_reply, execute, get_reply, parse_op, put_reply, reply_header, MapOp, MapReply, MapServer,
    OpParse, Step,
};
use cache_rs::storage::lmdb_store::LmdbStorage;
use cache_rs::storage::StorageError;
use cache_rs::storage::memory::InMemoryStorage;
use cache_rs::storage::Storage;

fn server() -> MapServer<InMemoryStorage> {
    MapServer::new(vec![
        ("user".to_string(), InMemoryStorage::new()),
        ("orders".to_string(), InMemoryStorage::new()),
    ])
}

fn put_request(map: &[u8], key: &[u8], value: &[u8]) -> Vec<u8> {
    let mut b = vec![map.len() as u8];
    b.extend_from_slice(map);
    b.push(0x02);
    b.extend_from_slice(&(key.len() as u32).to_be_bytes());
    b.extend_from_slice(&(value.len() as u32).to_be_bytes());
    b.extend_from_slice(key);
    b.extend_from_slice(value);
    b
}

fn keyed_request(map: &[u8], op: u8, key: &[u8]) -> Vec<u8> {
    let mut b = vec![map.len() as u8];
    b.extend_from_slice(map);
    b.push(op);
    b.extend_from_slice(&(key.len() as u32).to_be_bytes());
    b.extend_from_slice(key);
    b
}

#[test]
fn documented_get_example_parses() {
    // GET from map "user" key "noel"
    let req = [0x04, 0x75, 0x73, 0x65, 0x72, 0x01, 0x00, 0x00, 0x00, 0x04, 0x6E, 0x6F, 0x65, 0x6C];
    assert_eq!(parse_op(&req, 5), OpParse::Complete(MapOp::Get { key: b"noel".to_vec() }, 14));
    let mut s = server();
    assert_eq!(s.step(&req), Step::Reply { reply: MapReply::Missing, consumed: 14, close: false });
}

#[test]
fn put_then_get_then_delete() {
    let mut s = server();
    let put = put_request(b"user", b"noel", b"123 Maple St.");
    let n = put.len();
    assert_eq!(s.step(&put), Step::Reply { reply: MapReply::Stored, consumed: n, close: false });
    let get = keyed_request(b"user", 0x01, b"noel");
    assert_eq!(
        s.step(&get),
        Step::Reply { reply: MapReply::Found(b"123 Maple St.".to_vec()), consumed: get.len(), close: false }
    );
    // the other map does not see it
    let get_orders = keyed_request(b"orders", 0x01, b"noel");
    assert_eq!(
        s.step(&get_orders),
        Step::Reply { reply: MapReply::Missing, consumed: get_orders.len(), close: false }
    );
    let del = keyed_request(b"user", 0x03, b"noel");
    assert_eq!(s.step(&del), Step::Reply { reply: MapReply::Deleted, consumed: del.len(), close: false });
    assert_eq!(s.step(&get), Step::Reply { reply: MapReply::Missing, consumed: get.len(), close: false });
}

#[test]
fn incomplete_requests_need_more() {
    let mut s = server();
    let put = put_request(b"user", b"key", b"value");
    for cut in 0..put.len() {
        assert_eq!(s.step(&put[..cut]), Step::NeedMore, "cut at {}", cut);
    }
}

#[test]
fn unknown_map_is_answered_and_closes() {
    let mut s = server();
    let req = keyed_request(b"nope", 0x01, b"k");
    assert_eq!(s.step(&req[..5]), Step::Reply { reply: MapReply::UnknownMap, consumed: 5, close: true });
}

#[test]
fn unknown_op_is_answered_and_closes() {
    let mut s = server();
    let req = [0x04, b'u', b's', b'e', b'r', 0x07];
    assert_eq!(s.step(&req), Step::Reply { reply: MapReply::UnknownOp, consumed: 5, close: true });
    assert_eq!(parse_op(&req, 5), OpParse::Unknown(0x07));
}

#[test]
fn pipelined_requests_consume_one_at_a_time() {
    let mut s = server();
    let mut buf = put_request(b"orders", b"o1", b"x");
    let first = buf.len();
    buf.extend_from_slice(&keyed_request(b"orders", 0x01, b"o1"));
    assert_eq!(s.step(&buf), Step::Reply { reply: MapReply::Stored, consumed: first, close: false });
    let rest = buf[first..].to_vec();
    assert_eq!(
        s.step(&rest),
        Step::Reply { reply: MapReply::Found(b"x".to_vec()), consumed: rest.len(), close: false }
    );
}

#[test]
fn reply_headers_match_the_format() {
    assert_eq!(reply_header(&MapReply::Found(b"abc".to_vec())), vec![0x11, 0, 0, 0, 3]);
    assert_eq!(reply_header(&MapReply::Missing), vec![0x12]);
    assert_eq!(reply_header(&MapReply::Stored), vec![0x21]);
    assert_eq!(reply_header(&MapReply::Deleted), vec![0x31]);
    assert_eq!(reply_header(&MapReply::Failed), vec![0xFF]);
    assert_eq!(reply_header(&MapReply::UnknownMap), vec![0xFE]);
    assert_eq!(reply_header(&MapReply::UnknownOp), vec![0xFD]);
}

#[test]
fn execute_on_store() {
    let mut store = InMemoryStorage::new();
    assert_eq!(execute(&mut store, MapOp::Put { key: b"k".to_vec(), value: b"v".to_vec() }), MapReply::Stored);
    assert_eq!(execute(&mut store, MapOp::Get { key: b"k".to_vec() }), MapReply::Found(b"v".to_vec()));
    assert_eq!(execute(&mut store, MapOp::Delete { key: b"k".to_vec() }), MapReply::Deleted);
    assert_eq!(store.get(b"k").unwrap(), None);
}

#[test]
fn duplicate_map_names_use_the_last() {
    let mut s = MapServer::new(vec![
        ("m".to_string(), InMemoryStorage::new()),
        ("m".to_string(), InMemoryStorage::new()),
    ]);
    let put = put_request(b"m", b"k", b"v");
    assert_eq!(s.step(&put), Step::Reply { reply: MapReply::Stored, consumed: put.len(), close: false });
}

#[test]
fn map_names_are_read_as_lossy_utf8() {
    let mut s = MapServer::new(vec![("\u{FFFD}".to_string(), InMemoryStorage::new())]);
    let put = put_request(&[0xFF], b"k", b"v");
    assert_eq!(s.step(&put), Step::Reply { reply: MapReply::Stored, consumed: put.len(), close: false });
    let get = keyed_request("\u{FFFD}".as_bytes(), 0x01, b"k");
    assert_eq!(
        s.step(&get),
        Step::Reply { reply: MapReply::Found(b"v".to_vec()), consumed: get.len(), close: false }
    );
}

fn io_error() -> StorageError {
    StorageError::Io(std::io::Error::new(std::io::ErrorKind::Other, "fail"))
}

#[test]
fn replies_follow_the_store_answer() {
    assert_eq!(get_reply(Ok(Some(b"v".to_vec()))), MapReply::Found(b"v".to_vec()));
    assert_eq!(get_reply(Ok(None)), MapReply::Missing);
    assert_eq!(get_reply(Err(io_error())), MapReply::Failed);
    assert_eq!(put_reply(Ok(())), MapReply::Stored);
    assert_eq!(put_reply(Err(io_error())), MapReply::Failed);
    assert_eq!(delete_reply(Ok(())), MapReply::Deleted);
    assert_eq!(delete_reply(Err(io_error())), MapReply::Failed);
}

#[test]
fn lmdb_backed_server_put_then_get_bytes() {
    let dir = tempfile::tempdir().unwrap();
    let store = LmdbStorage::new(dir.path().to_str().unwrap(), 16).unwrap();
    let mut s = MapServer::new(vec![("user".to_string(), store)]);
    let put = [0x04, 0x75, 0x73, 0x65, 0x72, 0x02, 0, 0, 0, 4, 0, 0, 0, 3, 0x6E, 0x6F, 0x65, 0x6C, 0x31, 0x32, 0x33];
    let get = [0x04, 0x75, 0x73, 0x65, 0x72, 0x01, 0, 0, 0, 4, 0x6E, 0x6F, 0x65, 0x6C];
    let mut sent = Vec::new();
    for req in [&put[..], &get[..]] {
        match s.step(req) {
            Step::Reply { reply, consumed, close } => {
                assert_eq!(consumed, req.len());
                assert!(!close);
                sent.extend_from_slice(&reply_header(&reply));
                if let MapReply::Found(v) = &reply {
                    sent.extend_from_slice(v);
                }
            }
            Step::NeedMore => panic!("request is complete"),
        }
    }
    assert_eq!(sent, vec![0x21, 0x11, 0x00, 0x00, 0x00, 0x03, 0x31, 0x32, 0x33]);
}
