use cache_rs::uc::{
    payload_len, process_request, DisconnectRequest, Envelope, EvictRequest, FrameError, GetRequest,
    GetResponse, PutRequest, PutResponse, RequestBody, ResponseBody, StatsRequest, StatsResponse,
    EvictResponse,
};

#[test]
fn put_is_acknowledged() {
    let req = Envelope {
        request_id: 7,
        body: Some(RequestBody::Put(PutRequest {
            cache_name: "default".to_string(),
            key: b"k".to_vec(),
            value: b"v".to_vec(),
        })),
    };
    let resp = process_request(req);
    assert_eq!(resp.request_id, 7);
    assert_eq!(resp.body, Some(ResponseBody::PutResponse(PutResponse { success: true })));
}

#[test]
fn get_finds_nothing() {
    let req = Envelope {
        request_id: 1,
        body: Some(RequestBody::Get(GetRequest { cache_name: "default".into(), key: b"mykey".to_vec() })),
    };
    let resp = process_request(req);
    assert_eq!(resp.request_id, 1);
    assert_eq!(resp.body, Some(ResponseBody::GetResponse(GetResponse { found: false, value: vec![] })));
}

#[test]
fn evict_and_stats_and_disconnect() {
    let evict = process_request(Envelope {
        request_id: 2,
        body: Some(RequestBody::Evict(EvictRequest { cache_name: "c".into(), key: vec![1, 2] })),
    });
    assert_eq!(evict.body, Some(ResponseBody::EvictResponse(EvictResponse { success: true })));
    let stats = process_request(Envelope {
        request_id: 3,
        body: Some(RequestBody::Stats(StatsRequest { cache_name: "c".into() })),
    });
    assert_eq!(
        stats.body,
        Some(ResponseBody::StatsResponse(StatsResponse { hits: 0, misses: 0, entry_count: 0 }))
    );
    let bye = process_request(Envelope {
        request_id: 4,
        body: Some(RequestBody::Disconnect(DisconnectRequest {})),
    });
    assert_eq!(bye.request_id, 4);
    assert_eq!(bye.body, None);
}

#[test]
fn payload_length_and_version() {
    assert_eq!(payload_len(9, 1), Ok(5));
    assert_eq!(payload_len(4, 1), Ok(0));
    assert_eq!(payload_len(9, 2), Err(FrameError::UnsupportedVersion));
    assert_eq!(payload_len(0, 0), Err(FrameError::UnsupportedVersion));
}
