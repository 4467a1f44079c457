//! The pipeline end to end, in memory: staging buffer, facade, transport
//! ticks, frame decoding and the session store.

use uplog::buffer::SwapBuffer;
use uplog::client::Builder;
use uplog::kv::{Value, KV};
use uplog::logger::{
    flush, init_noop, try_init, try_init_with_builder, try_init_with_host, GlobalLogger,
};
use uplog::record::{decode_frame, Level};
use uplog::storage::{fresh_session_name, read_at, Query, Session, SessionInfo, Storage};
use uplog::Error;

#[test]
fn test_swap_buffer() {
    let mut swbuf = SwapBuffer::new(1024);
    let mut read_buf = vec![0_u8; 512];
    // expects
    let test_data1 = "Nkmm Drawings\n".as_bytes();
    let test_data2 = "Bonnu Cats".as_bytes();
    let mut expect_data = test_data1.to_owned();
    expect_data.extend(test_data2);
    let expect_data = expect_data;

    // has not data
    assert_eq!(swbuf.read(&mut read_buf), 0);

    // write testdata
    assert_eq!(swbuf.write(test_data1).unwrap(), test_data1.len());
    assert_eq!(swbuf.write(test_data2).unwrap(), test_data2.len());

    // yet buffer swapping
    assert_eq!(swbuf.read(&mut read_buf), 0);

    // read data
    swbuf.swap();
    assert_eq!(swbuf.read(&mut read_buf), expect_data.len());
    assert_eq!(&read_buf[0..expect_data.len()], &expect_data);

    // has not new
    assert_eq!(swbuf.read(&mut read_buf), 0);
}

#[test]
fn test_buffer_capacity_boundary() {
    // writing exactly the capacity succeeds; one byte more fails whole
    let mut b = SwapBuffer::new(8);
    assert_eq!(b.write(&[1, 2, 3, 4, 5, 6, 7, 8]).unwrap(), 8);
    let mut b2 = SwapBuffer::new(8);
    assert_eq!(b2.write(&[1, 2, 3, 4, 5, 6, 7, 8, 9]), Err(Error::BufferFull));
    // the failed write left nothing behind
    b2.swap();
    let mut dst = vec![0_u8; 16];
    assert_eq!(b2.read(&mut dst), 0);
}

#[test]
fn test_swap_mid_stream() {
    // writes A, B; swap; write C; drain yields exactly A, B; swap again;
    // drain yields exactly C
    let a = b"record-a".to_vec();
    let b = b"record-b".to_vec();
    let c = b"record-c".to_vec();
    let mut buf = SwapBuffer::new(64);
    buf.write(&a).unwrap();
    buf.write(&b).unwrap();
    buf.swap();
    buf.write(&c).unwrap();
    let mut first = Vec::new();
    buf.read_to_end(&mut first);
    let mut ab = a.clone();
    ab.extend(&b);
    assert_eq!(first, ab);
    buf.swap();
    let mut second = Vec::new();
    buf.read_to_end(&mut second);
    assert_eq!(second, c);
}

#[test]
fn test_init_twice() {
    let mut g = GlobalLogger::new();
    assert!(try_init(&mut g).is_ok());
    // the second installation fails and the first logger stays active
    assert!(try_init(&mut g).is_err());
    assert!(g.log(Level::Info, "t", "cat", "msg", "m", "f", 1, None));
    let payload = flush(&mut g).unwrap();
    let (recs, clean) = decode_frame(&payload);
    assert!(clean);
    assert_eq!(recs.len(), 1);
}

#[test]
fn test_init_noop_is_free() {
    let mut g = GlobalLogger::new();
    init_noop(&mut g);
    // logging before installation is safe and a no-op
    assert!(!g.log(Level::Info, "t", "cat", "msg", "m", "f", 1, None));
    assert!(flush(&mut g).is_none());
    assert_eq!(g.dropped_count(), 0);
}

#[test]
fn test_round_trip_single_record() {
    let mut g = GlobalLogger::new();
    let b = Builder::default().buffer_size(4096);
    try_init_with_builder(&mut g, b).unwrap();
    assert!(g.log(Level::Info, "tests", "cat", "msg", "m", "f.rs", 7, None));
    let payload = flush(&mut g).unwrap();

    // the collector side: one session, one data file, one record
    let storage = Storage::new("root");
    let mut session = storage.create_session("00");
    let file_bytes = {
        let mut s = Vec::new();
        s.extend(&payload);
        s
    };
    let (recs, clean) = decode_frame(&file_bytes);
    assert!(clean);
    assert_eq!(recs.len(), 1);
    assert_eq!(recs[0].category, "cat");
    assert_eq!(recs[0].message, "msg");
    assert_eq!(recs[0].level(), Level::Info);
    // the session writer re-emits exactly the same bytes
    session.push(&recs[0]).unwrap();
    let batch = session.take_pending();
    assert_eq!(batch, payload);
}

#[test]
fn test_ordered_burst() {
    let mut g = GlobalLogger::new();
    try_init_with_builder(&mut g, Builder::default().buffer_size(65536)).unwrap();
    for i in 0..20_u64 {
        let mut kv = KV::new();
        kv.insert("i".to_string(), Value::U64(i));
        assert!(g.log(Level::Info, "t", "burst", "m", "mp", "f", 1, Some(kv)));
    }
    let payload = flush(&mut g).unwrap();
    let (recs, clean) = decode_frame(&payload);
    assert!(clean);
    assert_eq!(recs.len(), 20);
    for (i, r) in recs.iter().enumerate() {
        match r.key_values().unwrap().get("i") {
            Some(Value::U64(x)) => assert_eq!(*x, i as u64),
            _ => unreachable!(),
        }
    }
}

#[test]
fn test_overflow_drop() {
    let mut g = GlobalLogger::new();
    try_init_with_builder(&mut g, Builder::default().buffer_size(1024)).unwrap();
    let big = "x".repeat(300);
    let mut accepted = 0_u64;
    for _ in 0..8 {
        if g.log(Level::Info, "t", "c", big.as_str(), "m", "f", 1, None) {
            accepted += 1;
        }
    }
    assert!(accepted < 8);
    assert_eq!(g.dropped_count(), 8 - accepted);
    // the records that fit are delivered intact
    let payload = flush(&mut g).unwrap();
    let (recs, clean) = decode_frame(&payload);
    assert!(clean);
    assert_eq!(recs.len(), accepted as usize);
}

#[test]
fn test_oversized_record_always_dropped() {
    let mut g = GlobalLogger::new();
    try_init_with_builder(&mut g, Builder::default().buffer_size(64)).unwrap();
    let big = "y".repeat(200);
    assert!(!g.log(Level::Warn, "t", "c", big.as_str(), "m", "f", 1, None));
    assert_eq!(g.dropped_count(), 1);
}

#[test]
fn test_flush_with_zero_records() {
    let mut g = GlobalLogger::new();
    try_init_with_builder(&mut g, Builder::default().buffer_size(256)).unwrap();
    // one clean swap; the frame is empty rather than absent, and nothing hangs
    let payload = flush(&mut g).unwrap();
    assert_eq!(payload.len(), 0);
    let again = flush(&mut g).unwrap();
    assert_eq!(again.len(), 0);
}

#[test]
fn test_elapsed_non_decreasing() {
    let mut g = GlobalLogger::new();
    try_init_with_builder(&mut g, Builder::default().buffer_size(8192)).unwrap();
    assert!(g.log(Level::Info, "t", "c", "one", "m", "f", 1, None));
    assert!(g.log(Level::Info, "t", "c", "two", "m", "f", 2, None));
    let payload = flush(&mut g).unwrap();
    let (recs, _) = decode_frame(&payload);
    assert_eq!(recs.len(), 2);
    let a = (recs[0].elapsed_secs, recs[0].elapsed_nanos);
    let b = (recs[1].elapsed_secs, recs[1].elapsed_nanos);
    assert!(b >= a);
}

#[test]
fn test_two_concurrent_connections() {
    // two independent clients, each its own session: no cross-contamination
    let mut g1 = GlobalLogger::new();
    let mut g2 = GlobalLogger::new();
    try_init_with_builder(&mut g1, Builder::default().buffer_size(1 << 20)).unwrap();
    try_init_with_builder(&mut g2, Builder::default().buffer_size(1 << 20)).unwrap();
    for i in 0..100_u32 {
        assert!(g1.log(Level::Info, "t", "one", "m1", "m", "f", i, None));
        assert!(g2.log(Level::Info, "t", "two", "m2", "m", "f", i, None));
    }
    let p1 = flush(&mut g1).unwrap();
    let p2 = flush(&mut g2).unwrap();
    let (r1, c1) = decode_frame(&p1);
    let (r2, c2) = decode_frame(&p2);
    assert!(c1 && c2);
    assert_eq!(r1.len(), 100);
    assert_eq!(r2.len(), 100);
    for (i, r) in r1.iter().enumerate() {
        assert_eq!(r.category, "one");
        assert_eq!(r.line, Some(i as u32));
    }
    for (i, r) in r2.iter().enumerate() {
        assert_eq!(r.category, "two");
        assert_eq!(r.line, Some(i as u32));
    }
}

#[test]
fn test_cbor_seq_read() {
    // a sequence file image: ten records, then windows over it
    let mut g = GlobalLogger::new();
    try_init_with_builder(&mut g, Builder::default().buffer_size(65536)).unwrap();
    for i in 0..10_u64 {
        let mut kv = KV::new();
        kv.insert("number".to_string(), Value::U64(i));
        let msg = format!("nyan {}", i);
        assert!(g.log(Level::Info, "t", "cat", msg.as_str(), "m", "f", 1, Some(kv)));
    }
    let file_image = flush(&mut g).unwrap();

    // check index
    for start in 0..10_usize {
        let data = read_at(&file_image, start, 10);
        assert_eq!(10 - start, data.len());
        match data[0].key_values().unwrap().get("number") {
            Some(Value::U64(v)) => assert_eq!(start as u64, *v),
            _ => unreachable!(),
        }
    }
    // check len
    for len in 1..10_usize {
        let data = read_at(&file_image, 0, len);
        assert_eq!(len, data.len());
    }
}

#[test]
fn test_session() {
    let clock = uplog::session::SessionClock::session_init();
    let (s1, n1) = clock.elapsed();
    let start_time = clock.start_at();
    let (s2, n2) = clock.elapsed();
    assert!((s2, n2) >= (s1, n1));
    assert!(n1 < 1_000_000_000 && n2 < 1_000_000_000);
    assert_eq!(start_time, clock.start_at());
}

#[test]
fn test_storage_paths_and_naming() {
    let storage = Storage::new("/data/uplog");
    let session = storage.create_session("abc");
    assert_eq!(session.dirpath, "/data/uplog/abc");
    assert_eq!(session.data_path(), "/data/uplog/abc/seqdata");
    let info = SessionInfo::new("abc".to_string(), "/data/uplog/abc".to_string(), 5, 9);
    assert_eq!(info.path(), "/data/uplog/abc");
    assert_eq!(info.created_at(), 5);
    assert_eq!(info.filepath(), "/data/uplog/abc/seqdata");
    let q = Query::new(storage);
    assert_eq!(q.storage.dir, "/data/uplog");

    let name = fresh_session_name();
    assert_eq!(name.len(), 36);
    let cs: Vec<char> = name.chars().collect();
    assert_eq!(cs[8], '-');
    assert_eq!(cs[13], '-');
    assert_eq!(cs[18], '-');
    assert_eq!(cs[23], '-');
    // fresh names do not collide in practice
    assert_ne!(name, fresh_session_name());
}

#[test]
fn test_endpoint_stored() {
    // the installed endpoint is exactly the configured one
    let mut g = GlobalLogger::new();
    try_init(&mut g).unwrap();
    assert_eq!(g.endpoint().unwrap(), "ws://localhost:8040/");
    let mut h = GlobalLogger::new();
    try_init_with_host(&mut h, "example.org").unwrap();
    assert_eq!(h.endpoint().unwrap(), "ws://example.org:8040/");
    let mut b = GlobalLogger::new();
    let cfg = Builder::default().host("collector".to_string()).port(9001).buffer_size(512);
    try_init_with_builder(&mut b, cfg).unwrap();
    assert_eq!(b.endpoint().unwrap(), "ws://collector:9001/");
    // a failed re-install leaves the endpoint alone
    assert!(try_init_with_host(&mut b, "elsewhere").is_err());
    assert_eq!(b.endpoint().unwrap(), "ws://collector:9001/");
}

#[test]
fn test_builder_url() {
    let b = Builder::default();
    assert_eq!(b.url(), "ws://localhost:8040/");
    let b = Builder::default().host("example.org".to_string()).port(9001);
    assert_eq!(b.url(), "ws://example.org:9001/");
}

#[test]
fn test_frame_with_partial_terminal_record() {
    let mut g = GlobalLogger::new();
    try_init_with_builder(&mut g, Builder::default().buffer_size(4096)).unwrap();
    assert!(g.log(Level::Error, "t", "c", "whole", "m", "f", 1, None));
    let mut payload = flush(&mut g).unwrap();
    let whole = payload.clone();
    payload.extend(&whole[0..whole.len() - 3]);
    let (recs, clean) = decode_frame(&payload);
    assert!(!clean);
    assert_eq!(recs.len(), 1);
    assert_eq!(recs[0].message, "whole");
}
