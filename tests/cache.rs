use htcache::{decode_payload, CacheRecord, CacheService, PayloadError, MAX_BODY_BYTES};

fn text(s: &str) -> String {
    s.to_string()
}

#[test]
fn round_trip_returns_payload_and_type_at_age_zero() {
    let mut c = CacheService::new(16);
    c.set_at("k", "payload", Some(30), Some(text("application/json")), 1_000);
    let r = c.get("k").expect("stored");
    assert_eq!(r.get_at(1_000).map(|s| s.as_str()), Some("payload"));
    assert_eq!(r.get_content_type().map(|s| s.as_str()), Some("application/json"));
    assert_eq!(r.get_age_at(1_000), 0);
}

#[test]
fn round_trip_by_wall_clock() {
    let mut c = CacheService::new(16);
    c.set("k", "v", None, None);
    let r = c.get("k").expect("stored");
    assert_eq!(r.get().map(|s| s.as_str()), Some("v"));
    assert!(r.get_age() >= 0 && r.get_age() <= 1);
    let h = c.fetch("k").expect("live");
    assert_eq!(h.content, "v");
}

#[test]
fn overwrite_keeps_second_value() {
    let mut c = CacheService::new(16);
    c.set_at("k", "v1", None, Some(text("a/b")), 0);
    c.set_at("k", "v2", None, None, 10);
    let r = c.get("k").expect("stored");
    assert_eq!(r.get_at(10).map(|s| s.as_str()), Some("v2"));
    assert_eq!(r.get_content_type(), None);
    assert_eq!(r.get_age_at(1_010), 1);
}

#[test]
fn expiration_boundary() {
    let r = CacheRecord::new(10_000, Some(5), text("x"), None);
    assert_eq!(r.get_at(14_999).map(|s| s.as_str()), Some("x"));
    assert_eq!(r.get_at(15_000).map(|s| s.as_str()), Some("x"));
    assert!(!r.is_expired_at(15_000));
    assert!(r.is_expired_at(15_001));
    assert_eq!(r.get_at(15_001), None);
}

#[test]
fn zero_ttl_expires_after_creation_instant() {
    let r = CacheRecord::new(0, Some(0), text("x"), None);
    assert!(!r.is_expired_at(0));
    assert!(r.is_expired_at(1));
}

#[test]
fn no_ttl_is_immortal() {
    let r = CacheRecord::new(0, None, text("forever"), None);
    assert!(!r.is_expired_at(i64::MAX));
    assert_eq!(r.get_at(i64::MAX).map(|s| s.as_str()), Some("forever"));
    assert_eq!(r.get().map(|s| s.as_str()), Some("forever"));
}

#[test]
fn ttl_record_expires_by_wall_clock() {
    let r = CacheRecord::new(0, Some(1), text("old"), None);
    assert_eq!(r.get(), None);
}

#[test]
fn age_truncates_toward_zero() {
    let r = CacheRecord::new(5_000, None, text("x"), None);
    assert_eq!(r.get_age_at(5_999), 0);
    assert_eq!(r.get_age_at(7_500), 2);
    assert_eq!(r.get_age_at(3_500), -1);
    assert_eq!(r.get_age_at(4_001), 0);
}

#[test]
fn age_at_extremes() {
    let r = CacheRecord::new(i64::MIN, None, text("x"), None);
    assert_eq!(r.get_age_at(i64::MAX), 18_446_744_073_709_551);
    let r = CacheRecord::new(i64::MAX, None, text("x"), None);
    assert_eq!(r.get_age_at(i64::MIN), -18_446_744_073_709_551);
}

#[test]
fn sweep_keeps_exactly_live_records() {
    let mut c = CacheService::new(4);
    c.set_at("short", "s", Some(1), None, 0);
    c.set_at("long", "l", Some(100), None, 0);
    c.set_at("forever", "f", None, None, 0);
    c.gc_at(2_000);
    assert!(c.get("short").is_none());
    assert!(c.get("long").is_some());
    assert!(c.get("forever").is_some());
    c.gc_at(200_000);
    assert!(c.get("long").is_none());
    assert_eq!(c.get("forever").unwrap().get_at(200_000).map(|s| s.as_str()), Some("f"));
}

#[test]
fn sweep_twice_is_same_as_once() {
    let mut c = CacheService::new(4);
    c.set_at("a", "1", Some(1), None, 0);
    c.set_at("b", "2", None, None, 0);
    c.set_at("c", "3", Some(10), None, 0);
    c.gc_at(5_000);
    let once: Vec<bool> = ["a", "b", "c"].iter().map(|k| c.get(k).is_some()).collect();
    c.gc_at(5_000);
    let twice: Vec<bool> = ["a", "b", "c"].iter().map(|k| c.get(k).is_some()).collect();
    assert_eq!(once, vec![false, true, true]);
    assert_eq!(once, twice);
}

#[test]
fn sweep_on_empty_store() {
    let mut c = CacheService::new(0);
    c.gc_at(0);
    c.gc();
    assert!(c.get("x").is_none());
}

#[test]
fn missing_key_is_not_found() {
    let c = CacheService::new(8);
    assert!(c.get("nope").is_none());
    assert!(c.fetch_at("nope", 0).is_none());
}

#[test]
fn distinct_keys_do_not_alias() {
    let mut c = CacheService::new(8);
    c.set_at("a", "1", None, None, 0);
    c.set_at("b", "2", None, None, 0);
    c.set_at("", "empty", None, None, 0);
    assert_eq!(c.fetch_at("a", 0).unwrap().content, "1");
    assert_eq!(c.fetch_at("b", 0).unwrap().content, "2");
    assert_eq!(c.fetch_at("", 0).unwrap().content, "empty");
}

#[test]
fn put_then_get_serves_plain_text_at_age_zero() {
    let mut c = CacheService::new(128);
    c.set_at("foo", "bar", None, None, 42_000);
    let h = c.fetch_at("foo", 42_000).expect("found");
    assert_eq!(h.content, "bar");
    assert_eq!(h.content_type, "text/plain");
    assert_eq!(h.age, 0);
}

#[test]
fn stored_content_type_is_echoed() {
    let mut c = CacheService::new(128);
    c.set_at("foo", "{}", None, Some(text("application/json")), 0);
    let h = c.fetch_at("foo", 3_000).expect("found");
    assert_eq!(h.content_type, "application/json");
    assert_eq!(h.age, 3);
}

#[test]
fn put_with_ttl_then_wait_is_not_found() {
    let mut c = CacheService::new(128);
    c.set_at("foo", "bar", Some(1), None, 0);
    assert!(c.fetch_at("foo", 2_000).is_none());
    assert!(c.get("foo").is_some());
}

#[test]
fn put_twice_serves_latest() {
    let mut c = CacheService::new(128);
    c.set_at("foo", "a", None, None, 0);
    c.set_at("foo", "b", None, None, 0);
    assert_eq!(c.fetch_at("foo", 0).unwrap().content, "b");
}

#[test]
fn oversized_body_is_refused_and_store_unchanged() {
    let c = CacheService::new(128);
    let body = vec![b'x'; 200 * 1024];
    assert_eq!(decode_payload(body), Err(PayloadError::TooLarge));
    assert!(c.get("big").is_none());
}

#[test]
fn body_at_the_limit_is_accepted() {
    let body = vec![b'y'; MAX_BODY_BYTES as usize];
    let s = decode_payload(body).expect("accepted");
    assert_eq!(s.len(), 131_072);
    assert_eq!(decode_payload(vec![b'y'; 131_073]), Err(PayloadError::TooLarge));
}

#[test]
fn invalid_utf8_body_is_refused() {
    assert_eq!(decode_payload(vec![0xff, 0xfe]), Err(PayloadError::NotText));
}

#[test]
fn utf8_body_is_decoded() {
    assert_eq!(decode_payload("h\u{e9}llo".as_bytes().to_vec()), Ok(text("h\u{e9}llo")));
    assert_eq!(decode_payload(Vec::new()), Ok(String::new()));
}

#[test]
fn sweep_removes_ttl_key_keeps_untimed() {
    let mut c = CacheService::new(128);
    c.set_at("ttl", "t", Some(1), None, 0);
    c.set_at("keep", "k", None, None, 0);
    c.gc_at(2_000);
    assert!(c.get("ttl").is_none());
    assert_eq!(c.fetch_at("keep", 2_000).unwrap().content, "k");
}

#[test]
fn concurrent_writers_and_sweeper_match_serial_outcome() {
    let rt = tokio::runtime::Builder::new_multi_thread()
        .worker_threads(4)
        .build()
        .expect("runtime");
    let cache = std::sync::Arc::new(tokio::sync::Mutex::new(CacheService::new(8)));
    rt.block_on(async {
        let mut tasks = Vec::new();
        for w in 0..8u32 {
            let cache = cache.clone();
            tasks.push(tokio::spawn(async move {
                for i in 0..50u32 {
                    let key = format!("w{}-{}", w, i);
                    let val = format!("{}", i * 7 + w);
                    cache.lock().await.set_at(&key, &val, None, None, 0);
                    let seen = cache.lock().await.fetch_at(&key, 0).map(|h| h.content);
                    assert_eq!(seen, Some(val));
                }
            }));
        }
        let sweeper = cache.clone();
        tasks.push(tokio::spawn(async move {
            for _ in 0..20 {
                sweeper.lock().await.gc_at(1_000_000);
                tokio::task::yield_now().await;
            }
        }));
        for t in tasks {
            t.await.expect("task");
        }
    });
    let c = rt.block_on(cache.lock());
    for w in 0..8u32 {
        for i in 0..50u32 {
            let key = format!("w{}-{}", w, i);
            assert_eq!(c.fetch_at(&key, 0).map(|h| h.content), Some(format!("{}", i * 7 + w)));
        }
    }
}
