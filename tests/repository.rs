use article_store::{ArticleId, ArticleRepository, DecodeStage, RepoError, Timestamp};

fn repo() -> ArticleRepository {
    ArticleRepository::new("articles.json".to_string())
}

fn id(s: &str) -> ArticleId {
    ArticleId::new(s.to_string())
}

fn empty_file() -> Vec<u8> {
    ArticleRepository::default_file_text().unwrap().into_bytes()
}

const EPOCH: Timestamp = Timestamp { secs: 0, nanos: 0, offset_secs: 0 };

#[test]
fn default_file_is_an_empty_mapping() {
    assert_eq!(ArticleRepository::default_file_text().unwrap(), "{\"data\":{}}");
}

#[test]
fn set_then_read_returns_content_and_id() {
    let r = repo();
    let text = r.set_entry(empty_file(), id("a1"), "hello".to_string()).unwrap();
    let a = r.read_snapshot(text.into_bytes(), &id("a1")).unwrap();
    assert_eq!(a.content, "hello");
    assert_eq!(a.id, id("a1"));
}

#[test]
fn set_entry_writes_exact_document() {
    let r = repo();
    let text = r.set_entry_at(empty_file(), id("a"), "x".to_string(), EPOCH).unwrap();
    assert_eq!(text, "{\"data\":{\"a\":{\"content\":\"x\",\"created_at\":\"1970-01-01T00:00:00Z\",\"id\":\"a\"}}}");
}

#[test]
fn timestamp_written_with_offset_and_fraction() {
    let r = repo();
    let t = Timestamp { secs: 0, nanos: 500_000_000, offset_secs: 3600 };
    let text = r.set_entry_at(empty_file(), id("a"), "x".to_string(), t).unwrap();
    assert!(text.contains("\"created_at\":\"1970-01-01T01:00:00.500+01:00\""));
}

#[test]
fn content_is_escaped_and_read_back() {
    let r = repo();
    let content = "quote \" slash \\ line\nend".to_string();
    let text = r.set_entry_at(empty_file(), id("q"), content.clone(), EPOCH).unwrap();
    assert!(text.contains("quote \\\" slash \\\\ line\\nend"));
    let a = r.read_snapshot(text.into_bytes(), &id("q")).unwrap();
    assert_eq!(a.content, content);
    assert_eq!(a.created_at, EPOCH);
}

#[test]
fn remove_absent_leaves_document_unchanged() {
    let r = repo();
    let text = r.set_entry_at(empty_file(), id("a"), "x".to_string(), EPOCH).unwrap();
    let after = r.remove(text.clone().into_bytes(), &id("missing")).unwrap();
    assert_eq!(after, text);
}

#[test]
fn remove_twice_same_as_once() {
    let r = repo();
    let t1 = r.set_entry_at(empty_file(), id("a"), "x".to_string(), EPOCH).unwrap();
    let t2 = r.set_entry_at(t1.into_bytes(), id("b"), "y".to_string(), EPOCH).unwrap();
    let once = r.remove(t2.into_bytes(), &id("a")).unwrap();
    let twice = r.remove(once.clone().into_bytes(), &id("a")).unwrap();
    assert_eq!(once, twice);
    assert_eq!(r.contains(twice.into_bytes(), &id("b")), Ok(true));
}

#[test]
fn contains_after_set_and_not_after_remove() {
    let r = repo();
    let text = r.set_entry(empty_file(), id("a"), "c".to_string()).unwrap();
    assert_eq!(r.contains(text.clone().into_bytes(), &id("a")), Ok(true));
    let removed = r.remove(text.into_bytes(), &id("a")).unwrap();
    assert_eq!(r.contains(removed.clone().into_bytes(), &id("a")), Ok(false));
    assert_eq!(removed, "{\"data\":{}}");
}

#[test]
fn serialized_writers_with_distinct_ids_lose_nothing() {
    let r = repo();
    let mut text = ArticleRepository::default_file_text().unwrap();
    let n: usize = 20;
    for i in 0..n {
        text = r.set_entry(text.into_bytes(), id(&format!("id{i}")), format!("content {i}")).unwrap();
    }
    for i in 0..n {
        let a = r.read_snapshot(text.clone().into_bytes(), &id(&format!("id{i}"))).unwrap();
        assert_eq!(a.content, format!("content {i}"));
    }
    assert_eq!(r.parse_file_as_json(text.into_bytes()).unwrap().len(), n);
}

#[test]
fn read_of_never_inserted_id_is_not_found() {
    let r = repo();
    let text = r.set_entry_at(empty_file(), id("a"), "x".to_string(), EPOCH).unwrap();
    assert_eq!(r.read_snapshot(text.into_bytes(), &id("b")).err(), Some(RepoError::NotFound));
    assert_eq!(r.read_snapshot(empty_file(), &id("b")).err(), Some(RepoError::NotFound));
}

#[test]
fn overwrite_keeps_second_content_and_time() {
    let r = repo();
    let t1 = Timestamp { secs: 1_000, nanos: 0, offset_secs: 0 };
    let t2 = Timestamp { secs: 2_000, nanos: 0, offset_secs: 0 };
    let a = r.set_entry_at(empty_file(), id("a"), "first".to_string(), t1).unwrap();
    let b = r.set_entry_at(a.into_bytes(), id("a"), "second".to_string(), t2).unwrap();
    let got = r.read_snapshot(b.into_bytes(), &id("a")).unwrap();
    assert_eq!(got.content, "second");
    assert_eq!(got.created_at, t2);
}

#[test]
fn shrinking_writes_give_whole_clean_documents() {
    let r = repo();
    let long = "x".repeat(1000);
    let t1 = r.set_entry_at(empty_file(), id("a"), long, EPOCH).unwrap();
    let t2 = r.set_entry_at(t1.clone().into_bytes(), id("a"), "short".to_string(), EPOCH).unwrap();
    assert!(t2.len() < t1.len());
    assert_eq!(r.read_snapshot(t2.clone().into_bytes(), &id("a")).unwrap().content, "short");
    let t3 = r.set_entry_at(t2.into_bytes(), id("big"), "y".repeat(500), EPOCH).unwrap();
    let t4 = r.remove(t3.clone().into_bytes(), &id("big")).unwrap();
    assert!(t4.len() < t3.len());
    assert!(t4.ends_with("}}}"));
    assert_eq!(r.parse_file_as_json(t4.into_bytes()).unwrap().len(), 1);
}

#[test]
fn constructing_twice_leaves_content_alone() {
    let first = repo();
    let text = first.set_entry_at(empty_file(), id("a"), "x".to_string(), EPOCH).unwrap();
    let second = repo();
    assert_eq!(second.path(), "articles.json");
    assert_eq!(second.read_snapshot(text.into_bytes(), &id("a")).unwrap().content, "x");
}

#[test]
fn invalid_utf8_is_a_decode_error() {
    let r = repo();
    let bytes = vec![0x7b, 0xff, 0xfe, 0x7d];
    assert_eq!(r.contains(bytes, &id("a")), Err(RepoError::Decode(DecodeStage::Utf8)));
}

#[test]
fn invalid_json_is_a_decode_error() {
    let r = repo();
    let bytes = b"{\"data\":{}}trailing".to_vec();
    assert_eq!(r.contains(bytes, &id("a")), Err(RepoError::Decode(DecodeStage::Json)));
}

#[test]
fn missing_data_key_is_a_shape_error() {
    let r = repo();
    let bytes = b"{\"other\":{}}".to_vec();
    assert_eq!(r.contains(bytes, &id("a")), Err(RepoError::Decode(DecodeStage::Shape)));
}

#[test]
fn missing_field_is_a_shape_error() {
    let r = repo();
    let bytes = b"{\"data\":{\"a\":{\"content\":\"x\",\"id\":\"a\"}}}".to_vec();
    assert_eq!(r.read_snapshot(bytes, &id("a")).err(), Some(RepoError::Decode(DecodeStage::Shape)));
}

#[test]
fn unreadable_timestamp_is_a_shape_error() {
    let r = repo();
    let bytes = b"{\"data\":{\"a\":{\"content\":\"x\",\"created_at\":\"yesterday\",\"id\":\"a\"}}}".to_vec();
    assert_eq!(r.remove(bytes, &id("a")), Err(RepoError::Decode(DecodeStage::Shape)));
}

#[test]
fn timestamp_read_with_its_offset() {
    let r = repo();
    let bytes = b"{\"data\":{\"k\":{\"content\":\"c\",\"created_at\":\"2024-05-06T07:08:09.123+09:00\",\"id\":\"k\"}}}".to_vec();
    let a = r.read_snapshot(bytes, &id("k")).unwrap();
    assert_eq!(a.created_at, Timestamp { secs: 1_714_946_889, nanos: 123_000_000, offset_secs: 32_400 });
}

#[test]
fn out_of_range_offset_is_an_encode_error() {
    let r = repo();
    let t = Timestamp { secs: 0, nanos: 0, offset_secs: 90_000 };
    assert_eq!(r.set_entry_at(empty_file(), id("a"), "x".to_string(), t), Err(RepoError::Encode));
}

#[test]
fn set_entry_stamps_the_current_time() {
    let r = repo();
    let text = r.set_entry(empty_file(), id("a"), "x".to_string()).unwrap();
    let a = r.read_snapshot(text.into_bytes(), &id("a")).unwrap();
    assert!(a.created_at.secs > 1_600_000_000);
    assert!(a.created_at.offset_secs > -86_400 && a.created_at.offset_secs < 86_400);
}

#[test]
fn article_id_shows_its_string() {
    let a = id("abc");
    assert_eq!(a.to_display_string(), "abc");
    assert_eq!(a.as_str(), "abc");
    assert_ne!(a, id("abd"));
}

#[test]
fn local_time_past_the_representable_range_is_an_encode_error() {
    let r = repo();
    let t = Timestamp { secs: 8_210_266_876_799, nanos: 0, offset_secs: 3600 };
    assert_eq!(r.set_entry_at(empty_file(), id("a"), "x".to_string(), t), Err(RepoError::Encode));
}

#[test]
fn removing_from_a_readable_document_succeeds() {
    let r = repo();
    let bytes = b"{\"data\":{\"k\":{\"content\":\"c\",\"created_at\":\"2024-05-06T07:08:09.123+09:00\",\"id\":\"k\"}}}".to_vec();
    let text = r.remove(bytes, &id("other")).unwrap();
    assert_eq!(r.read_snapshot(text.into_bytes(), &id("k")).unwrap().content, "c");
}
