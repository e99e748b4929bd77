use s3gate::chunker::Chunker;
use s3gate::error::S3Error;
use s3gate::respond::{etag_header, plan_get, u64_to_dec, GetPlan};
use s3gate::retrieval::RetrievalCursor;
use s3gate::routes::{list_prefix, put_bucket_dispatch, GetBucketTopQuery, PutBucketQuery};
use s3gate::store::{MetaStore, ObjectMeta};

fn upload_of(bytes: &[u8], backend_ref: &str) -> s3gate::chunker::UploadResult {
    let mut c = Chunker::start(4).unwrap();
    c.push_frame(bytes);
    c.finish().expect("content").into_result(String::from(backend_ref))
}

#[test]
fn create_bucket_then_duplicate_conflicts() {
    let mut s = MetaStore::new();
    assert!(s.create_bucket(&String::from("pics"), 1700000000).is_ok());
    match s.create_bucket(&String::from("pics"), 1700000001) {
        Err(e) => assert_eq!(e, S3Error::BucketAlreadyExists),
        Ok(_) => panic!("duplicate bucket name must conflict"),
    }
    assert_eq!(s.buckets.len(), 1);
}

#[test]
fn delete_missing_bucket_is_no_such_bucket() {
    let mut s = MetaStore::new();
    assert_eq!(s.delete_bucket(&String::from("ghost")), Err(S3Error::NoSuchBucket));
}

#[test]
fn delete_bucket_holding_files_fails() {
    let mut s = MetaStore::new();
    s.create_bucket(&String::from("b"), 0).unwrap();
    s.put_commit(&String::from("b"), &String::from("k"), None).unwrap();
    assert_eq!(s.delete_bucket(&String::from("b")), Err(S3Error::InternalError));
    assert_eq!(s.buckets.len(), 1);
}

#[test]
fn delete_empty_bucket_succeeds() {
    let mut s = MetaStore::new();
    s.create_bucket(&String::from("b"), 0).unwrap();
    assert_eq!(s.delete_bucket(&String::from("b")), Ok(()));
    assert_eq!(s.buckets.len(), 0);
}

#[test]
fn put_into_missing_bucket_changes_nothing() {
    let mut s = MetaStore::new();
    s.create_bucket(&String::from("other"), 0).unwrap();
    let before_versions = s.file_versions.len();
    let before_files = s.files.len();
    let before_next = s.next_id;
    let r = s.put_commit(&String::from("nope"), &String::from("k"), Some(upload_of(b"xyz", "r")));
    assert_eq!(r, Err(S3Error::NoSuchBucket));
    assert_eq!(s.file_versions.len(), before_versions);
    assert_eq!(s.files.len(), before_files);
    assert_eq!(s.next_id, before_next);
}

#[test]
fn two_writes_to_one_key_keep_both_versions_and_publish_the_last() {
    let mut s = MetaStore::new();
    s.create_bucket(&String::from("b"), 0).unwrap();
    let v1 = s.put_commit(&String::from("b"), &String::from("k"), Some(upload_of(b"first", "r1"))).unwrap();
    let v2 = s.put_commit(&String::from("b"), &String::from("k"), Some(upload_of(b"second", "r2"))).unwrap();
    assert_ne!(v1, v2);
    assert_eq!(s.files.len(), 1, "one live file per (bucket, key)");
    assert_eq!(s.files[0].current_version, v2);
    let ids: Vec<u64> = s.file_versions.iter().map(|v| v.id).collect();
    assert!(ids.contains(&v1), "the overwritten version stays in history");
    assert!(ids.contains(&v2));
}

#[test]
fn get_after_put_serves_the_stored_size_and_md5() {
    let data = b"hello world!";
    let mut s = MetaStore::new();
    s.create_bucket(&String::from("b"), 0).unwrap();
    let u = upload_of(data, "blob-1");
    let want_md5 = u.md5.clone();
    s.put_commit(&String::from("b"), &String::from("k"), Some(u)).unwrap();
    match s.lookup_object(&String::from("b"), &String::from("k")) {
        Ok(ObjectMeta::Content { size, md5, data_id }) => {
            assert_eq!(size as usize, data.len());
            assert_eq!(md5, want_md5);
            assert_eq!(
                etag_header(&md5),
                format!("\"{}\"", s3gate::digests::to_hex(&want_md5))
            );
            let part = s.resolve_part(data_id).expect("blob has a location");
            assert_eq!(part.backend_key, "blob-1");
            assert_eq!(part.start, 0);
            assert_eq!(part.end as usize, data.len());
        }
        other => panic!("expected content metadata, got {:?}", other),
    }
}

#[test]
fn lookup_on_missing_bucket_is_no_such_bucket() {
    let s = MetaStore::new();
    assert!(matches!(
        s.lookup_object(&String::from("b"), &String::from("k")),
        Err(S3Error::NoSuchBucket)
    ));
}

#[test]
fn lookup_on_unused_key_is_no_such_key() {
    let mut s = MetaStore::new();
    s.create_bucket(&String::from("b"), 0).unwrap();
    assert!(matches!(
        s.lookup_object(&String::from("b"), &String::from("unused")),
        Err(S3Error::NoSuchKey)
    ));
}

#[test]
fn zero_byte_version_serves_an_empty_body() {
    let mut s = MetaStore::new();
    s.create_bucket(&String::from("b"), 0).unwrap();
    s.put_commit(&String::from("b"), &String::from("empty"), None).unwrap();
    match s.lookup_object(&String::from("b"), &String::from("empty")) {
        Ok(meta) => {
            assert!(matches!(meta, ObjectMeta::Empty));
            assert!(matches!(plan_get(&meta), GetPlan::EmptyBody));
        }
        Err(e) => panic!("zero-byte object must resolve, got {:?}", e),
    }
}

#[test]
fn nonempty_content_is_streamed() {
    let meta = ObjectMeta::Content { size: 9, md5: vec![0u8; 16], data_id: 3 };
    match plan_get(&meta) {
        GetPlan::Stream { size, data_id } => {
            assert_eq!(size, 9);
            assert_eq!(data_id, 3);
        }
        GetPlan::EmptyBody => panic!("nonempty content must stream"),
    }
}

#[test]
fn cursor_walks_the_span_and_stops_at_the_end() {
    let mut c = RetrievalCursor::start(String::from("blob"), 0, 10);
    assert_eq!(c.next_fetch(), Some(0));
    c.advance(&vec![1u8; 4]);
    assert_eq!(c.next_fetch(), Some(4));
    c.advance(&vec![2u8; 6]);
    assert_eq!(c.next_fetch(), None);
}

#[test]
fn cursor_emits_nothing_after_a_fetch_error() {
    let mut c = RetrievalCursor::start(String::from("blob"), 0, 100);
    c.advance(&vec![0u8; 10]);
    c.fail();
    assert_eq!(c.next_fetch(), None, "a failed stream issues no further fetch");
}

#[test]
fn content_length_renders_in_decimal() {
    assert_eq!(u64_to_dec(0), "0");
    assert_eq!(u64_to_dec(7), "7");
    assert_eq!(u64_to_dec(10), "10");
    assert_eq!(u64_to_dec(90210), "90210");
    assert_eq!(u64_to_dec(u64::MAX), "18446744073709551615");
}

#[test]
fn etag_is_the_quoted_hex_md5() {
    let md5: Vec<u8> = vec![0x90, 0x01, 0x50, 0x98, 0x3c, 0xd2, 0x4f, 0xb0, 0xd6, 0x96, 0x3f, 0x7d, 0x28, 0xe1, 0x7f, 0x72];
    assert_eq!(etag_header(&md5), "\"900150983cd24fb0d6963f7d28e17f72\"");
}

#[test]
fn bucket_query_dispatch() {
    assert_eq!(
        put_bucket_dispatch(&PutBucketQuery::PutBucketVersioning { versioning: String::new() }),
        Err(S3Error::NotImplemented)
    );
    assert_eq!(
        put_bucket_dispatch(&PutBucketQuery::ObjectLock { object_lock: String::new() }),
        Err(S3Error::NotImplemented)
    );
    assert_eq!(put_bucket_dispatch(&PutBucketQuery::CreateBucket), Ok(()));
    assert_eq!(list_prefix(GetBucketTopQuery::ListObjects { prefix: Some(String::from("img/")) }), "img/");
    assert_eq!(list_prefix(GetBucketTopQuery::ListObjects { prefix: None }), "");
}

#[test]
fn error_statuses_follow_the_taxonomy() {
    assert_eq!(S3Error::AccessDenied.http_status(), 403);
    assert_eq!(S3Error::InternalError.http_status(), 500);
    assert_eq!(S3Error::NotImplemented.http_status(), 501);
    assert_eq!(S3Error::NoSuchBucket.http_status(), 404);
    assert_eq!(S3Error::NoSuchKey.http_status(), 404);
    assert_eq!(S3Error::BucketAlreadyExists.http_status(), 409);
    assert_eq!(S3Error::BucketAlreadyOwnedByYou.http_status(), 409);
}

#[test]
fn error_codes_and_messages() {
    assert_eq!(S3Error::NoSuchBucket.code(), "NoSuchBucket");
    assert_eq!(S3Error::NoSuchBucket.message(), "The specified bucket does not exist");
    assert_eq!(S3Error::NoSuchKey.code(), "NoSuchKey");
    assert_eq!(S3Error::BucketAlreadyExists.code(), "BucketAlreadyExists");
    assert_eq!(S3Error::InternalError.message(), "Server encounted an internal error");
}
