//! Query dispatch decisions for the bucket-level routes.
//!
//! The HTTP layer parses a request's query string into one of these
//! shapes; the functions here decide what the gateway does with it.

use vstd::prelude::*;
use crate::error::S3Error;

verus! {

/// The recognized shapes of `PUT /{bucket}` query strings.
pub enum PutBucketQuery {
    PutBucketVersioning { versioning: String },
    ObjectLock { object_lock: String },
    CreateBucket,
}

/// The recognized shapes of `GET /{bucket}` query strings.
pub enum GetBucketTopQuery {
    ListObjects { prefix: Option<String> },
}

/// `PUT /{bucket}`: versioning and object-lock configuration are not
/// implemented; only a bare PUT — create the bucket — is accepted.
pub fn put_bucket_dispatch(q: &PutBucketQuery) -> (r: Result<(), S3Error>)
    ensures
        r is Ok <==> q is CreateBucket,
        r matches Err(e) ==> e == S3Error::NotImplemented,
{
    match q {
        PutBucketQuery::PutBucketVersioning { versioning: _ } => Err(S3Error::NotImplemented),
        PutBucketQuery::ObjectLock { object_lock: _ } => Err(S3Error::NotImplemented),
        PutBucketQuery::CreateBucket => Ok(()),
    }
}

/// `GET /{bucket}` lists objects; an absent prefix means the empty
/// prefix, matching every key.
pub fn list_prefix(q: GetBucketTopQuery) -> (r: String)
    ensures
        match q {
            GetBucketTopQuery::ListObjects { prefix } => match prefix {
                Some(p) => r == p,
                None => r@ == Seq::<char>::empty(),
            },
        },
{
    match q {
        GetBucketTopQuery::ListObjects { prefix } => match prefix {
            Some(p) => p,
            None => String::new(),
        },
    }
}

} // verus!
