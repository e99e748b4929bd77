//! The error taxonomy of the gateway.
//!
//! Every failure that crosses the protocol boundary is one of these
//! variants; lower-level failures (backend transport, database) collapse
//! into `InternalError` so that no internal detail leaks to a client.

use vstd::prelude::*;
use vstd::string::StringExecFns;

verus! {

#[derive(Clone, Copy, Debug, PartialEq, Eq, Structural)]
pub enum S3Error {
    AccessDenied,
    InternalError,
    NotImplemented,
    NoSuchBucket,
    NoSuchKey,
    BucketAlreadyExists,
    BucketAlreadyOwnedByYou,
}

impl S3Error {
    /// The HTTP status this error is reported with.
    pub open spec fn status_spec(self) -> u16 {
        match self {
            S3Error::AccessDenied => 403,
            S3Error::InternalError => 500,
            S3Error::NotImplemented => 501,
            S3Error::NoSuchBucket => 404,
            S3Error::NoSuchKey => 404,
            S3Error::BucketAlreadyExists => 409,
            S3Error::BucketAlreadyOwnedByYou => 409,
        }
    }

    pub fn http_status(&self) -> (r: u16)
        ensures
            r == self.status_spec(),
    {
        match self {
            S3Error::AccessDenied => 403,
            S3Error::InternalError => 500,
            S3Error::NotImplemented => 501,
            S3Error::NoSuchBucket => 404,
            S3Error::NoSuchKey => 404,
            S3Error::BucketAlreadyExists => 409,
            S3Error::BucketAlreadyOwnedByYou => 409,
        }
    }

    /// The machine-readable code carried in an error response body.
    pub open spec fn code_spec(self) -> Seq<char> {
        match self {
            S3Error::AccessDenied => "AccessDenied"@,
            S3Error::InternalError => "InternalError"@,
            S3Error::NotImplemented => "NotImplemented"@,
            S3Error::NoSuchBucket => "NoSuchBucket"@,
            S3Error::NoSuchKey => "NoSuchKey"@,
            S3Error::BucketAlreadyExists => "BucketAlreadyExists"@,
            S3Error::BucketAlreadyOwnedByYou => "BucketAlreadyOwnedByYou"@,
        }
    }

    pub fn code(&self) -> (r: String)
        ensures
            r@ == self.code_spec(),
    {
        match self {
            S3Error::AccessDenied => String::from_str("AccessDenied"),
            S3Error::InternalError => String::from_str("InternalError"),
            S3Error::NotImplemented => String::from_str("NotImplemented"),
            S3Error::NoSuchBucket => String::from_str("NoSuchBucket"),
            S3Error::NoSuchKey => String::from_str("NoSuchKey"),
            S3Error::BucketAlreadyExists => String::from_str("BucketAlreadyExists"),
            S3Error::BucketAlreadyOwnedByYou => String::from_str("BucketAlreadyOwnedByYou"),
        }
    }

    /// The human-readable message carried in an error response body.
    pub open spec fn message_spec(self) -> Seq<char> {
        match self {
            S3Error::AccessDenied => "Access Denied"@,
            S3Error::InternalError => "Server encounted an internal error"@,
            S3Error::NotImplemented => "Currently this feature is not implemented"@,
            S3Error::NoSuchBucket => "The specified bucket does not exist"@,
            S3Error::NoSuchKey => "The specified key does not exist"@,
            S3Error::BucketAlreadyExists => "Bucket already exists"@,
            S3Error::BucketAlreadyOwnedByYou => "Bucket already owned by you"@,
        }
    }

    pub fn message(&self) -> (r: String)
        ensures
            r@ == self.message_spec(),
    {
        match self {
            S3Error::AccessDenied => String::from_str("Access Denied"),
            S3Error::InternalError => String::from_str("Server encounted an internal error"),
            S3Error::NotImplemented => String::from_str("Currently this feature is not implemented"),
            S3Error::NoSuchBucket => String::from_str("The specified bucket does not exist"),
            S3Error::NoSuchKey => String::from_str("The specified key does not exist"),
            S3Error::BucketAlreadyExists => String::from_str("Bucket already exists"),
            S3Error::BucketAlreadyOwnedByYou => String::from_str("Bucket already owned by you"),
        }
    }
}

} // verus!
