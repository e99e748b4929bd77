//! Response headers and the GET/HEAD body decision.
//!
//! A successful object response carries `Content-Length` (the stored
//! size, rendered in decimal) and `ETag` (the stored whole-object MD5,
//! hex-encoded and quoted). A zero-byte current version is served as a
//! plain success with an empty body and no backend fetch at all.

use vstd::prelude::*;
use vstd::string::StringExecFns;
use crate::digests::{hex_of, to_hex};
use crate::store::ObjectMeta;

verus! {

/// The decimal digit character for `d`.
pub open spec fn dec_digit(d: int) -> char
    recommends
        0 <= d < 10,
{
    ((48 + d) as u8) as char
}

/// The decimal rendering of `n`, most significant digit first, no
/// leading zeros (a single zero for zero).
pub open spec fn dec_digits(n: int) -> Seq<char>
    recommends
        n >= 0,
    decreases n,
{
    if n < 10 {
        seq![dec_digit(n)]
    } else {
        dec_digits(n / 10).push(dec_digit(n % 10))
    }
}

fn digit_str(d: u64) -> (r: &'static str)
    requires
        d < 10,
    ensures
        r@ == seq![dec_digit(d as int)],
{
    let r: &'static str = if d == 0 {
        "0"
    } else if d == 1 {
        "1"
    } else if d == 2 {
        "2"
    } else if d == 3 {
        "3"
    } else if d == 4 {
        "4"
    } else if d == 5 {
        "5"
    } else if d == 6 {
        "6"
    } else if d == 7 {
        "7"
    } else if d == 8 {
        "8"
    } else {
        "9"
    };
    proof {
        reveal_strlit("0");
        reveal_strlit("1");
        reveal_strlit("2");
        reveal_strlit("3");
        reveal_strlit("4");
        reveal_strlit("5");
        reveal_strlit("6");
        reveal_strlit("7");
        reveal_strlit("8");
        reveal_strlit("9");
        assert(r@ =~= seq![dec_digit(d as int)]);
    }
    r
}

/// Render a size in decimal, as a `Content-Length` value is written.
pub fn u64_to_dec(n: u64) -> (r: String)
    ensures
        r@ == dec_digits(n as int),
    decreases n,
{
    if n < 10 {
        String::from_str(digit_str(n))
    } else {
        let mut s = u64_to_dec(n / 10);
        s.append(digit_str(n % 10));
        proof {
            assert(s@ =~= dec_digits(n as int));
        }
        s
    }
}

/// The `ETag` header value: the whole-object MD5, hex-encoded, in
/// double quotes.
pub fn etag_header(md5: &Vec<u8>) -> (r: String)
    ensures
        r@ == seq!['"'] + hex_of(md5@) + seq!['"'],
{
    proof {
        reveal_strlit("\"");
    }
    let mut s = String::from_str("\"");
    let hex = to_hex(md5);
    s.append(hex.as_str());
    s.append("\"");
    proof {
        assert(s@ =~= seq!['"'] + hex_of(md5@) + seq!['"']);
    }
    s
}

/// How a resolved object is served.
pub enum GetPlan {
    /// A plain success with an empty body — no backend interaction.
    EmptyBody,
    /// Stream the blob's bytes from the backend.
    Stream { size: u64, data_id: u64 },
}

/// The body decision of a GET/HEAD: a zero-byte current version (no
/// blob, or a blob of size zero) is served as an empty success; anything
/// else is streamed from the backend.
pub fn plan_get(meta: &ObjectMeta) -> (r: GetPlan)
    ensures
        match *meta {
            ObjectMeta::Empty => r is EmptyBody,
            ObjectMeta::Content { size, md5: _, data_id } => if size == 0 {
                r is EmptyBody
            } else {
                r == (GetPlan::Stream { size, data_id })
            },
        },
{
    match meta {
        ObjectMeta::Empty => GetPlan::EmptyBody,
        ObjectMeta::Content { size, md5: _, data_id } => {
            if *size == 0 {
                GetPlan::EmptyBody
            } else {
                GetPlan::Stream { size: *size, data_id: *data_id }
            }
        },
    }
}

} // verus!
