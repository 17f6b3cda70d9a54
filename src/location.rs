use vstd::prelude::*;

verus! {

/// A character allowed in a bucket name: ASCII letters and digits, `-` and `_`.
pub open spec fn is_bucket_char(c: char) -> bool {
    ('a' <= c && c <= 'z') || ('A' <= c && c <= 'Z') || ('0' <= c && c <= '9') || c == '-' || c
        == '_'
}

/// The scheme prefix that marks an object-store location.
pub open spec fn scheme_prefix() -> Seq<char> {
    seq!['s', '3', ':', '/', '/']
}

/// `s` reads as `s3://<bucket><rest>`, where the bucket is a non-empty run of bucket
/// characters and the rest is empty or starts with `/`.
pub open spec fn s3_parts(s: Seq<char>, bucket: Seq<char>, rest: Seq<char>) -> bool {
    &&& s == scheme_prefix() + bucket + rest
    &&& bucket.len() > 0
    &&& forall|i: int| 0 <= i < bucket.len() ==> is_bucket_char(#[trigger] bucket[i])
    &&& (rest.len() == 0 || rest[0] == '/')
}

/// `s` is an object-store location.
pub open spec fn is_object_url(s: Seq<char>) -> bool {
    exists|bucket: Seq<char>, rest: Seq<char>| s3_parts(s, bucket, rest)
}

/// The key prefix listed for an object-store location whose text after the bucket is `rest`.
pub open spec fn object_path(rest: Seq<char>) -> Seq<char> {
    if rest.len() == 0 {
        seq!['/']
    } else {
        rest
    }
}

/// What follows the bucket name in an object-store location.
pub open spec fn rest_after(s: Seq<char>, bucket: Seq<char>) -> Seq<char> {
    s.skip((scheme_prefix().len() + bucket.len()) as int)
}

/// Where a root lives: an object-store bucket and key prefix, or a filesystem tree.
#[derive(Debug, PartialEq, Eq)]
pub enum Location {
    ObjectStore { bucket: String, path: String },
    Filesystem { path: String },
}

/// The location that the text `s` resolves to: object store first, filesystem otherwise.
pub open spec fn location_of(s: Seq<char>, r: Location) -> bool {
    match r {
        Location::ObjectStore { bucket, path } => {
            &&& s3_parts(s, bucket@, rest_after(s, bucket@))
            &&& path@ == object_path(rest_after(s, bucket@))
        },
        Location::Filesystem { path } => !is_object_url(s) && path@ == s,
    }
}

fn bucket_char(c: char) -> (r: bool)
    ensures
        r == is_bucket_char(c),
{
    ('a' <= c && c <= 'z') || ('A' <= c && c <= 'Z') || ('0' <= c && c <= '9') || c == '-' || c
        == '_'
}

fn has_scheme(url: &str, n: usize) -> (r: bool)
    requires
        n == url@.len(),
    ensures
        r == (n >= 5 && url@.take(5) == scheme_prefix()),
{
    if n < 5 {
        return false;
    }
    let ok = url.get_char(0) == 's' && url.get_char(1) == '3' && url.get_char(2) == ':'
        && url.get_char(3) == '/' && url.get_char(4) == '/';
    if ok {
        assert(url@.take(5) =~= scheme_prefix());
    } else {
        assert(url@.take(5)[0] == url@[0]);
        assert(url@.take(5)[1] == url@[1]);
        assert(url@.take(5)[2] == url@[2]);
        assert(url@.take(5)[3] == url@[3]);
        assert(url@.take(5)[4] == url@[4]);
    }
    ok
}

/// Splits an object-store location `s3://bucket[/path]` into its bucket and key prefix.
/// The prefix keeps its leading `/` and is `/` when the location names the bucket alone.
pub fn parse_s3_url(url: &str) -> (r: Option<(String, String)>)
    ensures
        r is Some <==> is_object_url(url@),
        r matches Some((bucket, path)) ==> {
            &&& s3_parts(url@, bucket@, rest_after(url@, bucket@))
            &&& path@ == object_path(rest_after(url@, bucket@))
        },
{
    let n = url.unicode_len();
    if !has_scheme(url, n) {
        assert forall|b: Seq<char>, rest: Seq<char>| !s3_parts(url@, b, rest) by {
            if s3_parts(url@, b, rest) {
                assert(url@.take(5) =~= scheme_prefix());
            }
        }
        return None;
    }
    let mut i: usize = 5;
    while i < n && bucket_char(url.get_char(i))
        invariant
            5 <= i <= n,
            n == url@.len(),
            forall|j: int| 5 <= j < i ==> is_bucket_char(#[trigger] url@[j]),
        decreases n - i,
    {
        i = i + 1;
    }
    let ghost s = url@;
    let ghost b = s.subrange(5, i as int);
    let ghost rest = s.skip(i as int);
    assert(s =~= s.take(5) + b + rest);
    let ends_ok = i == n || url.get_char(i) == '/';
    if i == 5 || !ends_ok {
        assert forall|b2: Seq<char>, r2: Seq<char>| !s3_parts(s, b2, r2) by {
            if s3_parts(s, b2, r2) {
                assert(s.len() == 5 + b2.len() + r2.len());
                if b2.len() < i - 5 {
                    assert(s[5 + b2.len() as int] == r2[0]);
                    assert(s[5 + b2.len() as int] == '/');
                } else if b2.len() > i - 5 {
                    assert(s[i as int] == b2[i - 5]);
                } else {
                    if i < n {
                        assert(s[i as int] == r2[0]);
                    }
                }
            }
        }
        return None;
    }
    let bucket = url.substring_char(5, i).to_owned();
    let path = if i == n {
        String::from_str("/")
    } else {
        url.substring_char(i, n).to_owned()
    };
    proof {
        reveal_strlit("/");
        assert(bucket@ =~= b);
        assert(rest_after(s, b) =~= rest);
        assert(s3_parts(s, b, rest));
        assert(path@ =~= object_path(rest));
    }
    Some((bucket, path))
}

/// Resolves the text of a root: an object-store location where it parses as one,
/// a filesystem path otherwise.
pub fn resolve_location(s: &str) -> (r: Location)
    ensures
        location_of(s@, r),
{
    match parse_s3_url(s) {
        Some((bucket, path)) => Location::ObjectStore { bucket, path },
        None => Location::Filesystem { path: s.to_owned() },
    }
}

} // verus!
