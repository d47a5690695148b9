//! Pages that were fetched before.
use crate::hashing::{digest_hex, sha256_hex};
use crate::paths::{join_path, joined};
use crate::text::first_chars_str;
use crate::web_research::config::Millis;
use vstd::prelude::*;
use vstd::utf8::encode_utf8;

verus! {

/// A page that was fetched before.
#[derive(Debug)]
pub struct CachedPage {
    pub url: String,
    pub stored_at_unix_ms: u64,
    pub content_type: Option<String>,
    pub markdown: String,
    pub content_sha256: String,
}

pub open spec fn cache_dir_of(data_dir: Seq<char>) -> Seq<char> {
    joined(data_dir, "web_cache"@)
}

/// Where pages are cached.
pub fn disk_cache_dir(data_dir: &str) -> (r: String)
    ensures
        r@ == cache_dir_of(data_dir@),
{
    join_path(data_dir, "web_cache")
}

/// A cache of pages below a directory.
#[derive(Debug)]
pub struct DiskCache {
    pub root: String,
}

/// Where the page of a URL is cached: under the fingerprint of the URL, in a directory that is
/// named by the first two digits of it.
pub open spec fn cache_path(root: Seq<char>, url: Seq<char>) -> Seq<char> {
    let digest = sha256_hex(encode_utf8(url));
    joined(joined(root, digest.take(2)), digest + ".json"@)
}

impl DiskCache {
    pub fn new(root: String) -> (r: Self)
        ensures
            r.root == root,
    {
        DiskCache { root }
    }

    /// Where the page of a URL is cached.
    pub fn path_for(&self, canonical_url: &str) -> (r: String)
        ensures
            r@ == cache_path(self.root@, canonical_url@),
    {
        let digest = digest_hex(canonical_url.as_bytes());
        let dir = join_path(self.root.as_str(), first_chars_str(digest.as_str(), 2).as_str());
        let mut name = digest;
        name.append(".json");
        join_path(dir.as_str(), name.as_str())
    }

    /// Whether a page that was stored may still be used.
    pub fn is_fresh(&self, page: &CachedPage, ttl: Millis, now_ms: u64) -> (r: bool)
        ensures
            r == (now_ms - page.stored_at_unix_ms <= ttl),
    {
        if now_ms < page.stored_at_unix_ms {
            return true;
        }
        (now_ms - page.stored_at_unix_ms) as u128 <= ttl
    }
}

} // verus!
