//! Cutting texts into overlapping chunks, and the bookkeeping around their embeddings.
use crate::bytes::{lossy_text, read_lossy};
use crate::paths::{join_path, joined, path_segments, segments};
use crate::project_memory::{state_dir_for_worktree, STATE_DIR_NAME};
use crate::sorting::{are_paths_sorted, is_desc_order, order_desc, sort_paths};
use crate::text::{
    char_len_utf8, contains_static, dec, dec_str, ends_with, ends_with_str, from_chars, is_ws,
    lemma_trim_end_keeps, lemma_trim_end_prefix, lemma_trim_idempotent, lemma_trim_start_first,
    lemma_utf8_len_add, lemma_utf8_len_push, lemma_utf8_len_take, max_usize, rfind, rfind_in,
    str_views, strip_suffix_str, to_chars, trim, trim_start, trim_str, utf8_len, views,
};
use vstd::prelude::*;

verus! {

pub const DEFAULT_EMBEDDING_MODEL: &'static str = "text-embedding-nomic-embed-text-v1.5";

pub const EMBED_BATCH_SIZE: usize = 64;

pub const DEFAULT_CHUNK_SIZE: usize = 1000;

pub const DEFAULT_CHUNK_OVERLAP: usize = 200;

pub const DEFAULT_TOP_K: usize = 5;

pub fn rag_db_path(worktree_root: &str) -> (r: String)
    ensures
        r@ == joined(joined(worktree_root@, STATE_DIR_NAME@), "rag.db"@),
{
    join_path(state_dir_for_worktree(worktree_root).as_str(), "rag.db")
}

/// `s` without the slashes at its end.
pub open spec fn without_trailing_slashes(s: Seq<char>) -> Seq<char>
    decreases s.len(),
{
    if s.len() > 0 && s.last() == '/' {
        without_trailing_slashes(s.drop_last())
    } else {
        s
    }
}

pub fn trim_trailing_slashes(s: &str) -> (r: String)
    ensures
        r@ == without_trailing_slashes(s@),
{
    let v = to_chars(s);
    let mut i: usize = v.len();
    assert(v@.take(i as int) =~= s@);
    while i > 0 && v[i - 1] == '/'
        invariant
            i <= v@.len(),
            without_trailing_slashes(v@.take(i as int)) == without_trailing_slashes(s@),
        decreases i,
    {
        assert(v@.take(i as int).drop_last() =~= v@.take(i - 1));
        assert(v@.take(i as int).last() == v@[i - 1]);
        i = i - 1;
    }
    assert(i > 0 ==> v@.take(i as int).last() == v@[i - 1]);
    assert(v@.subrange(0, i as int) =~= v@.take(i as int));
    from_chars(&v, 0, i)
}

/// Where embeddings are served beside a chat endpoint: under `/v1`, in place of `/api/v0`.
pub open spec fn embeddings_base(url: Seq<char>) -> Seq<char> {
    if ends_with(url, "/api/v0"@) {
        url.take(url.len() - "/api/v0"@.len()) + "/v1"@
    } else if ends_with(url, "/v1"@) {
        without_trailing_slashes(url)
    } else {
        without_trailing_slashes(url) + "/v1"@
    }
}

pub fn embeddings_api_base(chat_api_url: &str) -> (r: String)
    ensures
        r@ == embeddings_base(chat_api_url@),
{
    match strip_suffix_str(chat_api_url, "/api/v0") {
        Some(prefix) => {
            let mut r = prefix;
            r.append("/v1");
            r
        },
        None => {
            let mut r = trim_trailing_slashes(chat_api_url);
            if !ends_with_str(chat_api_url, "/v1") {
                r.append("/v1");
            }
            r
        },
    }
}

/// The address to which texts are sent for embedding.
pub fn embeddings_url(api_base: &str) -> (r: String)
    ensures
        r@ == without_trailing_slashes(api_base@) + "/embeddings"@,
{
    let mut r = trim_trailing_slashes(api_base);
    r.append("/embeddings");
    r
}

// ---------------------------------------------------------------------------
// Chunks
// ---------------------------------------------------------------------------

/// Whether a character of `t` starts at byte `b`, or `t` ends there.
pub open spec fn boundary(t: Seq<char>, b: int) -> bool {
    exists|i: int| 0 <= i <= t.len() && #[trigger] utf8_len(t.take(i)) == b
}

/// Which character of `t` starts at byte `b`.
pub open spec fn char_at_byte(t: Seq<char>, b: int) -> int {
    choose|i: int| 0 <= i <= t.len() && #[trigger] utf8_len(t.take(i)) == b
}

/// The text between two bytes at which characters start.
pub open spec fn byte_slice(t: Seq<char>, from: int, to: int) -> Seq<char> {
    t.subrange(char_at_byte(t, from), char_at_byte(t, to))
}

/// Where the last blank stands.
pub open spec fn last_space(s: Seq<char>) -> Option<int>
    decreases s.len(),
{
    if s.len() == 0 {
        None
    } else if s.last() == ' ' {
        Some(s.len() - 1)
    } else {
        last_space(s.drop_last())
    }
}

pub open spec fn chunk_step(chunk_size: int, overlap: int) -> int {
    if chunk_size - overlap > 1 {
        chunk_size - overlap
    } else {
        1
    }
}

/// The byte up to which a chunk may reach that starts at `start`.
pub open spec fn chunk_limit(t: Seq<char>, chunk_size: int, start: int) -> int {
    if start + chunk_size < utf8_len(t) {
        start + chunk_size
    } else {
        utf8_len(t) as int
    }
}

/// The byte at which a chunk ends: before the last blank in its second part, where there is one.
pub open spec fn chunk_end(t: Seq<char>, chunk_size: int, overlap: int, start: int) -> int {
    let limit = chunk_limit(t, chunk_size, start);
    let from = start + chunk_step(chunk_size, overlap) / 2;
    if limit < utf8_len(t) {
        match last_space(byte_slice(t, from, limit)) {
            Some(k) => from + utf8_len(byte_slice(t, from, limit).take(k)),
            None => limit,
        }
    } else {
        limit
    }
}

/// Whether all cuts that are made for the chunk at `start` fall between characters.
pub open spec fn cuts_cleanly(t: Seq<char>, chunk_size: int, overlap: int, start: int) -> bool {
    let limit = chunk_limit(t, chunk_size, start);
    &&& boundary(t, start)
    &&& limit < utf8_len(t) ==> boundary(t, limit) && boundary(
        t,
        start + chunk_step(chunk_size, overlap) / 2,
    )
}

/// Where the chunk behind the one that ends at `end` starts.
pub open spec fn next_start(overlap: int, end: int) -> int {
    if end > overlap {
        end - overlap
    } else {
        end
    }
}

/// The chunks of `t` from byte `start` on, where at most `steps` of them are cut, each cleanly.
pub open spec fn chunks_from(
    t: Seq<char>,
    chunk_size: int,
    overlap: int,
    start: int,
    steps: nat,
) -> Option<Seq<Seq<char>>>
    decreases steps,
{
    let end = chunk_end(t, chunk_size, overlap, start);
    let piece = trim(byte_slice(t, start, end));
    let here = if piece.len() > 0 {
        seq![piece]
    } else {
        Seq::empty()
    };
    if start >= utf8_len(t) {
        Some(Seq::empty())
    } else if steps == 0 || !cuts_cleanly(t, chunk_size, overlap, start) {
        None
    } else if end >= utf8_len(t) {
        Some(here)
    } else {
        match chunks_from(t, chunk_size, overlap, next_start(overlap, end), (steps - 1) as nat) {
            Some(rest) => Some(here + rest),
            None => None,
        }
    }
}

/// The chunks of a text. There are none if a cut would fall inside a character, or if the cuts
/// do not reach the end: a text of `n` bytes offers `n` places to cut at, so more steps than that
/// come back to one of them.
pub open spec fn chunked(text: Seq<char>, chunk_size: int, overlap: int) -> Option<
    Seq<Seq<char>>,
> {
    let t = trim(text);
    if t.len() == 0 {
        Some(Seq::empty())
    } else if chunk_size == 0 {
        Some(seq![t])
    } else {
        chunks_from(t, chunk_size, overlap, 0, utf8_len(t) + 1)
    }
}

proof fn lemma_offsets_increase(t: Seq<char>, i: int, j: int)
    requires
        0 <= i < j <= t.len(),
    ensures
        utf8_len(t.take(i)) < utf8_len(t.take(j)),
    decreases j - i,
{
    lemma_utf8_len_push(t.take(j - 1), t[j - 1]);
    assert(t.take(j - 1).push(t[j - 1]) =~= t.take(j));
    if i < j - 1 {
        lemma_offsets_increase(t, i, j - 1);
    }
}

pub proof fn lemma_char_at_byte(t: Seq<char>, i: int)
    requires
        0 <= i <= t.len(),
    ensures
        boundary(t, utf8_len(t.take(i)) as int),
        char_at_byte(t, utf8_len(t.take(i)) as int) == i,
{
    let j = char_at_byte(t, utf8_len(t.take(i)) as int);
    if i < j {
        lemma_offsets_increase(t, i, j);
    } else if j < i {
        lemma_offsets_increase(t, j, i);
    }
}

spec fn offsets_of(t: Seq<char>, offsets: Seq<usize>) -> bool {
    &&& offsets.len() == t.len() + 1
    &&& forall|i: int| 0 <= i <= t.len() ==> #[trigger] offsets[i] == utf8_len(t.take(i))
}

fn byte_offsets(t: &Vec<char>) -> (r: Vec<usize>)
    requires
        utf8_len(t@) <= usize::MAX,
    ensures
        offsets_of(t@, r@),
{
    let mut r: Vec<usize> = Vec::new();
    r.push(0);
    assert(t@.take(0) =~= Seq::<char>::empty());
    let mut i: usize = 0;
    while i < t.len()
        invariant
            i <= t@.len(),
            utf8_len(t@) <= usize::MAX,
            r@.len() == i + 1,
            forall|k: int| 0 <= k <= i ==> #[trigger] r@[k] == utf8_len(t@.take(k)),
        decreases t@.len() - i,
    {
        proof {
            lemma_utf8_len_push(t@.take(i as int), t@[i as int]);
            assert(t@.take(i as int).push(t@[i as int]) =~= t@.take(i + 1));
            lemma_utf8_len_take(t@, i + 1);
        }
        let next: usize = r[i] + char_len_utf8(t[i]);
        r.push(next);
        i = i + 1;
    }
    r
}

fn index_of_byte(t: &Vec<char>, offsets: &Vec<usize>, b: usize) -> (r: Option<usize>)
    requires
        offsets_of(t@, offsets@),
    ensures
        r is Some == boundary(t@, b as int),
        r matches Some(i) ==> i <= t@.len() && utf8_len(t@.take(i as int)) == b && char_at_byte(
            t@,
            b as int,
        ) == i,
{
    let mut i: usize = 0;
    while i < offsets.len()
        invariant
            i <= offsets@.len(),
            offsets_of(t@, offsets@),
            forall|k: int| 0 <= k < i ==> #[trigger] utf8_len(t@.take(k)) != b,
        decreases offsets@.len() - i,
    {
        if offsets[i] == b {
            proof {
                lemma_char_at_byte(t@, i as int);
            }
            return Some(i);
        }
        assert(offsets@[i as int] == utf8_len(t@.take(i as int)));
        i = i + 1;
    }
    None
}

/// The last blank among the characters `from..to`.
fn find_last_space(t: &Vec<char>, from: usize, to: usize) -> (r: Option<usize>)
    requires
        from <= to <= t@.len(),
    ensures
        match r {
            Some(k) => from <= k < to && last_space(t@.subrange(from as int, to as int)) == Some(
                k - from,
            ),
            None => last_space(t@.subrange(from as int, to as int)) is None,
        },
{
    let mut i: usize = to;
    while i > from
        invariant
            from <= i <= to <= t@.len(),
            last_space(t@.subrange(from as int, i as int)) == last_space(
                t@.subrange(from as int, to as int),
            ),
        decreases i,
    {
        assert(t@.subrange(from as int, i as int).last() == t@[i - 1]);
        assert(t@.subrange(from as int, i as int).drop_last() =~= t@.subrange(from as int, i - 1));
        if t[i - 1] == ' ' {
            return Some(i - 1);
        }
        i = i - 1;
    }
    None
}

/// One chunk: the character at which it ends, with its byte; nothing where a cut is not clean.
fn find_chunk_end(
    t: &Vec<char>,
    offsets: &Vec<usize>,
    chunk_size: usize,
    overlap: usize,
    start: usize,
) -> (r: Option<(usize, usize, usize)>)
    requires
        offsets_of(t@, offsets@),
        0 < chunk_size,
        start < utf8_len(t@) <= usize::MAX,
    ensures
        r is Some == cuts_cleanly(t@, chunk_size as int, overlap as int, start as int),
        r matches Some(e) ==> {
            &&& e.0 <= e.1 <= t@.len()
            &&& e.0 == char_at_byte(t@, start as int)
            &&& e.1 == char_at_byte(t@, e.2 as int)
            &&& e.2 == chunk_end(t@, chunk_size as int, overlap as int, start as int)
        },
{
    let n: usize = offsets[t.len()];
    assert(t@.take(t@.len() as int) =~= t@);
    let first: usize = match index_of_byte(t, offsets, start) {
        Some(i) => i,
        None => {
            return None;
        },
    };
    if chunk_size >= n - start {
        proof {
            lemma_char_at_byte(t@, t@.len() as int);
            lemma_offsets_order(t@, first as int, t@.len() as int);
        }
        return Some((first, t.len(), n));
    }
    let limit: usize = start + chunk_size;
    let step: usize = max_usize(chunk_size.saturating_sub(overlap), 1);
    let from: usize = start + step / 2;
    assert(step == chunk_step(chunk_size as int, overlap as int));
    match (index_of_byte(t, offsets, limit), index_of_byte(t, offsets, from)) {
        (Some(to_char), Some(from_char)) => {
            proof {
                lemma_offsets_order(t@, from_char as int, to_char as int);
                lemma_offsets_order(t@, first as int, from_char as int);
            }
            match find_last_space(t, from_char, to_char) {
                Some(k) => {
                    proof {
                        let part = t@.subrange(from_char as int, to_char as int);
                        lemma_utf8_len_add(
                            t@.take(from_char as int),
                            part.take(k - from_char),
                        );
                        assert(t@.take(from_char as int) + part.take(k - from_char) =~= t@.take(
                            k as int,
                        ));
                        lemma_char_at_byte(t@, k as int);
                        assert(offsets@[k as int] == utf8_len(t@.take(k as int)));
                    }
                    Some((first, k, offsets[k]))
                },
                None => Some((first, to_char, limit)),
            }
        },
        _ => None,
    }
}

pub proof fn lemma_offsets_order(t: Seq<char>, i: int, j: int)
    requires
        0 <= i <= t.len(),
        0 <= j <= t.len(),
        utf8_len(t.take(i)) <= utf8_len(t.take(j)),
    ensures
        i <= j,
{
    if j < i {
        lemma_offsets_increase(t, j, i);
    }
}

/// The chunks of a text, or nothing where the text cannot be cut that way.
pub fn try_chunk_text(text: &str, chunk_size: usize, overlap: usize) -> (r: Option<Vec<String>>)
    requires
        utf8_len(trim(text@)) < usize::MAX,
    ensures
        match r {
            Some(chunks) => chunked(text@, chunk_size as int, overlap as int) == Some(
                views(chunks@),
            ),
            None => chunked(text@, chunk_size as int, overlap as int) is None,
        },
{
    let trimmed = trim_str(text);
    let mut chunks: Vec<String> = Vec::new();
    assert(views(chunks@) =~= Seq::<Seq<char>>::empty());
    if trimmed.as_str().is_empty() {
        return Some(chunks);
    }
    if chunk_size == 0 {
        let ghost t = trimmed@;
        chunks.push(trimmed);
        assert(views(chunks@) =~= seq![t]);
        return Some(chunks);
    }
    let t = to_chars(trimmed.as_str());
    let offsets = byte_offsets(&t);
    let n: usize = offsets[t.len()];
    assert(t@.take(t@.len() as int) =~= t@);
    let ghost all = chunks_from(t@, chunk_size as int, overlap as int, 0, (n + 1) as nat);
    let mut start: usize = 0;
    let mut steps: usize = 0;
    while start < n
        invariant
            0 < chunk_size,
            all == chunked(text@, chunk_size as int, overlap as int),
            n == utf8_len(t@),
            n < usize::MAX,
            steps <= n + 1,
            offsets_of(t@, offsets@),
            all == match chunks_from(
                t@,
                chunk_size as int,
                overlap as int,
                start as int,
                (n + 1 - steps) as nat,
            ) {
                Some(rest) => Some(views(chunks@) + rest),
                None => None,
            },
        decreases n + 1 - steps,
    {
        let ghost before = views(chunks@);
        if steps > n {
            return None;
        }
        match find_chunk_end(&t, &offsets, chunk_size, overlap, start) {
            Some((first, last, end)) => {
                let chunk = trim_str(from_chars(&t, first, last).as_str());
                let ghost piece = trim(byte_slice(t@, start as int, end as int));
                assert(chunk@ == piece);
                let ghost here = if piece.len() > 0 {
                    seq![piece]
                } else {
                    Seq::empty()
                };
                if !chunk.as_str().is_empty() {
                    chunks.push(chunk);
                }
                assert(views(chunks@) =~= before + here);
                if end >= n {
                    return Some(chunks);
                }
                let next: usize = if end > overlap {
                    end - overlap
                } else {
                    end
                };
                proof {
                    let rest = chunks_from(
                        t@,
                        chunk_size as int,
                        overlap as int,
                        next as int,
                        (n - steps) as nat,
                    );
                    if rest is Some {
                        assert(before + (here + rest->0) =~= views(chunks@) + rest->0);
                    }
                }
                start = next;
                steps = steps + 1;
            },
            None => {
                return None;
            },
        }
    }
    assert(views(chunks@) + Seq::<Seq<char>>::empty() =~= views(chunks@));
    Some(chunks)
}

/// Cuts a text into chunks of at most `chunk_size` bytes that overlap by `overlap` bytes, where
/// possible between words.
pub fn chunk_text(text: &str, chunk_size: usize, overlap: usize) -> (r: Vec<String>)
    requires
        utf8_len(trim(text@)) < usize::MAX,
        chunked(text@, chunk_size as int, overlap as int) is Some,
    ensures
        chunked(text@, chunk_size as int, overlap as int) == Some(views(r@)),
{
    match try_chunk_text(text, chunk_size, overlap) {
        Some(chunks) => chunks,
        None => Vec::new(),
    }
}

pub proof fn lemma_slice_len(t: Seq<char>, a: int, b: int)
    requires
        boundary(t, a),
        boundary(t, b),
        a <= b,
    ensures
        0 <= char_at_byte(t, a) <= char_at_byte(t, b) <= t.len(),
        utf8_len(byte_slice(t, a, b)) == b - a,
{
    let i = char_at_byte(t, a);
    let j = char_at_byte(t, b);
    lemma_offsets_order(t, i, j);
    lemma_utf8_len_add(t.take(i), t.subrange(i, j));
    assert(t.take(i) + t.subrange(i, j) =~= t.take(j));
}

proof fn lemma_last_space(s: Seq<char>)
    ensures
        last_space(s) matches Some(k) ==> 0 <= k < s.len(),
    decreases s.len(),
{
    if s.len() > 0 && s.last() != ' ' {
        lemma_last_space(s.drop_last());
    }
}

pub proof fn lemma_chunk_end(t: Seq<char>, chunk_size: int, overlap: int, start: int)
    requires
        0 < chunk_size,
        0 <= overlap,
        0 <= start < utf8_len(t),
        cuts_cleanly(t, chunk_size, overlap, start),
    ensures
        start <= chunk_end(t, chunk_size, overlap, start) <= start + chunk_size,
        boundary(t, chunk_end(t, chunk_size, overlap, start)),
{
    let limit = chunk_limit(t, chunk_size, start);
    let from = start + chunk_step(chunk_size, overlap) / 2;
    if limit < utf8_len(t) {
        let part = byte_slice(t, from, limit);
        lemma_slice_len(t, from, limit);
        lemma_last_space(part);
        if let Some(k) = last_space(part) {
            let i = char_at_byte(t, from);
            lemma_utf8_len_take(part, k);
            lemma_utf8_len_add(t.take(i), part.take(k));
            assert(t.take(i) + part.take(k) =~= t.take(i + k));
            lemma_char_at_byte(t, i + k);
        }
    } else {
        assert(t.take(t.len() as int) =~= t);
        lemma_char_at_byte(t, t.len() as int);
    }
}

proof fn lemma_trim_shortens(s: Seq<char>)
    ensures
        utf8_len(trim(s)) <= utf8_len(s),
{
    let start = trim_start(s);
    lemma_trim_start_first(s);
    lemma_trim_end_prefix(start);
    lemma_utf8_len_take(start, trim(s).len() as int);
    let n = s.len() - start.len();
    lemma_utf8_len_add(s.take(n), s.skip(n));
    assert(s.take(n) + s.skip(n) =~= s);
}

proof fn lemma_chunks_from_bounded(
    t: Seq<char>,
    chunk_size: int,
    overlap: int,
    start: int,
    steps: nat,
)
    requires
        0 < chunk_size,
        0 <= overlap,
        0 <= start,
    ensures
        chunks_from(t, chunk_size, overlap, start, steps) matches Some(c) ==> forall|i: int|
            0 <= i < c.len() ==> 0 < (#[trigger] c[i]).len() && utf8_len(c[i]) <= chunk_size,
    decreases steps,
{
    if start < utf8_len(t) && steps > 0 && cuts_cleanly(t, chunk_size, overlap, start) {
        let end = chunk_end(t, chunk_size, overlap, start);
        lemma_chunk_end(t, chunk_size, overlap, start);
        lemma_slice_len(t, start, end);
        lemma_trim_shortens(byte_slice(t, start, end));
        if end < utf8_len(t) {
            lemma_chunks_from_bounded(
                t,
                chunk_size,
                overlap,
                next_start(overlap, end),
                (steps - 1) as nat,
            );
        }
    }
}

/// No chunk is empty, and none takes more bytes than were asked for.
pub proof fn lemma_chunks_are_bounded(text: Seq<char>, chunk_size: int, overlap: int)
    requires
        0 < chunk_size,
        0 <= overlap,
    ensures
        chunked(text, chunk_size, overlap) matches Some(c) ==> forall|i: int|
            0 <= i < c.len() ==> 0 < (#[trigger] c[i]).len() && utf8_len(c[i]) <= chunk_size,
{
    let t = trim(text);
    if t.len() > 0 {
        lemma_chunks_from_bounded(t, chunk_size, overlap, 0, utf8_len(t) + 1);
    }
}

/// Whether a text holds nothing but ASCII.
pub open spec fn is_ascii_text(s: Seq<char>) -> bool {
    forall|i: int| 0 <= i < s.len() ==> (#[trigger] s[i] as u32) < 0x80
}

proof fn lemma_ascii_boundary(t: Seq<char>, b: int)
    requires
        is_ascii_text(t),
        0 <= b <= t.len(),
    ensures
        utf8_len(t.take(b)) == b,
        boundary(t, b),
    decreases b,
{
    if b > 0 {
        lemma_ascii_boundary(t, b - 1);
        assert(t.take(b).drop_last() =~= t.take(b - 1));
        assert(t.take(b).last() == t[b - 1]);
    }
}

proof fn lemma_trim_stays_ascii(s: Seq<char>)
    requires
        is_ascii_text(s),
    ensures
        is_ascii_text(trim(s)),
{
    let start = trim_start(s);
    lemma_trim_start_first(s);
    lemma_trim_end_prefix(start);
    let n = s.len() - start.len();
    assert forall|i: int| 0 <= i < trim(s).len() implies (#[trigger] trim(s)[i] as u32) < 0x80 by {
        assert(trim(s)[i] == start[i]);
        assert(start[i] == s[n + i]);
    }
}

proof fn lemma_ascii_chunks_from(
    t: Seq<char>,
    chunk_size: int,
    overlap: int,
    start: int,
    steps: nat,
)
    requires
        is_ascii_text(t),
        0 <= overlap < chunk_size,
        (chunk_size - overlap) / 2 > overlap,
        0 <= start,
        start + steps > t.len(),
    ensures
        chunks_from(t, chunk_size, overlap, start, steps) is Some,
    decreases steps,
{
    lemma_ascii_boundary(t, t.len() as int);
    assert(t.take(t.len() as int) =~= t);
    if start < t.len() {
        let limit = chunk_limit(t, chunk_size, start);
        let from = start + chunk_step(chunk_size, overlap) / 2;
        lemma_ascii_boundary(t, start);
        if limit < t.len() {
            lemma_ascii_boundary(t, limit);
            lemma_ascii_boundary(t, from);
        }
        let end = chunk_end(t, chunk_size, overlap, start);
        if end < t.len() {
            lemma_ascii_chunks_from(
                t,
                chunk_size,
                overlap,
                next_start(overlap, end),
                (steps - 1) as nat,
            );
        }
    }
}

/// A text in ASCII can be cut into chunks wherever half of what a chunk adds is more than what it
/// repeats.
pub proof fn lemma_ascii_text_is_chunked(text: Seq<char>, chunk_size: int, overlap: int)
    requires
        is_ascii_text(text),
        0 <= overlap < chunk_size,
        (chunk_size - overlap) / 2 > overlap,
    ensures
        chunked(text, chunk_size, overlap) is Some,
{
    let t = trim(text);
    lemma_trim_stays_ascii(text);
    if t.len() > 0 {
        lemma_ascii_boundary(t, t.len() as int);
        assert(t.take(t.len() as int) =~= t);
        lemma_ascii_chunks_from(t, chunk_size, overlap, 0, utf8_len(t) + 1);
    }
}

/// A text that fits one chunk is one, whatever it holds.
pub proof fn lemma_short_text_is_chunked(text: Seq<char>, chunk_size: int, overlap: int)
    requires
        utf8_len(trim(text)) <= chunk_size,
        trim(text).len() > 0,
    ensures
        chunked(text, chunk_size, overlap) == Some(seq![trim(text)]),
{
    let t = trim(text);
    if chunk_size != 0 {
        lemma_trim_idempotent(text);
        assert(t.take(0) =~= Seq::<char>::empty());
        lemma_char_at_byte(t, 0);
        assert(t.take(t.len() as int) =~= t);
        lemma_char_at_byte(t, t.len() as int);
        lemma_offsets_increase(t, 0, t.len() as int);
        assert(byte_slice(t, 0, utf8_len(t) as int) =~= t);
    }
}

/// Whether `chunk` stands in a text, from its `a`-th character on.
pub open spec fn is_at(chunk: Seq<char>, t: Seq<char>, a: int) -> bool {
    0 <= a && a + chunk.len() <= t.len() && t.subrange(a, a + chunk.len()) == chunk
}

/// Whether one of the chunks takes in the `i`-th character of a text.
pub open spec fn takes_in(chunks: Seq<Seq<char>>, t: Seq<char>, i: int) -> bool {
    exists|j: int, a: int|
        0 <= j < chunks.len() && #[trigger] is_at(chunks[j], t, a) && a <= i < a + chunks[j].len()
}

proof fn lemma_trim_start_keeps(s: Seq<char>, p: int)
    requires
        0 <= p < s.len(),
        !is_ws(s[p]),
    ensures
        s.len() - trim_start(s).len() <= p,
    decreases s.len(),
{
    if is_ws(s[0]) {
        assert(s.skip(1)[p - 1] == s[p]);
        lemma_trim_start_keeps(s.skip(1), p - 1);
    }
}

/// What is left of a part of a text once it is trimmed takes in each character that is no
/// whitespace.
proof fn lemma_trimmed_part(t: Seq<char>, first: int, last: int, i: int) -> (a: int)
    requires
        0 <= first <= i < last <= t.len(),
        !is_ws(t[i]),
    ensures
        is_at(trim(t.subrange(first, last)), t, a),
        a <= i < a + trim(t.subrange(first, last)).len(),
{
    let s = t.subrange(first, last);
    let piece = trim(s);
    let p = i - first;
    lemma_trim_start_keeps(s, p);
    lemma_trim_start_first(s);
    let k = s.len() - trim_start(s).len();
    assert(trim_start(s)[p - k] == s[p]);
    lemma_trim_end_keeps(trim_start(s), p - k);
    lemma_trim_end_prefix(trim_start(s));
    let a = first + k;
    assert(t.subrange(a, a + piece.len()) =~= piece);
    a
}

#[verifier::spinoff_prover]
#[verifier::rlimit(40)]
proof fn lemma_chunks_take_in(
    t: Seq<char>,
    chunk_size: int,
    overlap: int,
    start: int,
    steps: nat,
    i: int,
)
    requires
        0 < chunk_size,
        0 <= overlap,
        0 <= start <= utf8_len(t.take(i)),
        0 <= i < t.len(),
        !is_ws(t[i]),
        chunks_from(t, chunk_size, overlap, start, steps) is Some,
    ensures
        takes_in(chunks_from(t, chunk_size, overlap, start, steps)->0, t, i),
    decreases steps,
{
    let chunks = chunks_from(t, chunk_size, overlap, start, steps)->0;
    let end = chunk_end(t, chunk_size, overlap, start);
    let at = utf8_len(t.take(i)) as int;
    lemma_offsets_increase(t, i, t.len() as int);
    assert(t.take(t.len() as int) =~= t);
    lemma_chunk_end(t, chunk_size, overlap, start);
    let first = char_at_byte(t, start);
    let last = char_at_byte(t, end);
    if at < end {
        lemma_offsets_order(t, first, i);
        lemma_offsets_order(t, i, last);
        let a = lemma_trimmed_part(t, first, last, i);
        assert(chunks[0] == trim(byte_slice(t, start, end)));
        assert(is_at(chunks[0], t, a));
    } else {
        let next = next_start(overlap, end);
        lemma_chunks_take_in(t, chunk_size, overlap, next, (steps - 1) as nat, i);
        let rest = chunks_from(t, chunk_size, overlap, next, (steps - 1) as nat)->0;
        let (j, a) = choose|j: int, a: int|
            0 <= j < rest.len() && #[trigger] is_at(rest[j], t, a) && a <= i < a + rest[j].len();
        let n = chunks.len() - rest.len();
        assert(chunks[n + j] == rest[j]);
        assert(is_at(chunks[n + j], t, a));
    }
}

/// Nothing but whitespace is lost between the chunks of a text: each other character lies in one
/// of them, which stands in the text as it is.
pub proof fn lemma_chunks_lose_nothing(text: Seq<char>, chunk_size: int, overlap: int, i: int)
    requires
        0 <= chunk_size,
        0 <= overlap,
        chunked(text, chunk_size, overlap) is Some,
        0 <= i < trim(text).len(),
        !is_ws(trim(text)[i]),
    ensures
        takes_in(chunked(text, chunk_size, overlap)->0, trim(text), i),
{
    let t = trim(text);
    let chunks = chunked(text, chunk_size, overlap)->0;
    if chunk_size == 0 {
        assert(t.subrange(0, t.len() as int) =~= t);
        assert(is_at(chunks[0], t, 0));
    } else {
        lemma_chunks_take_in(t, chunk_size, overlap, 0, utf8_len(t) + 1, i);
    }
}

/// The ranges of chunks that are embedded together.
pub open spec fn batch_ranges(count: nat) -> Seq<(nat, nat)>
    decreases count,
{
    if count == 0 {
        Seq::empty()
    } else {
        let start = ((count - 1) / EMBED_BATCH_SIZE as int * EMBED_BATCH_SIZE) as nat;
        batch_ranges(start).push((start, count))
    }
}

/// The ranges of chunks that are embedded together: full batches, and the rest.
pub fn embed_batches(count: usize) -> (r: Vec<(usize, usize)>)
    ensures
        r@.map_values(|b: (usize, usize)| (b.0 as nat, b.1 as nat)) == batch_ranges(count as nat),
    decreases count,
{
    if count == 0 {
        let r: Vec<(usize, usize)> = Vec::new();
        assert(r@.map_values(|b: (usize, usize)| (b.0 as nat, b.1 as nat)) =~= batch_ranges(0));
        return r;
    }
    let start: usize = (count - 1) / EMBED_BATCH_SIZE * EMBED_BATCH_SIZE;
    let mut r = embed_batches(start);
    let ghost before = r@.map_values(|b: (usize, usize)| (b.0 as nat, b.1 as nat));
    r.push((start, count));
    assert(r@.map_values(|b: (usize, usize)| (b.0 as nat, b.1 as nat)) =~= before.push(
        (start as nat, count as nat),
    ));
    r
}

/// The batches follow one another without a gap from the first chunk to the last, and none is
/// empty or over-full.
pub proof fn lemma_batches_cover(count: nat)
    ensures
        ({
            let b = batch_ranges(count);
            &&& count > 0 ==> b.len() > 0 && b[0].0 == 0 && b.last().1 == count
            &&& forall|i: int|
                0 <= i < b.len() ==> (#[trigger] b[i]).0 < b[i].1 <= b[i].0 + EMBED_BATCH_SIZE
            &&& forall|i: int, j: int|
                0 <= i < b.len() && j == i + 1 && j < b.len() ==> (#[trigger] b[j]).0 == (
                #[trigger] b[i]).1
        }),
    decreases count,
{
    if count > 0 {
        let start = ((count - 1) / EMBED_BATCH_SIZE as int * EMBED_BATCH_SIZE) as nat;
        lemma_batches_cover(start);
        let before = batch_ranges(start);
        let b = batch_ranges(count);
        assert(b == before.push((start, count)));
        assert(start < count <= start + EMBED_BATCH_SIZE);
        if start == 0 {
            assert(before.len() == 0);
        }
        assert forall|i: int, j: int|
            0 <= i < b.len() && j == i + 1 && j < b.len() implies (#[trigger] b[j]).0 == (
        #[trigger] b[i]).1 by {
            if j < before.len() {
                assert(b[i] == before[i] && b[j] == before[j]);
            }
        }
    }
}

#[derive(Debug, Clone, Copy, PartialEq, Eq, Structural)]
pub enum EmbeddingsError {
    IndexOutOfRange,
    MissingVector,
}

impl EmbeddingsError {
    pub fn message(self) -> (r: &'static str)
        ensures
            r@ == match self {
                EmbeddingsError::IndexOutOfRange => "embeddings response index out of range"@,
                EmbeddingsError::MissingVector =>
                    "embeddings response missing one or more vectors"@,
            },
    {
        match self {
            EmbeddingsError::IndexOutOfRange => "embeddings response index out of range",
            EmbeddingsError::MissingVector => "embeddings response missing one or more vectors",
        }
    }
}

/// The vector that the answer gives last for the `index`-th text; an empty one where there is
/// none.
pub open spec fn vector_for<T>(items: Seq<(usize, Vec<T>)>, index: int) -> Seq<T>
    decreases items.len(),
{
    if items.len() == 0 {
        Seq::empty()
    } else if items.last().0 == index {
        items.last().1@
    } else {
        vector_for(items.drop_last(), index)
    }
}

fn first_empty<T>(vectors: &Vec<Vec<T>>) -> (r: Option<usize>)
    ensures
        match r {
            Some(k) => k < vectors@.len() && vectors@[k as int]@.len() == 0,
            None => forall|k: int| 0 <= k < vectors@.len() ==> (#[trigger] vectors@[k])@.len() > 0,
        },
{
    let mut k: usize = 0;
    while k < vectors.len()
        invariant
            k <= vectors@.len(),
            forall|j: int| 0 <= j < k ==> (#[trigger] vectors@[j])@.len() > 0,
        decreases vectors@.len() - k,
    {
        if vectors[k].len() == 0 {
            return Some(k);
        }
        k = k + 1;
    }
    None
}

/// Puts the vectors of an answer into the order of the `count` texts that were sent.
pub fn order_embeddings<T>(items: Vec<(usize, Vec<T>)>, count: usize) -> (r: Result<
    Vec<Vec<T>>,
    EmbeddingsError,
>)
    ensures
        match r {
            Err(EmbeddingsError::IndexOutOfRange) => exists|i: int|
                0 <= i < items@.len() && (#[trigger] items@[i]).0 >= count,
            Err(EmbeddingsError::MissingVector) => {
                &&& forall|i: int| 0 <= i < items@.len() ==> (#[trigger] items@[i]).0 < count
                &&& exists|k: int|
                    0 <= k < count && #[trigger] vector_for(items@, k) == Seq::<T>::empty()
            },
            Ok(vectors) => {
                &&& forall|i: int| 0 <= i < items@.len() ==> (#[trigger] items@[i]).0 < count
                &&& vectors@.len() == count
                &&& forall|k: int|
                    0 <= k < count ==> (#[trigger] vectors@[k])@ == vector_for(items@, k)
                        && vectors@[k]@.len() > 0
            },
        },
{
    let ghost all = items@;
    let mut ordered: Vec<Vec<T>> = Vec::new();
    let mut n: usize = 0;
    while n < count
        invariant
            n <= count,
            ordered@.len() == n,
            forall|k: int| 0 <= k < n ==> (#[trigger] ordered@[k])@ == Seq::<T>::empty(),
        decreases count - n,
    {
        ordered.push(Vec::new());
        n = n + 1;
    }
    assert(all.take(0) =~= Seq::<(usize, Vec<T>)>::empty());
    for item in it: items
        invariant
            it.seq() == all,
            ordered@.len() == count,
            forall|i: int| 0 <= i < it.index() ==> (#[trigger] all[i]).0 < count,
            forall|k: int|
                0 <= k < count ==> (#[trigger] ordered@[k])@ == vector_for(
                    all.take(it.index()),
                    k,
                ),
    {
        let ghost done = it.index();
        assert(all.take(done + 1).drop_last() =~= all.take(done));
        assert(all.take(done + 1).last() == all[done]);
        let (index, vector) = item;
        if index >= count {
            assert(all[done].0 >= count);
            return Err(EmbeddingsError::IndexOutOfRange);
        }
        ordered.set(index, vector);
    }
    assert(all.take(all.len() as int) =~= all);
    match first_empty(&ordered) {
        Some(k) => {
            assert(vector_for(all, k as int) =~= Seq::<T>::empty());
            Err(EmbeddingsError::MissingVector)
        },
        None => Ok(ordered),
    }
}

pub fn default_top_k() -> (r: usize)
    ensures
        r == DEFAULT_TOP_K,
{
    DEFAULT_TOP_K
}

// ---------------------------------------------------------------------------
// Files
// ---------------------------------------------------------------------------

/// The endings of the files that are indexed.
pub open spec fn indexed_extensions() -> Seq<Seq<char>> {
    seq![
        ".txt"@,
        ".md"@,
        ".markdown"@,
        ".py"@,
        ".rs"@,
        ".rst"@,
        ".json"@,
        ".js"@,
        ".ts"@,
        ".tsx"@,
        ".jsx"@,
        ".go"@,
        ".java"@,
        ".c"@,
        ".cpp"@,
        ".h"@,
        ".hpp"@,
        ".yaml"@,
        ".yml"@,
        ".toml"@,
        ".sql"@,
    ]
}

fn extension_list() -> (r: Vec<&'static str>)
    ensures
        str_views(r@) == indexed_extensions(),
{
    let r: Vec<&'static str> = vec![
        ".txt",
        ".md",
        ".markdown",
        ".py",
        ".rs",
        ".rst",
        ".json",
        ".js",
        ".ts",
        ".tsx",
        ".jsx",
        ".go",
        ".java",
        ".c",
        ".cpp",
        ".h",
        ".hpp",
        ".yaml",
        ".yml",
        ".toml",
        ".sql",
    ];
    assert(str_views(r@) =~= indexed_extensions());
    r
}

/// The ending of a file name, from its last dot on; a dot at the start begins none.
pub open spec fn dotted_extension(name: Seq<char>) -> Option<Seq<char>> {
    match rfind(name, "."@) {
        Some(k) => if k > 0 {
            Some(name.skip(k))
        } else {
            None
        },
        None => None,
    }
}

/// Whether the file at a path is one that is indexed.
pub open spec fn is_indexed(path: Seq<char>) -> bool {
    let names = segments(path);
    &&& names.len() > 0
    &&& dotted_extension(names.last()) matches Some(e) && indexed_extensions().contains(e)
}

pub fn is_indexed_file(path: &str) -> (r: bool)
    ensures
        r == is_indexed(path@),
{
    let names = path_segments(path);
    if names.len() == 0 {
        assert(views(names@).len() == 0);
        return false;
    }
    let name = names[names.len() - 1].as_str();
    assert(views(names@).last() == name@);
    let v = to_chars(name);
    let dot = to_chars(".");
    match rfind_in(&v, &dot) {
        Some(k) => {
            if k == 0 {
                return false;
            }
            let extension = from_chars(&v, k, v.len());
            assert(extension@ =~= name@.skip(k as int));
            contains_static(&extension_list(), extension.as_str())
        },
        None => false,
    }
}

/// A walk through the directories below a root.
pub struct FileWalk {
    /// The directories that are still to be read.
    pub stack: Vec<String>,
    /// The files that were found.
    pub files: Vec<String>,
}

impl FileWalk {
    pub fn new(root: &str) -> (r: Self)
        ensures
            views(r.stack@) == seq![root@],
            views(r.files@).len() == 0,
    {
        let mut stack: Vec<String> = Vec::new();
        stack.push(root.to_string());
        assert(views(stack@) =~= seq![root@]);
        FileWalk { stack, files: Vec::new() }
    }

    /// The directory that is read next.
    pub fn next_directory(&mut self) -> (r: Option<String>)
        ensures
            final(self).files == old(self).files,
            match r {
                Some(dir) => views(old(self).stack@) == views(final(self).stack@).push(dir@),
                None => views(old(self).stack@).len() == 0 && final(self).stack@
                    == old(self).stack@,
            },
    {
        let ghost before = views(self.stack@);
        let dir = self.stack.pop();
        proof {
            if dir is Some {
                assert(before =~= views(self.stack@).push(dir->0@));
            }
        }
        dir
    }

    /// Takes in an entry of a directory.
    pub fn visit(&mut self, path: String, is_directory: bool)
        ensures
            views(final(self).stack@) == if is_directory {
                views(old(self).stack@).push(path@)
            } else {
                views(old(self).stack@)
            },
            views(final(self).files@) == if !is_directory && is_indexed(path@) {
                views(old(self).files@).push(path@)
            } else {
                views(old(self).files@)
            },
    {
        let ghost stack = views(self.stack@);
        let ghost files = views(self.files@);
        if is_directory {
            self.stack.push(path);
            assert(views(self.stack@) =~= stack.push(path@));
        } else if is_indexed_file(path.as_str()) {
            self.files.push(path);
            assert(views(self.files@) =~= files.push(path@));
        }
    }

    /// The files that were found, in order.
    pub fn finish(self) -> (r: Vec<String>)
        ensures
            are_paths_sorted(views(r@)),
            views(r@).to_multiset() == views(self.files@).to_multiset(),
    {
        sort_paths(&self.files)
    }
}

/// What is said of a path at which there is neither a file nor a directory.
pub fn path_not_found(path: &str) -> (r: String)
    ensures
        r@ == "Path not found: "@ + path@,
{
    let mut r = "Path not found: ".to_string();
    r.append(path);
    r
}

// ---------------------------------------------------------------------------
// Search
// ---------------------------------------------------------------------------

/// Whether an answer of the server can be read: one without success is an error that quotes it.
pub fn check_embeddings_status(status: u16, body: &[u8]) -> (r: Result<(), String>)
    ensures
        match r {
            Ok(_) => 200 <= status < 300,
            Err(e) => !(200 <= status < 300) && e@ == "embeddings request failed with status "@
                + dec(status as nat) + ": "@ + lossy_text(body@),
        },
{
    if 200 <= status && status < 300 {
        return Ok(());
    }
    let mut e = "embeddings request failed with status ".to_string();
    e.append(dec_str(status as u64).as_str());
    e.append(": ");
    e.append(read_lossy(body).as_str());
    Err(e)
}

/// Whether a stored vector has the length that was noted beside it.
pub fn is_whole_row(dimension: i32, length: usize) -> (r: bool)
    ensures
        r == (dimension == length),
{
    dimension >= 0 && dimension as u32 as u64 == length as u64
}

/// The rows whose vectors have the length of the query's.
pub open spec fn comparable(lengths: Seq<usize>, query: usize) -> Seq<usize>
    decreases lengths.len(),
{
    if lengths.len() == 0 {
        Seq::empty()
    } else if lengths.last() == query {
        comparable(lengths.drop_last(), query).push((lengths.len() - 1) as usize)
    } else {
        comparable(lengths.drop_last(), query)
    }
}

pub fn comparable_rows(lengths: &Vec<usize>, query: usize) -> (r: Vec<usize>)
    ensures
        r@ == comparable(lengths@, query),
{
    let mut r: Vec<usize> = Vec::new();
    let mut i: usize = 0;
    assert(r@ =~= comparable(lengths@.take(0), query));
    while i < lengths.len()
        invariant
            i <= lengths@.len(),
            r@ == comparable(lengths@.take(i as int), query),
        decreases lengths@.len() - i,
    {
        assert(lengths@.take(i + 1).drop_last() =~= lengths@.take(i as int));
        if lengths[i] == query {
            r.push(i);
        }
        i = i + 1;
    }
    assert(lengths@.take(lengths@.len() as int) =~= lengths@);
    r
}

/// The place of a score among all scores, from the bits of an `f32` that is a number. The two zeros
/// have one place.
pub open spec fn score_rank(bits: u32) -> int {
    if bits < 0x8000_0000 {
        0x8000_0000 + bits
    } else {
        0x1_0000_0000 - bits
    }
}

pub open spec fn score_ranks(scores: Seq<u32>) -> Seq<u64> {
    scores.map_values(|bits: u32| score_rank(bits) as u64)
}

/// The `k` best hits, the best first; hits with one score stay in the order that they have.
pub fn best_hits(scores: &Vec<u32>, k: usize) -> (r: Vec<usize>)
    ensures
        exists|order: Seq<usize>| #[trigger]
            is_desc_order(score_ranks(scores@), order) && r@ == order.take(
                if k < order.len() {
                    k as int
                } else {
                    order.len() as int
                },
            ),
{
    let mut keys: Vec<u64> = Vec::new();
    let mut i: usize = 0;
    while i < scores.len()
        invariant
            i <= scores@.len(),
            keys@ == score_ranks(scores@).take(i as int),
        decreases scores@.len() - i,
    {
        let bits: u32 = scores[i];
        let key: u64 = if bits < 0x8000_0000 {
            0x8000_0000u64 + bits as u64
        } else {
            0x1_0000_0000u64 - bits as u64
        };
        keys.push(key);
        assert(keys@ =~= score_ranks(scores@).take(i + 1));
        i = i + 1;
    }
    assert(keys@ =~= score_ranks(scores@));
    let mut order = order_desc(&keys);
    let ghost all = order@;
    order.truncate(k);
    assert(order@ =~= all.take(
        if k < all.len() {
            k as int
        } else {
            all.len() as int
        },
    ));
    assert(is_desc_order(score_ranks(scores@), all));
    order
}

/// Places follow scores. Of two positive numbers the one with the larger bits is larger, of two
/// negative ones the one with the smaller bits, and no negative number comes behind a positive one.
pub proof fn lemma_ranks_follow_scores(a: u32, b: u32)
    ensures
        a < 0x8000_0000 && b < 0x8000_0000 && a < b ==> score_rank(a) < score_rank(b),
        a >= 0x8000_0000 && b >= 0x8000_0000 && a < b ==> score_rank(a) > score_rank(b),
        a >= 0x8000_0000 && b < 0x8000_0000 ==> score_rank(a) <= score_rank(b),
        score_rank(0x8000_0000) == score_rank(0),
{
}

/// A chunk as it is stored: which of its source it is, its text, and its vector with its length.
#[derive(Debug)]
pub struct ChunkRow<T> {
    pub chunk_index: i32,
    pub text: String,
    pub dim: i32,
    pub embedding: Vec<T>,
}

/// Whether `row` is what is stored of the `i`-th chunk.
pub open spec fn is_row<T>(row: ChunkRow<T>, chunks: Seq<Seq<char>>, i: int, vector: Seq<T>) -> bool {
    &&& row.chunk_index == i as i32
    &&& row.text@ == chunks[i]
    &&& row.dim == vector.len() as i32
    &&& row.embedding@ == vector
}

/// The indexing of one text, a batch at a time.
#[derive(Debug)]
pub struct TextIngest {
    chunks: Vec<String>,
    at: usize,
}

impl TextIngest {
    /// The chunks of the text.
    pub closed spec fn chunks(&self) -> Seq<Seq<char>> {
        views(self.chunks@)
    }

    /// How many of them have been stored.
    pub closed spec fn at(&self) -> nat {
        self.at as nat
    }

    pub closed spec fn wf(&self) -> bool {
        self.at <= self.chunks@.len()
    }

    /// Where the next batch ends.
    pub open spec fn batch_end(&self) -> nat {
        if self.at() + EMBED_BATCH_SIZE <= self.chunks().len() {
            self.at() + EMBED_BATCH_SIZE as nat
        } else {
            self.chunks().len()
        }
    }

    /// Sets out to index a text. What was stored of its source is deleted first, unless there is
    /// nothing in the text.
    pub fn start(text: &str) -> (r: Option<Self>)
        requires
            utf8_len(trim(text@)) < usize::MAX,
            chunked(text@, DEFAULT_CHUNK_SIZE as int, DEFAULT_CHUNK_OVERLAP as int) is Some,
        ensures
            ({
                let c = chunked(
                    text@,
                    DEFAULT_CHUNK_SIZE as int,
                    DEFAULT_CHUNK_OVERLAP as int,
                )->0;
                match r {
                    None => c.len() == 0,
                    Some(i) => c.len() > 0 && i.wf() && i.chunks() == c && i.at() == 0,
                }
            }),
    {
        let chunks = chunk_text(text, DEFAULT_CHUNK_SIZE, DEFAULT_CHUNK_OVERLAP);
        assert(views(chunks@).len() == chunks@.len());
        if chunks.len() == 0 {
            None
        } else {
            Some(TextIngest { chunks, at: 0 })
        }
    }

    /// The chunks that are embedded next, if any are left.
    pub fn batch(&self) -> (r: Option<Vec<String>>)
        requires
            self.wf(),
        ensures
            match r {
                None => self.at() == self.chunks().len(),
                Some(batch) => self.at() < self.chunks().len() && views(batch@)
                    == self.chunks().subrange(self.at() as int, self.batch_end() as int),
            },
    {
        let n: usize = self.chunks.len();
        assert(self.chunks().len() == n);
        if self.at == n {
            return None;
        }
        let end: usize = if n - self.at >= EMBED_BATCH_SIZE {
            self.at + EMBED_BATCH_SIZE
        } else {
            n
        };
        let ghost wanted = self.chunks().subrange(self.at as int, end as int);
        let mut batch: Vec<String> = Vec::new();
        let mut i: usize = self.at;
        assert(views(batch@) =~= wanted.take(0));
        while i < end
            invariant
                self.at <= i <= end <= n,
                n == self.chunks@.len(),
                wanted == self.chunks().subrange(self.at as int, end as int),
                views(batch@) == wanted.take(i - self.at),
            decreases end - i,
        {
            let ghost before = views(batch@);
            batch.push(self.chunks[i].clone());
            assert(views(batch@) =~= before.push(self.chunks@[i as int]@));
            assert(wanted[i - self.at] == self.chunks@[i as int]@);
            assert(wanted.take(i + 1 - self.at) =~= before.push(wanted[i - self.at]));
            i = i + 1;
        }
        assert(wanted.take(end - self.at) =~= wanted);
        Some(batch)
    }

    /// What is stored of the batch, given the vectors of its chunks in their order.
    pub fn store<T>(&mut self, vectors: Vec<Vec<T>>) -> (r: Vec<ChunkRow<T>>)
        requires
            old(self).wf(),
            vectors@.len() == old(self).batch_end() - old(self).at(),
        ensures
            final(self).wf(),
            final(self).chunks() == old(self).chunks(),
            final(self).at() == old(self).batch_end(),
            r@.len() == vectors@.len(),
            forall|i: int|
                0 <= i < r@.len() ==> is_row(
                    #[trigger] r@[i],
                    old(self).chunks(),
                    old(self).at() + i,
                    vectors@[i]@,
                ),
    {
        let ghost all = vectors@;
        let ghost start = self.at as int;
        let ghost chunks = self.chunks();
        assert(chunks.len() == self.chunks@.len());
        let mut rows: Vec<ChunkRow<T>> = Vec::new();
        for vector in it: vectors
            invariant
                it.seq() == all,
                all.len() == old(self).batch_end() - old(self).at(),
                old(self).wf(),
                self.chunks == old(self).chunks,
                chunks == self.chunks(),
                chunks.len() == self.chunks@.len(),
                start == old(self).at(),
                self.at == start + it.index(),
                self.at <= self.chunks@.len(),
                rows@.len() == it.index(),
                forall|i: int|
                    0 <= i < rows@.len() ==> is_row(
                        #[trigger] rows@[i],
                        chunks,
                        start + i,
                        all[i]@,
                    ),
        {
            let n: usize = self.chunks.len();
            assert(self.at < n);
            let text = self.chunks[self.at].clone();
            assert(text@ == chunks[self.at as int]);
            let dim: i32 = #[verifier::truncate] (vector.len() as i32);
            let chunk_index: i32 = #[verifier::truncate] (self.at as i32);
            rows.push(ChunkRow { chunk_index, text, dim, embedding: vector });
            self.at = self.at + 1;
        }
        rows
    }
}

/// The rows of a source.
pub open spec fn rows_of<T>(
    rows: Seq<(Seq<char>, ChunkRow<T>)>,
    source: Seq<char>,
) -> Seq<ChunkRow<T>>
    decreases rows.len(),
{
    if rows.len() == 0 {
        Seq::empty()
    } else {
        let before = rows_of(rows.drop_last(), source);
        if rows.last().0 == source {
            before.push(rows.last().1)
        } else {
            before
        }
    }
}

/// The index without the rows of a source.
pub open spec fn without_source<T>(
    rows: Seq<(Seq<char>, ChunkRow<T>)>,
    source: Seq<char>,
) -> Seq<(Seq<char>, ChunkRow<T>)> {
    rows.filter(|r: (Seq<char>, ChunkRow<T>)| r.0 != source)
}

/// The index with more rows of a source.
pub open spec fn with_rows<T>(
    rows: Seq<(Seq<char>, ChunkRow<T>)>,
    source: Seq<char>,
    more: Seq<ChunkRow<T>>,
) -> Seq<(Seq<char>, ChunkRow<T>)> {
    rows + more.map_values(|r: ChunkRow<T>| (source, r))
}

proof fn lemma_rows_of_push<T>(
    rows: Seq<(Seq<char>, ChunkRow<T>)>,
    row: (Seq<char>, ChunkRow<T>),
    source: Seq<char>,
)
    ensures
        rows_of(rows.push(row), source) == if row.0 == source {
            rows_of(rows, source).push(row.1)
        } else {
            rows_of(rows, source)
        },
{
    assert(rows.push(row).drop_last() =~= rows);
}

proof fn lemma_rows_of_deleted<T>(
    rows: Seq<(Seq<char>, ChunkRow<T>)>,
    source: Seq<char>,
    other: Seq<char>,
)
    ensures
        rows_of(without_source(rows, source), other) == if other == source {
            Seq::empty()
        } else {
            rows_of(rows, other)
        },
    decreases rows.len(),
{
    reveal(Seq::filter);
    if rows.len() > 0 {
        let init = rows.drop_last();
        lemma_rows_of_deleted(init, source, other);
        if rows.last().0 != source {
            lemma_rows_of_push(without_source(init, source), rows.last(), other);
        }
    }
}

proof fn lemma_rows_of_added<T>(
    rows: Seq<(Seq<char>, ChunkRow<T>)>,
    source: Seq<char>,
    more: Seq<ChunkRow<T>>,
    other: Seq<char>,
)
    ensures
        rows_of(with_rows(rows, source, more), other) == if other == source {
            rows_of(rows, other) + more
        } else {
            rows_of(rows, other)
        },
    decreases more.len(),
{
    if more.len() == 0 {
        assert(with_rows(rows, source, more) =~= rows);
        assert(rows_of(rows, other) + more =~= rows_of(rows, other));
    } else {
        lemma_rows_of_added(rows, source, more.drop_last(), other);
        let before = with_rows(rows, source, more.drop_last());
        assert(with_rows(rows, source, more) =~= before.push((source, more.last())));
        lemma_rows_of_push(before, (source, more.last()), other);
        assert((rows_of(rows, other) + more.drop_last()).push(more.last()) =~= rows_of(rows, other)
            + more);
    }
}

/// Indexing a text again replaces what was stored of its source, and leaves every other source as
/// it was.
pub proof fn lemma_indexing_replaces_source<T>(
    rows: Seq<(Seq<char>, ChunkRow<T>)>,
    source: Seq<char>,
    stored: Seq<ChunkRow<T>>,
    other: Seq<char>,
)
    ensures
        rows_of(with_rows(without_source(rows, source), source, stored), source) == stored,
        other != source ==> rows_of(
            with_rows(without_source(rows, source), source, stored),
            other,
        ) == rows_of(rows, other),
{
    let kept = without_source(rows, source);
    lemma_rows_of_deleted(rows, source, source);
    lemma_rows_of_deleted(rows, source, other);
    lemma_rows_of_added(kept, source, stored, source);
    lemma_rows_of_added(kept, source, stored, other);
    assert(Seq::<ChunkRow<T>>::empty() + stored =~= stored);
}

} // verus!
