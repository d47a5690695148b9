//! Sessions that are kept, so that they can be gone back to. They never stand among the files of a
//! project.
use crate::hashing::{digest_hex, sha256_hex};
use crate::paths::{join_path, joined};
use crate::sorting::{is_desc_order, order_desc};
use crate::text::{
    dec, dec_str, ends_with, ends_with_str, first_chars_str, is_alnum, is_ascii_alphanumeric,
    max_usize, min_usize, starts_with, starts_with_str, to_chars, trim, trim_end, trim_start,
    trim_str, views,
};
use crate::web_research::config::Millis;
use crate::web_research::session::{ResearchDigest, ResearchPageBody};
use vstd::prelude::*;
use vstd::utf8::encode_utf8;

verus! {

/// How many sessions are kept.
pub const MAX_SESSIONS: usize = 50;

/// For how long a session is kept: for two weeks.
pub const MAX_SESSION_AGE: Millis = 1_209_600_000;

/// A session that is kept.
#[derive(Debug)]
pub struct StoredResearchSession {
    pub id: String,
    pub created_at_unix_ms: u64,
    pub updated_at_unix_ms: u64,
    pub digest: ResearchDigest,
    /// The text of its pages; a model is not shown it.
    pub pages: Vec<ResearchPageBody>,
}

/// What is told of a session that is kept.
#[derive(Debug)]
pub struct SessionSummary {
    pub id: String,
    pub query: String,
    pub pages_fetched: usize,
    pub created_at_unix_ms: u64,
    pub updated_at_unix_ms: u64,
    pub stopped_reason: String,
}

impl Clone for SessionSummary {
    fn clone(&self) -> (r: Self)
        ensures
            r == *self,
    {
        SessionSummary {
            id: self.id.clone(),
            query: self.query.clone(),
            pages_fetched: self.pages_fetched,
            created_at_unix_ms: self.created_at_unix_ms,
            updated_at_unix_ms: self.updated_at_unix_ms,
            stopped_reason: self.stopped_reason.clone(),
        }
    }
}

impl StoredResearchSession {
    /// What is told of the session.
    pub fn summary(&self) -> (r: SessionSummary)
        ensures
            r.id@ == self.id@,
            r.query@ == self.digest.query@,
            r.pages_fetched == self.digest.pages_fetched,
            r.created_at_unix_ms == self.created_at_unix_ms,
            r.updated_at_unix_ms == self.updated_at_unix_ms,
            r.stopped_reason@ == self.digest.stopped_reason@,
    {
        SessionSummary {
            id: self.id.clone(),
            query: self.digest.query.clone(),
            pages_fetched: self.digest.pages_fetched,
            created_at_unix_ms: self.created_at_unix_ms,
            updated_at_unix_ms: self.updated_at_unix_ms,
            stopped_reason: self.digest.stopped_reason.clone(),
        }
    }
}

pub open spec fn sessions_dir_of(data_dir: Seq<char>) -> Seq<char> {
    joined(joined(data_dir, "web_research"@), "sessions"@)
}

/// Where sessions are kept.
pub fn sessions_dir(data_dir: &str) -> (r: String)
    ensures
        r@ == sessions_dir_of(data_dir@),
{
    join_path(join_path(data_dir, "web_research").as_str(), "sessions")
}

/// The name of a session on this query that is first kept at this time.
pub open spec fn session_id_of(query: Seq<char>, now_ms: u64) -> Seq<char> {
    dec(now_ms as nat) + "-"@ + sha256_hex(
        encode_utf8(dec(now_ms as nat) + ":"@ + query),
    ).take(10)
}

/// Names a new session; under that name it can be asked for.
pub fn new_session_id(query: &str, now_ms: u64) -> (r: String)
    ensures
        r@ == session_id_of(query@, now_ms),
        is_session_id(r@),
        trim(r@) == r@,
{
    let mut text = dec_str(now_ms);
    text.append(":");
    text.append(query);
    let digest = digest_hex(text.as_str().as_bytes());
    let mut r = dec_str(now_ms);
    r.append("-");
    r.append(first_chars_str(digest.as_str(), 10).as_str());
    proof {
        lemma_new_ids_are_ids(query@, now_ms);
        lemma_ids_are_trimmed(r@);
    }
    r
}

/// Where a session with this name is kept.
pub open spec fn session_path_of(data_dir: Seq<char>, id: Seq<char>) -> Seq<char> {
    joined(sessions_dir_of(data_dir), id + ".json"@)
}

pub fn session_path(data_dir: &str, id: &str) -> (r: String)
    ensures
        r@ == session_path_of(data_dir@, id@),
{
    let mut name = id.to_string();
    name.append(".json");
    join_path(sessions_dir(data_dir).as_str(), name.as_str())
}

/// Whether a character may stand in the name of a session.
pub open spec fn is_id_char(c: char) -> bool {
    is_alnum(c) || c == '-' || c == '_'
}

/// Whether a text can be the name of a session: it cannot lead out of the directory.
pub open spec fn is_session_id(id: Seq<char>) -> bool {
    id.len() > 0 && forall|i: int| 0 <= i < id.len() ==> is_id_char(#[trigger] id[i])
}

fn sanitize_session_id(raw: &str) -> (r: Result<String, String>)
    ensures
        match r {
            Ok(id) => is_session_id(trim(raw@)) && id@ == trim(raw@),
            Err(e) => !is_session_id(trim(raw@)) && e@ == "invalid research session id"@,
        },
{
    let trimmed = trim_str(raw);
    let v = to_chars(trimmed.as_str());
    if v.len() == 0 {
        return Err("invalid research session id".to_string());
    }
    let mut i: usize = 0;
    while i < v.len()
        invariant
            i <= v@.len(),
            v@ == trimmed@,
            trimmed@ == trim(raw@),
            forall|j: int| 0 <= j < i ==> is_id_char(#[trigger] v@[j]),
        decreases v@.len() - i,
    {
        if !(is_ascii_alphanumeric(v[i]) || v[i] == '-' || v[i] == '_') {
            return Err("invalid research session id".to_string());
        }
        i = i + 1;
    }
    Ok(trimmed)
}

/// Where the session is kept that a user asks for, with its name.
pub fn locate_session(data_dir: &str, session_id: &str) -> (r: Result<(String, String), String>)
    ensures
        match r {
            Ok((id, path)) => is_session_id(trim(session_id@)) && id@ == trim(session_id@) && path@
                == session_path_of(data_dir@, id@),
            Err(e) => !is_session_id(trim(session_id@)) && e@ == "invalid research session id"@,
        },
{
    match sanitize_session_id(session_id) {
        Ok(id) => {
            let path = session_path(data_dir, id.as_str());
            Ok((id, path))
        },
        Err(e) => Err(e),
    }
}

/// What is said of a session that is not kept.
pub fn session_not_found(id: &str) -> (r: String)
    ensures
        r@ == "research session not found: "@ + id@,
{
    let mut r = "research session not found: ".to_string();
    r.append(id);
    r
}

/// The name of a session holds no separator and no dot, so no name leads out of the directory.
pub proof fn lemma_session_ids_stay_inside(id: Seq<char>)
    requires
        is_session_id(id),
    ensures
        !id.contains('/'),
        !id.contains('\\'),
        !id.contains('.'),
{
    if id.contains('/') {
        let k = choose|k: int| 0 <= k < id.len() && id[k] == '/';
        assert(is_id_char(id[k]));
    }
    if id.contains('\\') {
        let k = choose|k: int| 0 <= k < id.len() && id[k] == '\\';
        assert(is_id_char(id[k]));
    }
    if id.contains('.') {
        let k = choose|k: int| 0 <= k < id.len() && id[k] == '.';
        assert(is_id_char(id[k]));
    }
}

proof fn lemma_ids_are_trimmed(id: Seq<char>)
    requires
        is_session_id(id),
    ensures
        trim(id) == id,
{
    assert(is_id_char(id[0]));
    assert(is_id_char(id.last()));
    assert(trim_start(id) == id);
    assert(trim_end(id) == id);
}

proof fn lemma_new_ids_are_ids(query: Seq<char>, now_ms: u64)
    requires
        sha256_hex(encode_utf8(dec(now_ms as nat) + ":"@ + query)).len() == 64,
        crate::hashing::is_hex(sha256_hex(encode_utf8(dec(now_ms as nat) + ":"@ + query))),
    ensures
        is_session_id(session_id_of(query, now_ms)),
{
    reveal_strlit("-");
    crate::text::lemma_dec_digits(now_ms as nat);
    let digits = dec(now_ms as nat);
    let hash = sha256_hex(encode_utf8(digits + ":"@ + query));
    let id = session_id_of(query, now_ms);
    assert forall|i: int| 0 <= i < id.len() implies is_id_char(#[trigger] id[i]) by {
        if i < digits.len() {
            assert(id[i] == digits[i]);
        } else if i > digits.len() {
            assert(id[i] == hash[i - digits.len() - 1]);
        }
    }
}

/// Whether a file holds a session, by its name.
pub fn is_session_file(file_name: &str) -> (r: bool)
    ensures
        r == (ends_with(file_name@, ".json"@) && file_name@.len() > 5),
{
    ends_with_str(file_name, ".json") && to_chars(file_name).len() > 5
}

/// When a session that is kept was last written, and where it is kept.
pub type StoredEntry = (String, u64);

pub open spec fn is_expired(entry: StoredEntry, now_ms: u64, max_age: Millis) -> bool {
    now_ms - entry.1 > max_age
}

/// The sessions that are too old, or those that are not.
pub open spec fn aged(entries: Seq<StoredEntry>, now_ms: u64, max_age: Millis, expired: bool) -> Seq<
    StoredEntry,
>
    decreases entries.len(),
{
    if entries.len() == 0 {
        Seq::empty()
    } else {
        let before = aged(entries.drop_last(), now_ms, max_age, expired);
        if is_expired(entries.last(), now_ms, max_age) == expired {
            before.push(entries.last())
        } else {
            before
        }
    }
}

pub open spec fn entry_keys(entries: Seq<StoredEntry>) -> Seq<u64> {
    entries.map_values(|e: StoredEntry| e.1)
}

pub open spec fn entry_paths(entries: Seq<StoredEntry>) -> Seq<Seq<char>> {
    entries.map_values(|e: StoredEntry| e.0@)
}

/// Where the entries are kept, in this order, without the first `n`.
pub open spec fn paths_from(entries: Seq<StoredEntry>, order: Seq<usize>, n: int) -> Seq<Seq<char>> {
    Seq::new(
        if n <= order.len() {
            (order.len() - n) as nat
        } else {
            0
        },
        |i: int| entries[order[n + i] as int].0@,
    )
}

pub open spec fn at_least_one(n: usize) -> int {
    if n >= 1 {
        n as int
    } else {
        1
    }
}

/// The files that are deleted: those of sessions that are too old, and of those that are too many.
#[derive(Debug)]
pub struct PrunePlan {
    pub expired: Vec<String>,
    pub surplus: Vec<String>,
}

/// Decides which sessions are no longer kept: those that were not written for longer than
/// `max_age`, and of the others all but the `max_sessions` that were written last.
pub fn prune_sessions(
    entries: &Vec<StoredEntry>,
    max_sessions: usize,
    max_age: Millis,
    now_ms: u64,
) -> (r: PrunePlan)
    ensures
        views(r.expired@) == entry_paths(aged(entries@, now_ms, max_age, true)),
        exists|order: Seq<usize>|
            {
                &&& #[trigger] is_desc_order(
                    entry_keys(aged(entries@, now_ms, max_age, false)),
                    order,
                )
                &&& views(r.surplus@) == paths_from(
                    aged(entries@, now_ms, max_age, false),
                    order,
                    max_sessions as int,
                )
            },
{
    let mut expired: Vec<String> = Vec::new();
    let mut paths: Vec<String> = Vec::new();
    let mut keys: Vec<u64> = Vec::new();
    let mut i: usize = 0;
    assert(entries@.take(0) =~= Seq::<StoredEntry>::empty());
    assert(views(expired@) =~= entry_paths(Seq::<StoredEntry>::empty()));
    assert(views(paths@) =~= entry_paths(Seq::<StoredEntry>::empty()));
    assert(keys@ =~= entry_keys(Seq::<StoredEntry>::empty()));
    while i < entries.len()
        invariant
            i <= entries@.len(),
            views(expired@) == entry_paths(aged(entries@.take(i as int), now_ms, max_age, true)),
            views(paths@) == entry_paths(aged(entries@.take(i as int), now_ms, max_age, false)),
            keys@ == entry_keys(aged(entries@.take(i as int), now_ms, max_age, false)),
        decreases entries@.len() - i,
    {
        let ghost gone = aged(entries@.take(i as int), now_ms, max_age, true);
        let ghost kept = aged(entries@.take(i as int), now_ms, max_age, false);
        assert(entries@.take(i + 1).drop_last() =~= entries@.take(i as int));
        assert(entries@.take(i + 1).last() == entries@[i as int]);
        let at: u64 = entries[i].1;
        let old = now_ms > at && (now_ms - at) as u128 > max_age;
        assert(old == is_expired(entries@[i as int], now_ms, max_age));
        if old {
            let ghost before = views(expired@);
            expired.push(entries[i].0.clone());
            assert(views(expired@) =~= before.push(entries@[i as int].0@));
            assert(entry_paths(gone.push(entries@[i as int])) =~= before.push(
                entries@[i as int].0@,
            ));
        } else {
            let ghost before = views(paths@);
            paths.push(entries[i].0.clone());
            keys.push(at);
            assert(views(paths@) =~= before.push(entries@[i as int].0@));
            assert(entry_paths(kept.push(entries@[i as int])) =~= before.push(
                entries@[i as int].0@,
            ));
            assert(keys@ =~= entry_keys(kept.push(entries@[i as int])));
        }
        i = i + 1;
    }
    assert(entries@.take(entries@.len() as int) =~= entries@);
    let ghost kept = aged(entries@, now_ms, max_age, false);
    let order = order_desc(&keys);
    let keep: usize = max_sessions;
    let mut surplus: Vec<String> = Vec::new();
    let ghost wanted = paths_from(kept, order@, max_sessions as int);
    let n: usize = order.len();
    let mut k: usize = keep;
    assert(views(surplus@) =~= wanted.take(0));
    assert(views(paths@).len() == paths@.len());
    while k < n
        invariant
            keep <= k,
            k <= n || surplus@.len() == 0,
            keep <= n ==> k <= n,
            n == order@.len(),
            keep == max_sessions,
            wanted == paths_from(kept, order@, max_sessions as int),
            is_desc_order(keys@, order@),
            keys@ == entry_keys(kept),
            views(paths@) == entry_paths(kept),
            paths@.len() == keys@.len(),
            k <= n ==> views(surplus@) == wanted.take(k - keep),
        decreases n - k,
    {
        let ghost before = views(surplus@);
        let at: usize = order[k];
        assert(paths@[at as int]@ == views(paths@)[at as int]);
        surplus.push(paths[at].clone());
        assert(views(surplus@) =~= before.push(paths@[at as int]@));
        assert(wanted[k - keep] == kept[at as int].0@);
        assert(wanted.take(k + 1 - keep) =~= before.push(wanted[k - keep]));
        k = k + 1;
    }
    proof {
        if keep <= n {
            assert(wanted.take(n - keep) =~= wanted);
        } else {
            assert(views(surplus@) =~= wanted);
        }
        assert(views(surplus@) == wanted);
        assert(is_desc_order(entry_keys(kept), order@));
    }
    PrunePlan { expired, surplus }
}

pub open spec fn summary_keys(sessions: Seq<SessionSummary>) -> Seq<u64> {
    sessions.map_values(|s: SessionSummary| s.updated_at_unix_ms)
}

/// Whether `r` holds the sessions in this order, `n` at most.
pub open spec fn lists(
    r: Seq<SessionSummary>,
    sessions: Seq<SessionSummary>,
    order: Seq<usize>,
    n: int,
) -> bool {
    &&& r.len() == if sessions.len() <= n {
        sessions.len() as int
    } else {
        n
    }
    &&& forall|i: int| 0 <= i < r.len() ==> #[trigger] r[i] == sessions[order[i] as int]
}

/// The sessions that were written last, the latest first. At least one is listed, if there is any.
pub fn list_sessions(sessions: &Vec<SessionSummary>, limit: usize) -> (r: Vec<SessionSummary>)
    ensures
        exists|order: Seq<usize>|
            {
                &&& #[trigger] is_desc_order(summary_keys(sessions@), order)
                &&& lists(r@, sessions@, order, at_least_one(limit))
            },
{
    let n: usize = sessions.len();
    let mut keys: Vec<u64> = Vec::new();
    let mut i: usize = 0;
    assert(keys@ =~= summary_keys(sessions@).take(0));
    while i < n
        invariant
            i <= n,
            n == sessions@.len(),
            keys@ == summary_keys(sessions@).take(i as int),
        decreases n - i,
    {
        let ghost before = keys@;
        keys.push(sessions[i].updated_at_unix_ms);
        assert(summary_keys(sessions@).take(i + 1) =~= before.push(
            sessions@[i as int].updated_at_unix_ms,
        ));
        i = i + 1;
    }
    assert(keys@ =~= summary_keys(sessions@));
    let order = order_desc(&keys);
    let m: usize = min_usize(n, max_usize(limit, 1));
    let mut r: Vec<SessionSummary> = Vec::new();
    let mut k: usize = 0;
    while k < m
        invariant
            k <= m <= n,
            n == sessions@.len(),
            r@.len() == k,
            is_desc_order(summary_keys(sessions@), order@),
            forall|j: int| 0 <= j < k ==> #[trigger] r@[j] == sessions@[order@[j] as int],
        decreases m - k,
    {
        assert(order@[k as int] < n);
        r.push(sessions[order[k]].clone());
        k = k + 1;
    }
    assert(lists(r@, sessions@, order@, at_least_one(limit)));
    r
}

/// What is told of a session, as it stands in the list.
pub open spec fn summary_line(s: SessionSummary) -> Seq<char> {
    "- `"@ + s.id@ + "` — "@ + s.query@ + " ("@ + dec(s.pages_fetched as nat) + " page(s), "@
        + s.stopped_reason@ + ")\n"@
}

pub open spec fn summary_lines(summaries: Seq<SessionSummary>) -> Seq<char>
    decreases summaries.len(),
{
    if summaries.len() == 0 {
        Seq::empty()
    } else {
        summary_lines(summaries.drop_last()) + summary_line(summaries.last())
    }
}

/// The list of sessions that are kept.
pub open spec fn session_list(summaries: Seq<SessionSummary>) -> Seq<char> {
    if summaries.len() == 0 {
        "No persisted research sessions."@
    } else {
        "# Research sessions\n"@ + summary_lines(summaries)
            + "\nResume with research_web session_id=<id>. Explicitly set ingest_to_rag=true to index pages.\n"@
    }
}

pub fn render_session_list(summaries: &Vec<SessionSummary>) -> (r: String)
    ensures
        r@ == session_list(summaries@),
{
    let n: usize = summaries.len();
    if n == 0 {
        return "No persisted research sessions.".to_string();
    }
    let mut list = String::new();
    let mut i: usize = 0;
    assert(summaries@.take(0) =~= Seq::<SessionSummary>::empty());
    while i < n
        invariant
            i <= n,
            n == summaries@.len(),
            list@ == summary_lines(summaries@.take(i as int)),
        decreases n - i,
    {
        let s = &summaries[i];
        assert(summaries@.take(i + 1).drop_last() =~= summaries@.take(i as int));
        let mut line = "- `".to_string();
        line.append(s.id.as_str());
        line.append("` — ");
        line.append(s.query.as_str());
        line.append(" (");
        line.append(dec_str(s.pages_fetched as u64).as_str());
        line.append(" page(s), ");
        line.append(s.stopped_reason.as_str());
        line.append(")\n");
        list.append(line.as_str());
        i = i + 1;
    }
    assert(summaries@.take(n as int) =~= summaries@);
    let mut r = "# Research sessions\n".to_string();
    r.append(list.as_str());
    r.append(
        "\nResume with research_web session_id=<id>. Explicitly set ingest_to_rag=true to index pages.\n",
    );
    r
}

/// Under which name a page is indexed: its URL, if it has one, or else its source.
pub open spec fn rag_source(url: Seq<char>, source_id: Seq<char>) -> Seq<char> {
    if starts_with(url, "http://"@) || starts_with(url, "https://"@) {
        "web:"@ + url
    } else if starts_with(source_id, "web:"@) {
        source_id
    } else {
        "web:"@ + source_id
    }
}

pub fn web_rag_source(url: &str, source_id: &str) -> (r: String)
    ensures
        r@ == rag_source(url@, source_id@),
{
    if starts_with_str(url, "http://") || starts_with_str(url, "https://") {
        let mut r = "web:".to_string();
        r.append(url);
        r
    } else if starts_with_str(source_id, "web:") {
        source_id.to_string()
    } else {
        let mut r = "web:".to_string();
        r.append(source_id);
        r
    }
}

/// What is indexed from the web can be told from everything else by its name.
pub proof fn lemma_rag_sources_are_marked(url: Seq<char>, source_id: Seq<char>)
    ensures
        starts_with(rag_source(url, source_id), "web:"@),
{
    let r = rag_source(url, source_id);
    let n = "web:"@.len() as int;
    if starts_with(url, "http://"@) || starts_with(url, "https://"@) {
        assert(r.take(n) =~= "web:"@);
    } else if !starts_with(source_id, "web:"@) {
        assert(r.take(n) =~= "web:"@);
    }
}

/// Nothing that is left of the sessions is too old.
proof fn lemma_aged(entries: Seq<StoredEntry>, now_ms: u64, max_age: Millis, expired: bool)
    ensures
        forall|i: int|
            0 <= i < aged(entries, now_ms, max_age, expired).len() ==> is_expired(
                #[trigger] aged(entries, now_ms, max_age, expired)[i],
                now_ms,
                max_age,
            ) == expired,
    decreases entries.len(),
{
    if entries.len() > 0 {
        let before = aged(entries.drop_last(), now_ms, max_age, expired);
        let all = aged(entries, now_ms, max_age, expired);
        lemma_aged(entries.drop_last(), now_ms, max_age, expired);
        assert forall|i: int| 0 <= i < all.len() implies is_expired(
            #[trigger] all[i],
            now_ms,
            max_age,
        ) == expired by {
            if i < before.len() {
                assert(all[i] == before[i]);
            }
        }
    }
}

/// Of the sessions that are kept none is too old, they are no more than allowed, and none of those
/// that are deleted because there are too many was written after one that is kept. `order` is the
/// order in which they were written, the last first.
pub proof fn lemma_latest_sessions_are_kept(
    entries: Seq<StoredEntry>,
    max_sessions: usize,
    max_age: Millis,
    now_ms: u64,
    order: Seq<usize>,
)
    requires
        is_desc_order(entry_keys(aged(entries, now_ms, max_age, false)), order),
    ensures
        ({
            let young = aged(entries, now_ms, max_age, false);
            let n = max_sessions as int;
            &&& forall|i: int|
                0 <= i < young.len() ==> !is_expired(#[trigger] young[i], now_ms, max_age)
            &&& young.len() - paths_from(young, order, n).len() <= n
            &&& forall|i: int, j: int|
                0 <= i < n <= j < order.len() ==> young[#[trigger] order[i] as int].1
                    >= young[#[trigger] order[j] as int].1
        }),
{
    let young = aged(entries, now_ms, max_age, false);
    let keys = entry_keys(young);
    lemma_aged(entries, now_ms, max_age, false);
    assert forall|i: int, j: int|
        0 <= i < max_sessions <= j < order.len() implies young[
    #[trigger] order[i] as int].1 >= young[#[trigger] order[j] as int].1 by {
        assert(keys[order[i] as int] >= keys[order[j] as int]);
    }
}

} // verus!
