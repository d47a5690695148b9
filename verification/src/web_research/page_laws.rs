//! What a model is told of pages, of results and of sessions.
use crate::selection::{
    are_the_first, are_the_wanted, lemma_first_of_the_wanted, lemma_none_of_none, lemma_one_more,
};
use crate::text::{debug_quoted, dec, is_ws, lines, trim, without_leading};
use crate::web_research::config::Millis;
use crate::web_research::envelope::{result_entries, result_entry, search_report, SearchResult};
use crate::web_research::extract::{
    content_type_of, first_title, heading_title, headings, page_of, title_of, ContentType,
};
use crate::web_research::research_laws::{
    lemma_stands_in_itself, lemma_stands_in_whole, stands_in,
};
use crate::web_research::store::{
    aged, session_list, summary_lines, SessionSummary, StoredEntry,
};
use vstd::prelude::*;

verus! {

// ---------------------------------------------------------------------------
// Headings
// ---------------------------------------------------------------------------

/// Lines that begin with a number sign.
pub open spec fn begins_a_part() -> spec_fn(Seq<char>) -> bool {
    |line: Seq<char>| trim(line).len() > 0 && trim(line)[0] == '#'
}

pub open spec fn without_blanks() -> spec_fn(Seq<char>) -> Seq<char> {
    |line: Seq<char>| trim(line)
}

/// The outline of a page is made of its first headings, in their order.
pub proof fn lemma_outline_has_the_first_headings(all: Seq<Seq<char>>, max: nat)
    requires
        max > 0,
    ensures
        are_the_first(headings(all, max), all, begins_a_part(), without_blanks(), max),
{
    lemma_every_heading(all);
    lemma_headings_are_the_first(all, max);
    lemma_first_of_the_wanted(every_heading(all), all, begins_a_part(), without_blanks(), max);
}

spec fn every_heading(all: Seq<Seq<char>>) -> Seq<Seq<char>>
    decreases all.len(),
{
    if all.len() == 0 {
        Seq::empty()
    } else if begins_a_part()(all.last()) {
        every_heading(all.drop_last()).push(trim(all.last()))
    } else {
        every_heading(all.drop_last())
    }
}

proof fn lemma_every_heading(all: Seq<Seq<char>>)
    ensures
        are_the_wanted(every_heading(all), all, begins_a_part(), without_blanks()),
    decreases all.len(),
{
    if all.len() == 0 {
        lemma_none_of_none(begins_a_part(), without_blanks());
        assert(all =~= Seq::empty());
    } else {
        let before = all.drop_last();
        lemma_every_heading(before);
        lemma_one_more(
            every_heading(before),
            before,
            begins_a_part(),
            without_blanks(),
            all.last(),
        );
        assert(before.push(all.last()) =~= all);
    }
}

proof fn lemma_headings_are_the_first(all: Seq<Seq<char>>, max: nat)
    requires
        max > 0,
    ensures
        headings(all, max) == if every_heading(all).len() <= max {
            every_heading(all)
        } else {
            every_heading(all).take(max as int)
        },
    decreases all.len(),
{
    reveal_strlit("#");
    if all.len() > 0 {
        lemma_headings_are_the_first(all.drop_last(), max);
        let t = trim(all.last());
        if t.len() > 0 {
            assert(t.take(1)[0] == t[0]);
            if t[0] == '#' {
                assert(t.take(1) =~= "#"@);
            }
        }
        let n = max as int;
        let before = every_heading(all.drop_last());
        let now = every_heading(all);
        if before.len() >= n {
            assert(now.take(n) =~= before.take(n));
            assert(before.len() == n ==> before.take(n) =~= before);
        }
    }
}

/// Any number of number signs.
pub open spec fn signs(n: nat) -> Seq<char> {
    Seq::new(n, |i: int| '#')
}

/// A heading gives as title what stands behind its number signs, without the blanks around it.
pub proof fn lemma_heading_gives_its_title(n: nat, title: Seq<char>)
    requires
        n > 0,
        trim(title).len() > 0,
        title[0] != '#',
        !is_ws(title.last()),
    ensures
        heading_title(signs(n) + title) == Some(trim(title)),
{
    reveal_strlit("#");
    let line = signs(n) + title;
    assert(line[0] == '#');
    assert(title.len() > 0) by {
        if title.len() == 0 {
            assert(trim(title) =~= title);
        }
    }
    assert(line.last() == title.last());
    crate::recall_laws::lemma_solid_is_trimmed(line);
    assert(line.take(1) =~= "#"@);
    assert(line.skip(1) =~= signs((n - 1) as nat) + title);
    lemma_signs_are_dropped((n - 1) as nat, title);
}

proof fn lemma_signs_are_dropped(n: nat, title: Seq<char>)
    requires
        title.len() > 0,
        title[0] != '#',
    ensures
        without_leading(signs(n) + title, '#') == title,
    decreases n,
{
    let s = signs(n) + title;
    if n > 0 {
        assert(s[0] == '#');
        assert(s.skip(1) =~= signs((n - 1) as nat) + title);
        lemma_signs_are_dropped((n - 1) as nat, title);
    } else {
        assert(s =~= title);
    }
}

/// The title of a text is that of the first line that gives one.
pub proof fn lemma_title_is_the_first(markdown: Seq<char>, i: int)
    requires
        0 <= i < lines(markdown).len(),
        heading_title(lines(markdown)[i]) is Some,
        forall|j: int| 0 <= j < i ==> heading_title(#[trigger] lines(markdown)[j]) is None,
    ensures
        title_of(markdown) == heading_title(lines(markdown)[i]),
{
    lemma_first_title(lines(markdown), 0, i);
}

proof fn lemma_first_title(all: Seq<Seq<char>>, k: int, i: int)
    requires
        0 <= k <= i < all.len(),
        heading_title(all[i]) is Some,
        forall|j: int| 0 <= j < i ==> heading_title(#[trigger] all[j]) is None,
    ensures
        first_title(all, k) == heading_title(all[i]),
    decreases i - k,
{
    if k < i {
        assert(heading_title(all[k]) is None);
        lemma_first_title(all, k + 1, i);
    }
}

/// A page that fits the limit is shown as it is; of a longer one a model is shown the beginning, and
/// told so.
pub proof fn lemma_page_is_shown_from_its_beginning(markdown: Seq<char>, max: nat)
    requires
        trim(markdown).len() > 0,
    ensures
        page_of(markdown, max) matches Ok(page) && {
            &&& page.truncated <==> max > 0 && markdown.len() > max
            &&& !page.truncated ==> page.markdown == markdown
            &&& page.truncated ==> exists|n: int|
                max / 2 <= 4 * n && n <= max && page.markdown == #[trigger] markdown.take(n)
                    + crate::web_research::extract::TRUNCATION_MARK@
        },
{
    if max > 0 && markdown.len() > max {
        let cut = crate::web_research::extract::cut_text(markdown, max);
        crate::web_research::extract::lemma_model_text_is_bounded(markdown, max);
        let n = cut.len() as int;
        assert(markdown.take(n) == cut);
        lemma_bytes_of_chars(cut);
        let head = markdown.take(max as int);
        assert(cut.len() <= max && (cut.len() == max || crate::text::utf8_len(cut) > max / 2)) by {
            crate::web_research::extract::lemma_rfind_bounds(head, "\n\n"@, head.len() as int);
        }
    }
}

proof fn lemma_bytes_of_chars(s: Seq<char>)
    ensures
        crate::text::utf8_len(s) <= 4 * s.len(),
    decreases s.len(),
{
    if s.len() > 0 {
        lemma_bytes_of_chars(s.drop_last());
    }
}

/// How a body is read depends on what its header begins with, whatever the case of its letters, and
/// not on what follows.
pub proof fn lemma_content_type_is_read_from_the_front(rest: Seq<char>)
    ensures
        content_type_of(None) == ContentType::Html,
        content_type_of(Some("text/html"@ + rest)) == ContentType::Html,
        content_type_of(Some("text/plain"@ + rest)) == ContentType::Plaintext,
        content_type_of(Some("TEXT/PLAIN"@ + rest)) == ContentType::Plaintext,
        content_type_of(Some("application/json"@ + rest)) == ContentType::Json,
{
    reveal_strlit("text/html");
    reveal_strlit("text/plain");
    reveal_strlit("TEXT/PLAIN");
    reveal_strlit("application/json");
    let low = |s: Seq<char>| crate::text::ascii_lower(s);
    let plain = "text/plain"@;
    let json = "application/json"@;
    assert(low(plain + rest).take(10) =~= plain);
    assert(low("TEXT/PLAIN"@ + rest).take(10) =~= plain);
    assert(low(json + rest).take(16) =~= json);
    assert(low(json + rest)[0] == 'a');
    assert(low(json + rest).take(10)[0] == 'a');
    let html = low("text/html"@ + rest);
    assert(html[5] == 'h');
    if html.len() >= 10 {
        assert(html.take(10)[5] == 'h');
    }
    assert(html[0] == 't');
    if html.len() >= 16 {
        assert(html.take(16)[0] == 't');
    }
}

// ---------------------------------------------------------------------------
// Results
// ---------------------------------------------------------------------------

/// Each result of a search is told, with its number, its title, its URL and its snippet.
pub proof fn lemma_every_result_is_told(
    provider: Seq<char>,
    query: Seq<char>,
    results: Seq<SearchResult>,
    i: int,
)
    requires
        0 <= i < results.len(),
    ensures
        stands_in(
            dec((i + 1) as nat) + ". "@ + results[i].0@ + "\n   "@ + results[i].1@ + "\n   "@
                + results[i].2@ + "\n\n"@,
            search_report(provider, query, results),
        ),
{
    lemma_result_is_written(results, i);
    let head = "Web search via "@ + provider + " for "@ + debug_quoted(query)
        + ". Snippets are leads — fetch a page before asserting facts.\n\n"@;
    lemma_stands_in_whole(
        result_entry(results[i], (i + 1) as nat),
        head,
        result_entries(results),
        Seq::empty(),
    );
    assert(head + result_entries(results) + Seq::empty() =~= search_report(
        provider,
        query,
        results,
    ));
}

proof fn lemma_result_is_written(results: Seq<SearchResult>, i: int)
    requires
        0 <= i < results.len(),
    ensures
        stands_in(result_entry(results[i], (i + 1) as nat), result_entries(results)),
    decreases results.len(),
{
    let before = result_entries(results.drop_last());
    let line = result_entry(results.last(), results.len());
    let entry = result_entry(results[i], (i + 1) as nat);
    if i < results.len() - 1 {
        lemma_result_is_written(results.drop_last(), i);
        assert(results.drop_last()[i] == results[i]);
        lemma_stands_in_whole(entry, Seq::empty(), before, line);
        assert(Seq::<char>::empty() + before + line =~= result_entries(results));
    } else {
        lemma_stands_in_itself(line);
        lemma_stands_in_whole(line, before, line, Seq::empty());
        assert(before + line + Seq::<char>::empty() =~= result_entries(results));
    }
}

// ---------------------------------------------------------------------------
// Sessions
// ---------------------------------------------------------------------------

/// How a session is told of: its name, what was asked, how many pages it has and why it stopped.
pub open spec fn written_session(s: SessionSummary) -> Seq<char> {
    "- `"@ + s.id@ + "` — "@ + s.query@ + " ("@ + dec(s.pages_fetched as nat) + " page(s), "@
        + s.stopped_reason@ + ")\n"@
}

/// Each session in a list is told of.
pub proof fn lemma_every_session_is_told(summaries: Seq<SessionSummary>, i: int)
    requires
        0 <= i < summaries.len(),
    ensures
        stands_in(written_session(summaries[i]), session_list(summaries)),
{
    lemma_session_is_written(summaries, i);
    let tail =
        "\nResume with research_web session_id=<id>. Explicitly set ingest_to_rag=true to index pages.\n"@;
    lemma_stands_in_whole(
        written_session(summaries[i]),
        "# Research sessions\n"@,
        summary_lines(summaries),
        tail,
    );
}

proof fn lemma_session_is_written(summaries: Seq<SessionSummary>, i: int)
    requires
        0 <= i < summaries.len(),
    ensures
        stands_in(written_session(summaries[i]), summary_lines(summaries)),
    decreases summaries.len(),
{
    let before = summary_lines(summaries.drop_last());
    let line = written_session(summaries.last());
    if i < summaries.len() - 1 {
        lemma_session_is_written(summaries.drop_last(), i);
        assert(summaries.drop_last()[i] == summaries[i]);
        lemma_stands_in_whole(written_session(summaries[i]), Seq::empty(), before, line);
        assert(Seq::<char>::empty() + before + line =~= summary_lines(summaries));
    } else {
        lemma_stands_in_itself(line);
        lemma_stands_in_whole(line, before, line, Seq::empty());
        assert(before + line + Seq::<char>::empty() =~= summary_lines(summaries));
    }
}

/// Sessions by age: those that were written longer ago than that, or the others.
pub open spec fn is_of_age(now_ms: u64, max_age: Millis, expired: bool) -> spec_fn(
    StoredEntry,
) -> bool {
    |e: StoredEntry| (e.1 + max_age < now_ms) == expired
}

pub open spec fn entry_itself() -> spec_fn(StoredEntry) -> StoredEntry {
    |e: StoredEntry| e
}

/// Sessions are told apart by their age: all that are too old are, and no other.
pub proof fn lemma_sessions_are_told_apart(
    entries: Seq<StoredEntry>,
    now_ms: u64,
    max_age: Millis,
    expired: bool,
)
    ensures
        are_the_wanted(
            aged(entries, now_ms, max_age, expired),
            entries,
            is_of_age(now_ms, max_age, expired),
            entry_itself(),
        ),
    decreases entries.len(),
{
    let wanted = is_of_age(now_ms, max_age, expired);
    if entries.len() == 0 {
        lemma_none_of_none(wanted, entry_itself());
        assert(entries =~= Seq::empty());
    } else {
        let before = entries.drop_last();
        lemma_sessions_are_told_apart(before, now_ms, max_age, expired);
        lemma_one_more(
            aged(before, now_ms, max_age, expired),
            before,
            wanted,
            entry_itself(),
            entries.last(),
        );
        assert(before.push(entries.last()) =~= entries);
    }
}

} // verus!
