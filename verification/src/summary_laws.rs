//! What holds of the summary when it is brought up to date with the journal.
use crate::project_memory::{
    flushed, heading_index, heading_index_from, heading_name, is_headed, journal_facts,
    lemma_heading_index_bounds, merged, parse_line, parse_lines, rendered_freeform,
    rendered_sections, spine_fields, synced_summary, with_line, SummaryParse, MANAGED_HEADING_COUNT,
};
use crate::text::{
    ends_with, find_char, is_ws, join, lemma_find_char_absent, lemma_find_char_bounds,
    lemma_find_char_in_front, lemma_trim_end_last, lemma_trim_end_prefix, lemma_trim_idempotent,
    lemma_trim_start_first, lemma_trim_without_last, lines, starts_with, trim, trim_end, trim_start,
    without_cr,
};
use vstd::prelude::*;

verus! {

/// Whether a line is one of the managed headings.
pub open spec fn is_managed_line(line: Seq<char>) -> bool {
    starts_with(line, "## "@) && heading_index(trim(line.skip("## "@.len() as int))) is Some
}

/// What stands outside the managed sections of a summary.
pub open spec fn rest_of(summary: Seq<char>) -> Seq<char> {
    trim(parse_lines(lines(summary)).freeform)
}

/// A section as it is written.
pub open spec fn section(i: int, body: Seq<char>) -> Seq<char> {
    "## "@ + heading_name(i) + "\n"@ + trim(body)
}

/// Every managed section is written that has something in it.
pub proof fn lemma_sections_are_written(managed: Seq<Option<Seq<char>>>, n: int, i: int)
    requires
        0 <= i < n,
        managed[i] matches Some(body) && trim(body).len() > 0,
    ensures
        exists|k: int|
            0 <= k && k + section(i, managed[i]->0).len() <= rendered_sections(managed, n).len()
                && #[trigger] rendered_sections(managed, n).subrange(
                k,
                k + section(i, managed[i]->0).len(),
            ) == section(i, managed[i]->0),
    decreases n,
{
    let written = section(i, managed[i]->0);
    let all = rendered_sections(managed, n);
    let before = rendered_sections(managed, n - 1);
    if i == n - 1 {
        let k = before.len() as int;
        assert(all.subrange(k, k + written.len()) =~= written);
    } else {
        lemma_sections_are_written(managed, n - 1, i);
        let k = choose|k: int|
            0 <= k && k + written.len() <= before.len() && #[trigger] before.subrange(
                k,
                k + written.len(),
            ) == written;
        assert(all.take(before.len() as int) =~= before);
        assert(all.subrange(k, k + written.len()) =~= before.subrange(k, k + written.len()));
    }
}

proof fn lemma_sections_begin(managed: Seq<Option<Seq<char>>>, n: int)
    ensures
        rendered_sections(managed, n).len() > 0 ==> {
            &&& rendered_sections(managed, n)[0] == '#'
            &&& rendered_sections(managed, n).last() == '\n'
        },
    decreases n,
{
    reveal_strlit("## ");
    reveal_strlit("\n\n");
    if n > 0 {
        lemma_sections_begin(managed, n - 1);
    }
}

/// How a summary is written: the sections, and the rest under a heading.
proof fn lemma_written_summary(sections: Seq<char>, rest: Seq<char>)
    requires
        rest.len() > 0,
        trim(rest) == rest,
        sections.len() > 0 ==> sections[0] == '#',
    ensures
        trim(sections + rendered_freeform(rest)) == sections + if is_headed(rest) {
            rest
        } else {
            "## Context\n"@ + rest
        },
{
    reveal_strlit("\n");
    reveal_strlit("## Context\n");
    let whole = sections + rendered_freeform(rest);
    let text = sections + if is_headed(rest) {
        rest
    } else {
        "## Context\n"@ + rest
    };
    lemma_trim_start_first(rest);
    lemma_trim_end_last(trim_start(rest));
    lemma_trim_end_prefix(trim_start(rest));
    assert(trim_start(rest) =~= rest);
    assert(!is_ws(rest[0]));
    assert(!is_ws(rest.last()));
    assert(whole =~= text + seq!['\n']);
    assert(!is_ws(whole[0]));
    assert(trim_start(whole) == whole);
    assert(whole.drop_last() =~= text);
    assert(text.last() == rest.last());
    assert(trim_end(whole) == trim_end(text));
    assert(trim_end(text) == text);
}

/// Bringing a summary up to date keeps, at its end, what stands outside the managed sections.
pub proof fn lemma_sync_keeps_the_rest(journal: Seq<char>, existing: Seq<char>)
    requires
        synced_summary(journal, existing) is Some,
    ensures
        ends_with(synced_summary(journal, existing)->0, rest_of(existing)),
{
    let rest = rest_of(existing);
    let text = synced_summary(journal, existing)->0;
    if rest.len() == 0 {
        assert(text.skip(text.len() as int) =~= rest);
    } else {
        let sections = lemma_synced_summary(journal, existing);
        assert(text.skip(text.len() - rest.len()) =~= rest);
    }
}

/// Gives the sections with which a summary begins that was brought up to date.
proof fn lemma_synced_summary(journal: Seq<char>, existing: Seq<char>) -> (sections: Seq<char>)
    requires
        synced_summary(journal, existing) is Some,
        rest_of(existing).len() > 0,
    ensures
        sections.len() > 0 ==> sections.last() == '\n',
        synced_summary(journal, existing) == Some(
            sections + if is_headed(rest_of(existing)) {
                rest_of(existing)
            } else {
                "## Context\n"@ + rest_of(existing)
            },
        ),
{
    let parsed = parse_lines(lines(existing));
    let managed = merged(flushed(parsed), spine_fields(journal_facts(journal)));
    let sections = rendered_sections(managed, MANAGED_HEADING_COUNT as int);
    lemma_sections_begin(managed, MANAGED_HEADING_COUNT as int);
    lemma_trim_idempotent(parsed.freeform);
    lemma_written_summary(sections, rest_of(existing));
    sections
}

/// A line feed parts the lines before it from those behind it.
proof fn lemma_lines_part(a: Seq<char>, b: Seq<char>)
    ensures
        lines(a + seq!['\n'] + b) == lines(a + seq!['\n']) + lines(b),
    decreases a.len(),
{
    let feed = seq!['\n'];
    let s = a + feed + b;
    let t = a + feed;
    assert(s =~= a + (feed + b));
    lemma_find_char_in_front(a, feed + b, '\n', 0);
    lemma_find_char_in_front(a, feed, '\n', 0);
    lemma_find_char_bounds(a, '\n', 0);
    assert(s[a.len() as int] == '\n');
    assert(t[a.len() as int] == '\n');
    match find_char(a, '\n') {
        Some(k) => {
            let rest = a.skip(k + 1);
            lemma_lines_part(rest, b);
            assert(s.take(k) =~= a.take(k));
            assert(t.take(k) =~= a.take(k));
            assert(s.skip(k + 1) =~= rest + feed + b);
            assert(t.skip(k + 1) =~= rest + feed);
            let x = seq![without_cr(a.take(k))];
            assert(lines(s) == x + lines(rest + feed + b));
            assert(lines(t) == x + lines(rest + feed));
            assert(lines(s) =~= lines(t) + lines(b));
        },
        None => {
            let k = a.len() as int;
            assert(find_char(s, '\n') == Some(k));
            assert(find_char(t, '\n') == Some(k));
            assert(s.take(k) =~= a);
            assert(t.take(k) =~= a);
            assert(s.skip(k + 1) =~= b);
            assert(t.skip(k + 1) =~= Seq::<char>::empty());
            assert(lines(Seq::<char>::empty()) =~= Seq::<Seq<char>>::empty());
            assert(lines(t) =~= seq![without_cr(a)]);
            assert(lines(s) =~= lines(t) + lines(b));
        },
    }
}

proof fn lemma_join_front(x: Seq<char>, v: Seq<Seq<char>>, sep: Seq<char>)
    requires
        v.len() > 0,
    ensures
        join(seq![x] + v, sep) == x + sep + join(v, sep),
    decreases v.len(),
{
    let all = seq![x] + v;
    assert(all.drop_last() =~= seq![x] + v.drop_last());
    assert(all.last() == v.last());
    if v.len() == 1 {
        assert(v.drop_last() =~= Seq::<Seq<char>>::empty());
        assert(all.drop_last() =~= seq![x]);
        assert(join(all.drop_last(), sep) == x);
        assert(v.last() == v[0]);
    } else {
        lemma_join_front(x, v.drop_last(), sep);
        assert(join(all, sep) =~= x + sep + join(v, sep));
    }
}

/// From a heading that is not managed on, lines are read as they stand.
proof fn lemma_rest_is_read(before: Seq<Seq<char>>, rest: Seq<Seq<char>>)
    requires
        rest.len() > 0,
        starts_with(rest[0], "## "@),
        forall|i: int| 0 <= i < rest.len() ==> !is_managed_line(#[trigger] rest[i]),
    ensures
        join(rest, "\n"@).len() > 0,
        parse_lines(before + rest).current is None,
        parse_lines(before + rest).managed == flushed(parse_lines(before)),
        parse_lines(before + rest).freeform == with_line(
            parse_lines(before).freeform,
            join(rest, "\n"@),
        ),
    decreases rest.len(),
{
    reveal_strlit("## ");
    reveal_strlit("\n");
    let all = before + rest;
    let line = rest.last();
    assert(all.drop_last() =~= before + rest.drop_last());
    assert(all.last() == line);
    assert(!is_managed_line(rest[rest.len() - 1]));
    if rest.len() == 1 {
        assert(before + rest.drop_last() =~= before);
        assert(line == rest[0]);
    } else {
        let front = rest.drop_last();
        assert forall|i: int| 0 <= i < front.len() implies !is_managed_line(
            #[trigger] front[i],
        ) by {
            assert(!is_managed_line(rest[i]));
        }
        lemma_rest_is_read(before, front);
        let head = parse_lines(before).freeform;
        let p = parse_lines(before + front);
        assert(parse_lines(all) == parse_line(p, line));
        assert(parse_lines(all).freeform == with_line(p.freeform, line));
        assert(with_line(p.freeform, line) =~= with_line(head, join(rest, "\n"@)));
    }
}

/// What stands outside the managed sections is not taken for a part of them when the summary is
/// read again. Its lines are taken to make it up again, and none of them to be a managed heading.
pub proof fn lemma_rest_is_read_back(journal: Seq<char>, existing: Seq<char>)
    requires
        synced_summary(journal, existing) is Some,
        rest_of(existing).len() > 0,
        join(lines(rest_of(existing)), "\n"@) == rest_of(existing),
        forall|i: int|
            0 <= i < lines(rest_of(existing)).len() ==> !is_managed_line(
                #[trigger] lines(rest_of(existing))[i],
            ),
    ensures
        ends_with(
            parse_lines(lines(synced_summary(journal, existing)->0)).freeform,
            rest_of(existing),
        ),
{
    let rest = rest_of(existing);
    let sections = lemma_synced_summary(journal, existing);
    lemma_tail_is_read(sections, rest);
    let read = parse_lines(lines(synced_summary(journal, existing)->0)).freeform;
    assert(read.skip(read.len() - rest.len()) =~= rest);
}

proof fn lemma_one_line(line: Seq<char>)
    requires
        !line.contains('\n'),
        line.len() > 0,
        line.last() != '\r',
    ensures
        lines(line + seq!['\n']) == seq![line],
{
    let s = line + seq!['\n'];
    lemma_find_char_in_front(line, seq!['\n'], '\n', 0);
    lemma_find_char_absent(line, '\n', 0);
    assert(s[line.len() as int] == '\n');
    assert(s.take(line.len() as int) =~= line);
    assert(s.skip(line.len() as int + 1) =~= Seq::<char>::empty());
    assert(lines(Seq::<char>::empty()) =~= Seq::<Seq<char>>::empty());
    assert(lines(s) =~= seq![line]);
}

proof fn lemma_context_is_not_managed(title: Seq<char>)
    requires
        title == "## Context\n"@.drop_last(),
    ensures
        !is_managed_line(title),
{
    reveal_strlit("## Context\n");
    reveal_strlit("## ");
    reveal_strlit("Goal");
    reveal_strlit("State");
    reveal_strlit("Decisions");
    reveal_strlit("Next");
    reveal_strlit("Pitfalls");
    let name = title.skip("## "@.len() as int);
    assert(name =~= seq!['C', 'o', 'n', 't', 'e', 'x', 't']);
    assert(trim_start(name) == name);
    assert(trim_end(name) == name);
    assert forall|i: int| 0 <= i < MANAGED_HEADING_COUNT implies #[trigger] heading_name(i) != name by {
        assert(heading_name(i)[0] != name[0]);
    }
    reveal_with_fuel(heading_index_from, 6);
}

// ---------------------------------------------------------------------------
// A second time
// ---------------------------------------------------------------------------

/// Whether what stands under a managed heading is read again as it is written: no line of it is a
/// heading, and its lines make it up again.
pub open spec fn is_plain_body(body: Seq<char>) -> bool {
    &&& join(lines(trim(body)), "\n"@) == trim(body)
    &&& forall|i: int|
        0 <= i < lines(trim(body)).len() ==> !starts_with(
            #[trigger] lines(trim(body))[i],
            "## "@,
        )
}

/// Whether something is written under the `i`-th managed heading.
pub open spec fn is_filled(managed: Seq<Option<Seq<char>>>, i: int) -> bool {
    managed[i] matches Some(body) && trim(body).len() > 0
}

/// What is written under the first `n` managed headings.
pub open spec fn written_fields(managed: Seq<Option<Seq<char>>>, n: int) -> Seq<Option<Seq<char>>> {
    Seq::new(
        MANAGED_HEADING_COUNT as nat,
        |i: int|
            if i < n && is_filled(managed, i) {
                Some(trim(managed[i]->0))
            } else {
                None
            },
    )
}

proof fn lemma_heading_names(i: int)
    requires
        0 <= i < MANAGED_HEADING_COUNT,
    ensures
        heading_index(trim(heading_name(i))) == Some(i),
        !heading_name(i).contains('\n'),
        heading_name(i).len() > 0,
        heading_name(i).last() != '\r',
{
    reveal_strlit("Goal");
    reveal_strlit("State");
    reveal_strlit("Decisions");
    reveal_strlit("Next");
    reveal_strlit("Pitfalls");
    let name = heading_name(i);
    assert(trim_start(name) == name);
    assert(trim_end(name) == name);
    reveal_with_fuel(heading_index_from, 6);
    assert forall|j: int| 0 <= j < i implies #[trigger] heading_name(j) != name by {
        assert(heading_name(j)[0] != name[0]);
    }
    assert(heading_name(0) != name || i == 0);
    assert(heading_name(1) != name || i <= 1);
    assert(heading_name(2) != name || i <= 2);
    assert(heading_name(3) != name || i <= 3);
}

/// Lines under a managed heading are read as they stand.
proof fn lemma_body_is_read(before: Seq<Seq<char>>, body: Seq<Seq<char>>)
    requires
        parse_lines(before).current is Some,
        parse_lines(before).body.len() == 0,
        body.len() > 0,
        body[0].len() > 0,
        forall|i: int| 0 <= i < body.len() ==> !starts_with(#[trigger] body[i], "## "@),
    ensures
        join(body, "\n"@).len() > 0,
        parse_lines(before + body) == (SummaryParse {
            body: join(body, "\n"@),
            ..parse_lines(before)
        }),
    decreases body.len(),
{
    let all = before + body;
    assert(all.drop_last() =~= before + body.drop_last());
    assert(all.last() == body.last());
    assert(!starts_with(body[body.len() - 1], "## "@));
    if body.len() == 1 {
        assert(before + body.drop_last() =~= before);
        assert(body.last() == body[0]);
    } else {
        let front = body.drop_last();
        assert forall|i: int| 0 <= i < front.len() implies !starts_with(
            #[trigger] front[i],
            "## "@,
        ) by {
            assert(!starts_with(body[i], "## "@));
        }
        lemma_body_is_read(before, front);
    }
}

proof fn lemma_last_line(s: Seq<char>)
    requires
        s.len() > 0,
        !is_ws(s.last()),
    ensures
        lines(s + seq!['\n']) == lines(s),
    decreases s.len(),
{
    let feed = seq!['\n'];
    let t = s + feed;
    lemma_find_char_in_front(s, feed, '\n', 0);
    lemma_find_char_bounds(s, '\n', 0);
    assert(t[s.len() as int] == '\n');
    match find_char(s, '\n') {
        Some(k) => {
            let rest = s.skip(k + 1);
            assert(rest.len() > 0 && rest.last() == s.last());
            lemma_last_line(rest);
            assert(t.take(k) =~= s.take(k));
            assert(t.skip(k + 1) =~= rest + feed);
        },
        None => {
            let k = s.len() as int;
            assert(find_char(t, '\n') == Some(k));
            assert(t.take(k) =~= s);
            assert(t.skip(k + 1) =~= Seq::<char>::empty());
            assert(lines(Seq::<char>::empty()) =~= Seq::<Seq<char>>::empty());
            assert(lines(t) =~= seq![s]);
            assert(lines(s) =~= seq![s]);
        },
    }
}

proof fn lemma_trimmed_ends(s: Seq<char>)
    requires
        trim(s).len() > 0,
    ensures
        !is_ws(trim(s)[0]),
        !is_ws(trim(s).last()),
        trim(trim(s)) == trim(s),
{
    lemma_trim_idempotent(s);
    lemma_trim_start_first(s);
    lemma_trim_end_last(trim_start(s));
    lemma_trim_end_prefix(trim_start(s));
}

/// The first line of a text that begins with no whitespace is not empty.
proof fn lemma_first_line(s: Seq<char>)
    requires
        s.len() > 0,
        !is_ws(s[0]),
    ensures
        lines(s).len() > 0,
        lines(s)[0].len() > 0,
{
    lemma_find_char_bounds(s, '\n', 0);
    if let Some(k) = find_char(s, '\n') {
        assert(s[k] == '\n');
        let line = s.take(k);
        assert(line.len() > 0 && line[0] == s[0]);
    }
}

/// One more section is read behind those before it; `end` is what follows its last line.
#[verifier::rlimit(40)]
proof fn lemma_section_is_read(
    managed: Seq<Option<Seq<char>>>,
    n: int,
    before: Seq<char>,
    end: Seq<char>,
)
    requires
        0 < n <= MANAGED_HEADING_COUNT,
        is_filled(managed, n - 1),
        is_plain_body(managed[n - 1]->0),
        before.len() > 0 ==> before.last() == '\n',
        end == Seq::<char>::empty() || end == seq!['\n', '\n'],
        parse_lines(lines(before)).freeform.len() == 0,
        flushed(parse_lines(lines(before))) == written_fields(managed, n - 1),
    ensures
        ({
            let p = parse_lines(lines(before + section(n - 1, managed[n - 1]->0) + end));
            p.freeform.len() == 0 && flushed(p) == written_fields(managed, n)
        }),
{
    reveal_strlit("## ");
    reveal_strlit("\n");
    let k = n - 1;
    let body = trim(managed[k]->0);
    let heading = "## "@ + heading_name(k);
    let feed = seq!['\n'];
    let front = lines(before);
    let text = before + section(k, managed[k]->0) + end;
    lemma_trimmed_ends(managed[k]->0);
    lemma_first_line(body);
    lemma_heading_names(k);
    let rest = heading + feed + (body + end);
    assert(text =~= before + rest);
    if before.len() > 0 {
        let a = before.drop_last();
        assert(before =~= a + feed);
        assert(text =~= a + feed + rest);
        lemma_lines_part(a, rest);
        assert(lines(text) == front + lines(rest));
    } else {
        assert(text =~= rest);
        assert(lines(before) =~= Seq::<Seq<char>>::empty());
        assert(lines(text) =~= front + lines(rest));
    }
    lemma_lines_part(heading, body + end);
    if heading.contains('\n') {
        let j = choose|j: int| 0 <= j < heading.len() && heading[j] == '\n';
        assert(j >= 3 && heading_name(k)[j - 3] == '\n');
    }
    lemma_one_line(heading);
    let ls = lines(body);
    let headed = front.push(heading);
    assert(headed.drop_last() =~= front);
    assert(headed.last() == heading);
    assert(heading.take("## "@.len() as int) =~= "## "@);
    assert(heading.skip("## "@.len() as int) =~= heading_name(k));
    let h = parse_lines(headed);
    assert(h == parse_line(parse_lines(front), heading));
    lemma_body_is_read(headed, ls);
    let b = parse_lines(headed + ls);
    let fields = written_fields(managed, n);
    assert(h.managed.update(k, Some(body)) =~= fields);
    if end.len() == 0 {
        assert(body + end =~= body);
        assert(lines(text) =~= headed + ls);
        assert(flushed(b) == fields);
    } else {
        let nothing = Seq::<char>::empty();
        assert(body + end =~= body + feed + feed);
        lemma_lines_part(body, feed);
        lemma_last_line(body);
        lemma_find_char_in_front(nothing, feed, '\n', 0);
        assert(feed.take(0) =~= nothing);
        assert(feed.skip(1) =~= nothing);
        assert(find_char(feed, '\n') == Some(0int));
        assert(lines(nothing) =~= Seq::<Seq<char>>::empty());
        assert(lines(feed) =~= seq![nothing]);
        let all = (headed + ls).push(nothing);
        assert(lines(text) =~= all);
        assert(all.drop_last() =~= headed + ls);
        assert(all.last() == nothing);
        let p = parse_lines(all);
        assert(p == parse_line(b, nothing));
        assert(p.body =~= body + feed);
        assert(p.body.drop_last() =~= body);
        lemma_trim_without_last(p.body);
        assert(flushed(p) == fields);
    }
}

/// The sections are read again as they are written, also where what follows the last one is left
/// out.
#[verifier::rlimit(40)]
proof fn lemma_sections_are_read(managed: Seq<Option<Seq<char>>>, n: int)
    requires
        0 <= n <= MANAGED_HEADING_COUNT,
        forall|i: int| 0 <= i < n && is_filled(managed, i) ==> is_plain_body(
            (#[trigger] managed[i])->0,
        ),
    ensures
        ({
            let all = rendered_sections(managed, n);
            let p = parse_lines(lines(all));
            let q = parse_lines(lines(all.take(all.len() - 2)));
            &&& p.freeform.len() == 0
            &&& flushed(p) == written_fields(managed, n)
            &&& all.len() > 0 ==> {
                &&& all.len() > 2
                &&& all =~= all.take(all.len() - 2) + seq!['\n', '\n']
                &&& !is_ws(all[all.len() - 3])
                &&& q.freeform.len() == 0
                &&& flushed(q) == written_fields(managed, n)
            }
        }),
    decreases n,
{
    reveal_strlit("\n\n");
    reveal_strlit("\n");
    let all = rendered_sections(managed, n);
    if n == 0 {
        assert(lines(all) =~= Seq::<Seq<char>>::empty());
        assert(flushed(parse_lines(lines(all))) =~= written_fields(managed, 0));
    } else {
        let before = rendered_sections(managed, n - 1);
        lemma_sections_are_read(managed, n - 1);
        lemma_sections_begin(managed, n - 1);
        if is_filled(managed, n - 1) {
            let written = section(n - 1, managed[n - 1]->0);
            assert(is_plain_body(managed[n - 1]->0));
            assert(all =~= before + written + seq!['\n', '\n']);
            assert(all.take(all.len() - 2) =~= before + written + Seq::<char>::empty());
            lemma_trimmed_ends(managed[n - 1]->0);
            assert(all[all.len() - 3] == trim(managed[n - 1]->0).last());
            lemma_section_is_read(managed, n, before, seq!['\n', '\n']);
            lemma_section_is_read(managed, n, before, Seq::<char>::empty());
        } else {
            assert(all == before);
            assert(written_fields(managed, n) =~= written_fields(managed, n - 1));
        }
    }
}

/// Fields that were read again are written the same way.
proof fn lemma_same_sections(
    managed: Seq<Option<Seq<char>>>,
    again: Seq<Option<Seq<char>>>,
    n: int,
)
    requires
        0 <= n <= MANAGED_HEADING_COUNT,
        forall|i: int|
            0 <= i < n ==> #[trigger] is_filled(again, i) == is_filled(managed, i) && (is_filled(
                managed,
                i,
            ) ==> trim(again[i]->0) == trim(managed[i]->0)),
    ensures
        rendered_sections(again, n) == rendered_sections(managed, n),
    decreases n,
{
    if n > 0 {
        lemma_same_sections(managed, again, n - 1);
        assert(is_filled(again, n - 1) == is_filled(managed, n - 1));
    }
}

/// A summary that was brought up to date stays as it is while the journal does. Nothing that the
/// journal or the summary says is taken to hold a line that is itself a heading.
pub proof fn lemma_sync_is_stable(journal: Seq<char>, existing: Seq<char>)
    requires
        synced_summary(journal, existing) is Some,
        forall|i: int|
            0 <= i < MANAGED_HEADING_COUNT && is_filled(
                merged(
                    flushed(parse_lines(lines(existing))),
                    spine_fields(journal_facts(journal)),
                ),
                i,
            ) ==> is_plain_body(
                (#[trigger] merged(
                    flushed(parse_lines(lines(existing))),
                    spine_fields(journal_facts(journal)),
                )[i])->0,
            ),
        join(lines(rest_of(existing)), "\n"@) == rest_of(existing),
        forall|i: int|
            0 <= i < lines(rest_of(existing)).len() ==> !is_managed_line(
                #[trigger] lines(rest_of(existing))[i],
            ),
    ensures
        synced_summary(journal, synced_summary(journal, existing)->0) is None,
{
    let count = MANAGED_HEADING_COUNT as int;
    let derived = spine_fields(journal_facts(journal));
    let managed = merged(flushed(parse_lines(lines(existing))), derived);
    let rest = rest_of(existing);
    let text = synced_summary(journal, existing)->0;
    lemma_parse_has_all_fields(lines(existing));
    lemma_trim_idempotent(parse_lines(lines(existing)).freeform);
    lemma_written_is_read(managed, rest);
    lemma_trim_idempotent(rendered_sections(managed, count) + rendered_freeform(rest));
    let again = merged(flushed(parse_lines(lines(text))), derived);
    assert forall|i: int| 0 <= i < count implies #[trigger] is_filled(again, i) == is_filled(
        managed,
        i,
    ) && (is_filled(managed, i) ==> trim(again[i]->0) == trim(managed[i]->0)) by {
        if is_filled(managed, i) {
            lemma_trim_idempotent(managed[i]->0);
        }
    }
    lemma_same_sections(managed, again, count);
}

/// A summary is read as it was written, and what is read is written the same way.
proof fn lemma_written_is_read(managed: Seq<Option<Seq<char>>>, rest: Seq<char>)
    requires
        trim(rest) == rest,
        forall|i: int|
            0 <= i < MANAGED_HEADING_COUNT && is_filled(managed, i) ==> is_plain_body(
                (#[trigger] managed[i])->0,
            ),
        join(lines(rest), "\n"@) == rest,
        forall|i: int| 0 <= i < lines(rest).len() ==> !is_managed_line(#[trigger] lines(rest)[i]),
    ensures
        ({
            let sections = rendered_sections(managed, MANAGED_HEADING_COUNT as int);
            let text = trim(sections + rendered_freeform(rest));
            let read = parse_lines(lines(text));
            &&& flushed(read) == written_fields(managed, MANAGED_HEADING_COUNT as int)
            &&& trim(sections + rendered_freeform(trim(read.freeform))) == text
        }),
{
    let count = MANAGED_HEADING_COUNT as int;
    let sections = rendered_sections(managed, count);
    let text = trim(sections + rendered_freeform(rest));
    let read = parse_lines(lines(text));
    lemma_sections_are_read(managed, count);
    lemma_sections_begin(managed, count);
    if rest.len() == 0 {
        let nothing = Seq::<char>::empty();
        assert(sections + rendered_freeform(rest) =~= sections);
        if sections.len() > 0 {
            let kept = sections.take(sections.len() - 2);
            let shorter = sections.drop_last();
            assert(trim_start(sections) == sections);
            assert(shorter.drop_last() =~= kept);
            assert(sections.last() == '\n' && shorter.last() == '\n');
            assert(kept.last() == sections[sections.len() - 3]);
            assert(trim_end(kept) == kept);
            assert(trim_end(shorter) == kept);
            assert(trim_end(sections) == kept);
        } else {
            assert(text =~= sections);
        }
        assert(read.freeform =~= nothing);
        assert(trim(nothing) =~= nothing);
        assert(sections + rendered_freeform(nothing) =~= sections);
    } else {
        lemma_written_summary(sections, rest);
        lemma_tail_is_read(sections, rest);
        lemma_tail_is_headed(rest);
        lemma_written_summary(sections, read.freeform);
    }
}

pub proof fn lemma_parse_has_all_fields(ls: Seq<Seq<char>>)
    ensures
        parse_lines(ls).managed.len() == MANAGED_HEADING_COUNT,
        parse_lines(ls).current matches Some(k) ==> 0 <= k < MANAGED_HEADING_COUNT,
        flushed(parse_lines(ls)).len() == MANAGED_HEADING_COUNT,
    decreases ls.len(),
{
    if ls.len() > 0 {
        lemma_parse_has_all_fields(ls.drop_last());
        lemma_heading_index_bounds(trim(ls.last().skip("## "@.len() as int)), 0);
    }
}

/// What stands outside the sections is read again with its heading.
proof fn lemma_tail_is_read(sections: Seq<char>, rest: Seq<char>)
    requires
        rest.len() > 0,
        sections.len() > 0 ==> sections.last() == '\n',
        join(lines(rest), "\n"@) == rest,
        forall|i: int| 0 <= i < lines(rest).len() ==> !is_managed_line(#[trigger] lines(rest)[i]),
    ensures
        ({
            let tail = if is_headed(rest) {
                rest
            } else {
                "## Context\n"@ + rest
            };
            let p = parse_lines(lines(sections + tail));
            &&& p.freeform == with_line(parse_lines(lines(sections)).freeform, tail)
            &&& flushed(p) == flushed(parse_lines(lines(sections)))
        }),
{
    reveal_strlit("\n");
    reveal_strlit("## ");
    reveal_strlit("## Context\n");
    let title = "## Context\n"@.drop_last();
    let tail = if is_headed(rest) {
        rest
    } else {
        "## Context\n"@ + rest
    };
    let text = sections + tail;
    let before = lines(sections);
    if sections.len() == 0 {
        assert(text =~= tail);
        assert(before =~= Seq::<Seq<char>>::empty());
        assert(lines(text) =~= before + lines(tail));
    } else {
        let a = sections.drop_last();
        assert(sections =~= a + seq!['\n']);
        assert(text =~= a + seq!['\n'] + tail);
        lemma_lines_part(a, tail);
    }
    if is_headed(rest) {
        lemma_rest_is_read(before, lines(rest));
    } else {
        assert(tail =~= title + seq!['\n'] + rest);
        lemma_lines_part(title, rest);
        lemma_one_line(title);
        let all = seq![title] + lines(rest);
        assert(lines(tail) =~= all);
        lemma_context_is_not_managed(title);
        assert forall|i: int| 0 <= i < all.len() implies !is_managed_line(#[trigger] all[i]) by {
            if i > 0 {
                assert(!is_managed_line(lines(rest)[i - 1]));
            }
        }
        assert(title.take("## "@.len() as int) =~= "## "@);
        lemma_rest_is_read(before, all);
        assert(lines(rest).len() > 0);
        lemma_join_front(title, lines(rest), "\n"@);
        assert(join(all, "\n"@) =~= tail);
    }
}

/// With its heading it begins with one that is not managed.
proof fn lemma_tail_is_headed(rest: Seq<char>)
    requires
        rest.len() > 0,
        trim(rest) == rest,
    ensures
        ({
            let tail = if is_headed(rest) {
                rest
            } else {
                "## Context\n"@ + rest
            };
            is_headed(tail) && trim(tail) == tail
        }),
{
    reveal_strlit("## ");
    reveal_strlit("## Context\n");
    if !is_headed(rest) {
        let title = "## Context\n"@.drop_last();
        let tail = "## Context\n"@ + rest;
        lemma_trimmed_ends(rest);
        assert(trim_start(tail) == tail);
        assert(tail.last() == rest.last());
        assert(trim_end(tail) == tail);
        assert(tail =~= title + seq!['\n'] + rest);
        lemma_lines_part(title, rest);
        lemma_one_line(title);
        lemma_context_is_not_managed(title);
        assert(lines(tail)[0] == title);
        assert(title.take("## "@.len() as int) =~= "## "@);
    }
}

} // verus!
