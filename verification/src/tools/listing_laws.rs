//! What tools list, and what they are allowed.
use crate::project_memory::WorktreeMemory;
use crate::selection::{are_the_wanted, lemma_none_of_none, lemma_one_more};
use crate::text::{ascii_lower, contains, dec, join, trim, views};
use crate::tool_call_smoke::{failures, offered, smoke_tools, ToolCallSmokeCaseResult};
use crate::tool_permissions::FullAccessSettings;
use crate::tools::computer_use::{holding, primary_from, MonitorInfo};
use crate::tools::full_access::{gate, path_verdict};
use crate::tools::memory::{journal_section, journal_sections};
use crate::tools::process_control::{row_texts, ProcessRow};
use crate::tools::research_web::{page_documents, usable_domains};
use crate::web_research::session::ResearchPageBody;
use vstd::prelude::*;

verus! {

/// Processes whose names hold a text, whatever the case of their letters.
pub open spec fn is_asked_for(filter: Option<Seq<char>>) -> spec_fn(ProcessRow) -> bool {
    |p: ProcessRow| filter is None || contains(ascii_lower(p.name@), filter->0)
}

/// The line of a process: its number, its name, how much memory it takes, and its command.
pub open spec fn process_line() -> spec_fn(ProcessRow) -> Seq<char> {
    |p: ProcessRow|
        dec(p.pid as nat) + "\t"@ + p.name@ + "\t"@ + dec(p.memory as nat) + " bytes\t"@ + join(
            views(p.command@),
            " "@,
        )
}

/// Every process that is asked for has its line, and no other has one.
pub proof fn lemma_every_process_is_listed(rows: Seq<ProcessRow>, filter: Option<Seq<char>>)
    ensures
        are_the_wanted(row_texts(rows, filter), rows, is_asked_for(filter), process_line()),
    decreases rows.len(),
{
    let wanted = is_asked_for(filter);
    let of = process_line();
    if rows.len() == 0 {
        lemma_none_of_none(wanted, of);
        assert(rows =~= Seq::empty());
    } else {
        let before = rows.drop_last();
        lemma_every_process_is_listed(before, filter);
        lemma_one_more(row_texts(before, filter), before, wanted, of, rows.last());
        assert(before.push(rows.last()) =~= rows);
    }
}

/// The numbers of the monitors.
pub open spec fn monitor_numbers(n: nat) -> Seq<int> {
    Seq::new(n, |i: int| i)
}

pub open spec fn is_named_like(monitors: Seq<MonitorInfo>, needle: Seq<char>) -> spec_fn(
    int,
) -> bool {
    |i: int| monitors[i].name is Some && contains(ascii_lower(monitors[i].name->0@), needle)
}

pub open spec fn number_itself() -> spec_fn(int) -> int {
    |i: int| i
}

/// Every monitor whose name holds the text is found, and no other.
pub proof fn lemma_every_monitor_is_found(monitors: Seq<MonitorInfo>, needle: Seq<char>)
    ensures
        are_the_wanted(
            holding(monitors, needle),
            monitor_numbers(monitors.len()),
            is_named_like(monitors, needle),
            number_itself(),
        ),
{
    lemma_monitors_until(monitors, needle, monitors.len() as int);
    assert(monitors.take(monitors.len() as int) =~= monitors);
}

proof fn lemma_monitors_until(monitors: Seq<MonitorInfo>, needle: Seq<char>, n: int)
    requires
        0 <= n <= monitors.len(),
    ensures
        are_the_wanted(
            holding(monitors.take(n), needle),
            monitor_numbers(n as nat),
            is_named_like(monitors, needle),
            number_itself(),
        ),
    decreases n,
{
    let wanted = is_named_like(monitors, needle);
    if n == 0 {
        lemma_none_of_none(wanted, number_itself());
        assert(monitor_numbers(0) =~= Seq::empty());
        assert(holding(monitors.take(0), needle) =~= Seq::empty());
    } else {
        lemma_monitors_until(monitors, needle, n - 1);
        assert(monitors.take(n).drop_last() =~= monitors.take(n - 1));
        lemma_one_more(
            holding(monitors.take(n - 1), needle),
            monitor_numbers((n - 1) as nat),
            wanted,
            number_itself(),
            n - 1,
        );
        assert(monitor_numbers((n - 1) as nat).push(n - 1) =~= monitor_numbers(n as nat));
    }
}

/// The primary monitor is the first that says so.
pub proof fn lemma_first_primary_monitor(monitors: Seq<MonitorInfo>, k: int, i: int)
    requires
        0 <= k <= i < monitors.len(),
        monitors[i].is_primary,
        forall|j: int| 0 <= j < i ==> !(#[trigger] monitors[j]).is_primary,
    ensures
        primary_from(monitors, k) == Some(i),
    decreases i - k,
{
    if k < i {
        assert(!monitors[k].is_primary);
        lemma_first_primary_monitor(monitors, k + 1, i);
    }
}

/// Worktrees whose journals hold anything.
pub open spec fn has_a_journal() -> spec_fn(WorktreeMemory) -> bool {
    |m: WorktreeMemory| trim(m.journal_text()).len() > 0
}

pub open spec fn its_section() -> spec_fn(WorktreeMemory) -> Seq<char> {
    |m: WorktreeMemory| journal_section(m.root@, m.journal_text())
}

/// Every journal that holds anything is read out, in its order.
pub proof fn lemma_every_journal_is_read(memories: Seq<WorktreeMemory>)
    ensures
        are_the_wanted(journal_sections(memories), memories, has_a_journal(), its_section()),
    decreases memories.len(),
{
    let wanted = has_a_journal();
    let of = its_section();
    if memories.len() == 0 {
        lemma_none_of_none(wanted, of);
        assert(memories =~= Seq::empty());
    } else {
        let before = memories.drop_last();
        lemma_every_journal_is_read(before);
        lemma_one_more(journal_sections(before), before, wanted, of, memories.last());
        assert(before.push(memories.last()) =~= memories);
    }
}

/// Domains that are names: with a dot, without a colon, and not four numbers.
pub open spec fn is_a_name() -> spec_fn(Seq<char>) -> bool {
    |d: Seq<char>|
        d.contains('.') && !d.contains(':') && !crate::tools::research_web::is_ipv4_text(d)
}

pub open spec fn domain_itself() -> spec_fn(Seq<char>) -> Seq<char> {
    |d: Seq<char>| d
}

/// Every domain that is a name is used, in its order, and no other.
pub proof fn lemma_every_named_domain_is_used(domains: Seq<Seq<char>>)
    ensures
        are_the_wanted(usable_domains(domains), domains, is_a_name(), domain_itself()),
    decreases domains.len(),
{
    let wanted = is_a_name();
    let of = domain_itself();
    if domains.len() == 0 {
        lemma_none_of_none(wanted, of);
        assert(domains =~= Seq::empty());
    } else {
        let before = domains.drop_last();
        lemma_every_named_domain_is_used(before);
        lemma_one_more(usable_domains(before), before, wanted, of, domains.last());
        assert(before.push(domains.last()) =~= domains);
    }
}

/// Pages with text.
pub open spec fn has_text() -> spec_fn(ResearchPageBody) -> bool {
    |p: ResearchPageBody| trim(p.markdown@).len() > 0
}

/// What is indexed of a page: its name in the index, and its text with title and URL in front.
pub open spec fn its_document() -> spec_fn(ResearchPageBody) -> (Seq<char>, Seq<char>) {
    |p: ResearchPageBody|
        (
            crate::web_research::store::rag_source(p.url@, p.source_id@),
            "# "@ + p.title@ + "\nSource: "@ + p.url@ + "\nMode: "@ + p.fetch_mode@ + "\n\n"@
                + p.markdown@,
        )
}

/// Every page with text is indexed, whole and in its order.
pub proof fn lemma_every_page_is_indexed(pages: Seq<ResearchPageBody>)
    ensures
        are_the_wanted(page_documents(pages), pages, has_text(), its_document()),
    decreases pages.len(),
{
    let wanted = has_text();
    let of = its_document();
    if pages.len() == 0 {
        lemma_none_of_none(wanted, of);
        assert(pages =~= Seq::empty());
    } else {
        let before = pages.drop_last();
        lemma_every_page_is_indexed(before);
        lemma_one_more(page_documents(before), before, wanted, of, pages.last());
        assert(before.push(pages.last()) =~= pages);
    }
}

/// Tools that belong to the trial and are expected.
pub open spec fn is_on_trial(expected: Seq<Seq<char>>) -> spec_fn(Seq<char>) -> bool {
    |tool: Seq<char>| smoke_tools().contains(tool) && expected.contains(tool)
}

/// Every available tool that is on trial is offered, in its order.
pub proof fn lemma_every_expected_tool_is_offered(available: Seq<Seq<char>>, expected: Seq<Seq<char>>)
    ensures
        are_the_wanted(offered(available, expected), available, is_on_trial(expected), domain_itself()),
    decreases available.len(),
{
    let wanted = is_on_trial(expected);
    let of = domain_itself();
    if available.len() == 0 {
        lemma_none_of_none(wanted, of);
        assert(available =~= Seq::empty());
    } else {
        let before = available.drop_last();
        lemma_every_expected_tool_is_offered(before, expected);
        lemma_one_more(offered(before, expected), before, wanted, of, available.last());
        assert(before.push(available.last()) =~= available);
    }
}

/// A trial has no failures if and only if each of its scenarios passed; and it has no more than there
/// are scenarios.
pub proof fn lemma_failures_are_counted(results: Seq<ToolCallSmokeCaseResult>)
    ensures
        failures(results) <= results.len(),
        failures(results) == 0 <==> forall|i: int|
            0 <= i < results.len() ==> (#[trigger] results[i]).is_pass(),
        failures(results) == results.len() <==> forall|i: int|
            0 <= i < results.len() ==> !(#[trigger] results[i]).is_pass(),
    decreases results.len(),
{
    if results.len() > 0 {
        let before = results.drop_last();
        lemma_failures_are_counted(before);
        let n = results.len() - 1;
        assert(results[n] == results.last());
        assert forall|i: int| 0 <= i < n implies #[trigger] results[i] == before[i] by {}
        if forall|i: int| 0 <= i < before.len() ==> (#[trigger] before[i]).is_pass() {
        } else {
            let i = choose|i: int| 0 <= i < before.len() && !(#[trigger] before[i]).is_pass();
            assert(results[i] == before[i]);
        }
        if forall|i: int| 0 <= i < before.len() ==> !(#[trigger] before[i]).is_pass() {
        } else {
            let i = choose|i: int| 0 <= i < before.len() && (#[trigger] before[i]).is_pass();
            assert(results[i] == before[i]);
        }
    }
}

/// Paths that are neither refused nor trusted.
pub open spec fn is_to_be_asked_about(
    worktrees: Seq<Seq<char>>,
    settings: FullAccessSettings,
) -> spec_fn(Seq<char>) -> bool {
    |path: Seq<char>|
        path_verdict(path, worktrees, settings) is Ok && path_verdict(
            path,
            worktrees,
            settings,
        )->Ok_0 is Some
}

pub open spec fn path_asked_about(
    worktrees: Seq<Seq<char>>,
    settings: FullAccessSettings,
) -> spec_fn(Seq<char>) -> Seq<char> {
    |path: Seq<char>| path_verdict(path, worktrees, settings)->Ok_0->0
}

/// Access to several paths is refused if and only if it is to one of them; else each that is not
/// trusted is asked about, in its order.
pub proof fn lemma_every_path_is_judged(
    paths: Seq<Seq<char>>,
    worktrees: Seq<Seq<char>>,
    settings: FullAccessSettings,
)
    ensures
        gate(paths, worktrees, settings) is Ok <==> forall|i: int|
            0 <= i < paths.len() ==> path_verdict(#[trigger] paths[i], worktrees, settings) is Ok,
        gate(paths, worktrees, settings) matches Ok(asked) ==> are_the_wanted(
            asked,
            paths,
            is_to_be_asked_about(worktrees, settings),
            path_asked_about(worktrees, settings),
        ),
    decreases paths.len(),
{
    let wanted = is_to_be_asked_about(worktrees, settings);
    let of = path_asked_about(worktrees, settings);
    if paths.len() == 0 {
        lemma_none_of_none(wanted, of);
        assert(paths =~= Seq::empty());
    } else {
        let before = paths.drop_last();
        lemma_every_path_is_judged(before, worktrees, settings);
        let n = paths.len() - 1;
        assert(paths[n] == paths.last());
        assert forall|i: int| 0 <= i < n implies #[trigger] paths[i] == before[i] by {}
        match gate(before, worktrees, settings) {
            Ok(asked) => {
                lemma_one_more(asked, before, wanted, of, paths.last());
                assert(before.push(paths.last()) =~= paths);
                assert forall|i: int| 0 <= i < n implies path_verdict(
                    #[trigger] paths[i],
                    worktrees,
                    settings,
                ) is Ok by {
                    assert(path_verdict(before[i], worktrees, settings) is Ok);
                }
            },
            Err(_) => {
                let i = choose|i: int|
                    0 <= i < before.len() && !(path_verdict(
                        #[trigger] before[i],
                        worktrees,
                        settings,
                    ) is Ok);
                assert(paths[i] == before[i]);
            },
        }
    }
}

} // verus!
