//! How the tool that runs a session of web research goes about it, one step at a time.
use crate::agent_settings::WebResearchSettings;
use crate::sorting::is_desc_order;
use crate::text::{opt_text, views};
use crate::tools::research_web::{
    annotated, closing_text, is_request, is_start, DiscoveryFailure, ResearchPlan, ResearchRequest,
    ResearchStart, ResearchWebTool, ResearchWebToolInput, ResearchWebToolOutput, LISTED_SESSIONS,
    RESEARCH_CANCELLED,
};
use crate::web_research::session::{
    body_views, BodyView, DigestView, ResearchDigest, ResearchPageBody, ResearchSeed,
    ResearchSessionOutcome,
};
use crate::web_research::store::{
    at_least_one, list_sessions, lists, new_session_id, render_session_list, session_id_of,
    session_list, summary_keys, SessionSummary, StoredResearchSession,
};
use vstd::prelude::*;

verus! {

/// What a call of the tool waits for.
#[derive(Debug)]
pub enum ResearchCall {
    /// The sessions that are kept are listed.
    Listing,
    /// A session that is kept is read; `ingest` says whether its pages are to be indexed.
    Loading { ingest: bool },
    /// A user is asked whether the pages of a session that is kept may be indexed.
    AskingIngest { stored: StoredResearchSession },
    IngestingStored { stored: StoredResearchSession },
    /// Pages are searched for.
    Discovering { input: ResearchWebToolInput, plan: ResearchPlan },
    /// A user is asked whether the session may be run.
    Asking { input: ResearchWebToolInput, plan: ResearchPlan, start: ResearchStart },
    Researching { persist: bool, ingest: bool },
    /// The session is written down.
    Saving { stored: StoredResearchSession, ingest: bool },
    Ingesting { digest: ResearchDigest, pages: Vec<ResearchPageBody>, persist_error: Option<String> },
    Done,
}

#[derive(Debug)]
pub enum ResearchEvent {
    /// The sessions that are kept.
    Listed(Result<Vec<SessionSummary>, String>),
    Loaded(Result<StoredResearchSession, String>),
    /// A user has answered, or why not.
    Answered(Result<(), String>),
    /// What is noted of the pages that were indexed, or why they were not.
    Ingested(Result<String, String>),
    Discovered(Result<Vec<ResearchSeed>, DiscoveryFailure>),
    /// The session is over, at a time that names it; it is written down at another.
    Researched { outcome: ResearchSessionOutcome, id_ms: u64, now_ms: u64 },
    Saved(Result<(), String>),
    Cancelled,
}

#[derive(Debug)]
pub enum ResearchAction {
    List,
    Load { id: String },
    /// A user is asked about the session that is at hand.
    AskToIngest,
    /// The pages at hand are indexed.
    Ingest,
    Discover { query: String },
    /// A user is asked about the session that is at hand.
    Ask,
    Research { query: String, plan: ResearchPlan, start: ResearchStart },
    /// The session at hand is written down.
    Save,
    Finish(Result<ResearchWebToolOutput, ResearchWebToolOutput>),
    /// The event changes nothing.
    Wait,
}

/// Whether the call has ended with an error.
pub open spec fn research_fails(
    after: ResearchCall,
    action: ResearchAction,
    text: Seq<char>,
) -> bool {
    &&& after is Done
    &&& action matches ResearchAction::Finish(Err(ResearchWebToolOutput::Error { error }))
    &&& error@ == text
}

/// Whether the call has ended with a digest.
pub open spec fn research_gives(
    after: ResearchCall,
    action: ResearchAction,
    digest: DigestView,
) -> bool {
    &&& after is Done
    &&& action matches ResearchAction::Finish(Ok(ResearchWebToolOutput::Success(d)))
    &&& d@ == digest
}

/// Whether `r` is the list of the sessions that were written last.
pub open spec fn is_session_list(r: Seq<char>, sessions: Seq<SessionSummary>) -> bool {
    exists|order: Seq<usize>, listed: Seq<SessionSummary>|
        {
            &&& #[trigger] is_desc_order(summary_keys(sessions), order)
            &&& #[trigger] lists(listed, sessions, order, at_least_one(LISTED_SESSIONS))
            &&& r == session_list(listed)
        }
}

/// The digest of a session that is kept, with its name.
pub open spec fn named_digest(stored: StoredResearchSession) -> DigestView {
    DigestView { session_id: Some(stored.id@), ..stored.digest@ }
}

/// Whether a session that is over is closed: its pages are indexed first, where that is asked for.
pub open spec fn is_closed(
    digest: DigestView,
    pages: Seq<BodyView>,
    persist_error: Option<Seq<char>>,
    ingest: bool,
    after: ResearchCall,
    action: ResearchAction,
) -> bool {
    if ingest {
        &&& after matches ResearchCall::Ingesting { digest: d, pages: p, persist_error: e }
        &&& d@ == digest
        &&& body_views(p@) == pages
        &&& opt_text(e) == persist_error
        &&& action is Ingest
    } else {
        research_gives(after, action, annotated(digest, closing_text(persist_error, None)))
    }
}

/// Whether `stored` is a session that has just ended.
pub open spec fn is_kept_session(
    stored: StoredResearchSession,
    outcome: ResearchSessionOutcome,
    id_ms: u64,
    now_ms: u64,
) -> bool {
    let id = session_id_of(outcome.digest.query@, id_ms);
    &&& stored.id@ == id
    &&& stored.created_at_unix_ms == now_ms
    &&& stored.updated_at_unix_ms == now_ms
    &&& stored.digest@ == (DigestView { session_id: Some(id), ..outcome.digest@ })
    &&& body_views(stored.pages@) == body_views(outcome.pages@)
}

/// Whether one step leads from `before` to `after`.
pub open spec fn research_steps(
    before: ResearchCall,
    event: ResearchEvent,
    settings: WebResearchSettings,
    after: ResearchCall,
    action: ResearchAction,
) -> bool {
    match (before, event) {
        (ResearchCall::Listing, ResearchEvent::Listed(Ok(sessions))) => {
            &&& after is Done
            &&& action matches ResearchAction::Finish(Ok(ResearchWebToolOutput::List { content }))
            &&& is_session_list(content@, sessions@)
        },
        (ResearchCall::Listing, ResearchEvent::Listed(Err(e)))
        | (ResearchCall::Loading { .. }, ResearchEvent::Loaded(Err(e)))
        | (ResearchCall::AskingIngest { .. }, ResearchEvent::Answered(Err(e)))
        | (ResearchCall::IngestingStored { .. }, ResearchEvent::Ingested(Err(e)))
        | (ResearchCall::Ingesting { .. }, ResearchEvent::Ingested(Err(e))) => research_fails(
            after,
            action,
            e@,
        ),
        (ResearchCall::Loading { ingest }, ResearchEvent::Loaded(Ok(stored))) => if ingest {
            &&& after == ResearchCall::AskingIngest { stored }
            &&& action is AskToIngest
        } else {
            research_gives(after, action, named_digest(stored))
        },
        (ResearchCall::AskingIngest { stored }, ResearchEvent::Answered(Ok(_))) => {
            &&& after == ResearchCall::IngestingStored { stored }
            &&& action is Ingest
        },
        (ResearchCall::IngestingStored { stored }, ResearchEvent::Ingested(Ok(note))) => {
            research_gives(after, action, annotated(named_digest(stored), note@))
        },
        (ResearchCall::Discovering { .. }, ResearchEvent::Discovered(Err(failure))) => {
            research_fails(after, action, failure.text())
        },
        (ResearchCall::Discovering { input, plan }, ResearchEvent::Discovered(Ok(found))) => {
            exists|r: Result<ResearchStart, String>|
                {
                    &&& #[trigger] is_start(
                        r,
                        views(input.domains@),
                        found@,
                        settings.max_search_results as nat,
                    )
                    &&& match r {
                        Err(e) => research_fails(after, action, e@),
                        Ok(start) => after == (ResearchCall::Asking { input, plan, start })
                            && action is Ask,
                    }
                }
        },
        (ResearchCall::Asking { .. }, ResearchEvent::Answered(Err(e))) => research_fails(
            after,
            action,
            "research_denied_after_discovery: "@ + e@,
        ),
        (ResearchCall::Asking { input, plan, start }, ResearchEvent::Answered(Ok(_))) => {
            &&& after == ResearchCall::Researching {
                persist: plan.persist,
                ingest: input.ingest_to_rag,
            }
            &&& action == ResearchAction::Research { query: input.query, plan, start }
        },
        (
            ResearchCall::Researching { persist, ingest },
            ResearchEvent::Researched { outcome, id_ms, now_ms },
        ) => if persist {
            &&& after matches ResearchCall::Saving { stored, ingest: i }
            &&& i == ingest
            &&& is_kept_session(stored, outcome, id_ms, now_ms)
            &&& action is Save
        } else {
            is_closed(
                outcome.digest@,
                body_views(outcome.pages@),
                None,
                ingest,
                after,
                action,
            )
        },
        (ResearchCall::Saving { stored, ingest }, ResearchEvent::Saved(result)) => is_closed(
            stored.digest@,
            body_views(stored.pages@),
            match result {
                Ok(_) => None,
                Err(e) => Some(e@),
            },
            ingest,
            after,
            action,
        ),
        (
            ResearchCall::Ingesting { digest, persist_error, .. },
            ResearchEvent::Ingested(Ok(note)),
        ) => research_gives(
            after,
            action,
            annotated(digest@, closing_text(opt_text(persist_error), Some(note@))),
        ),
        (ResearchCall::Discovering { .. }, ResearchEvent::Cancelled)
        | (ResearchCall::Researching { .. }, ResearchEvent::Cancelled) => research_fails(
            after,
            action,
            RESEARCH_CANCELLED@,
        ),
        _ => after == before && action is Wait,
    }
}

fn fail(error: String) -> (r: (ResearchCall, ResearchAction))
    ensures
        research_fails(r.0, r.1, error@),
{
    (ResearchCall::Done, ResearchAction::Finish(Err(ResearchWebToolOutput::Error { error })))
}

fn give(digest: ResearchDigest) -> (r: (ResearchCall, ResearchAction))
    ensures
        research_gives(r.0, r.1, digest@),
{
    (ResearchCall::Done, ResearchAction::Finish(Ok(ResearchWebToolOutput::Success(digest))))
}

fn close(
    digest: ResearchDigest,
    pages: Vec<ResearchPageBody>,
    persist_error: Option<String>,
    ingest: bool,
) -> (r: (ResearchCall, ResearchAction))
    ensures
        is_closed(
            digest@,
            body_views(pages@),
            opt_text(persist_error),
            ingest,
            r.0,
            r.1,
        ),
{
    if ingest {
        return (
            ResearchCall::Ingesting { digest, pages, persist_error },
            ResearchAction::Ingest,
        );
    }
    let note = ResearchWebTool::closing_note(
        match &persist_error {
            Some(e) => Some(e.as_str()),
            None => None,
        },
        None,
    );
    give(ResearchWebTool::annotate(digest, note.as_str()))
}

fn list(sessions: &Vec<SessionSummary>) -> (r: String)
    ensures
        is_session_list(r@, sessions@),
{
    let listed = list_sessions(sessions, LISTED_SESSIONS);
    let r = render_session_list(&listed);
    proof {
        let order = choose|order: Seq<usize>|
            {
                &&& #[trigger] is_desc_order(summary_keys(sessions@), order)
                &&& lists(listed@, sessions@, order, at_least_one(LISTED_SESSIONS))
            };
        assert(is_desc_order(summary_keys(sessions@), order) && lists(
            listed@,
            sessions@,
            order,
            at_least_one(LISTED_SESSIONS),
        ));
    }
    r
}

impl ResearchCall {
    pub fn start(
        input: ResearchWebToolInput,
        settings: &WebResearchSettings,
        full_access: bool,
    ) -> (r: (ResearchCall, ResearchAction))
        ensures
            exists|request: Result<ResearchRequest, String>|
                {
                    &&& #[trigger] is_request(request, input, *settings, full_access)
                    &&& match request {
                        Err(e) => research_fails(r.0, r.1, e@),
                        Ok(ResearchRequest::ListSessions) => r.0 is Listing && r.1 is List,
                        Ok(ResearchRequest::Resume(id)) => {
                            &&& r.0 == (ResearchCall::Loading { ingest: input.ingest_to_rag })
                            &&& r.1 == ResearchAction::Load { id }
                        },
                        Ok(ResearchRequest::Discover(plan)) => {
                            &&& r.0 == (ResearchCall::Discovering { input, plan })
                            &&& r.1 == ResearchAction::Discover { query: input.query }
                        },
                    }
                },
    {
        let request = ResearchWebTool::plan(&input, settings, full_access);
        assert(is_request(request, input, *settings, full_access));
        match request {
            Err(e) => fail(e),
            Ok(ResearchRequest::ListSessions) => (ResearchCall::Listing, ResearchAction::List),
            Ok(ResearchRequest::Resume(id)) => (
                ResearchCall::Loading { ingest: input.ingest_to_rag },
                ResearchAction::Load { id },
            ),
            Ok(ResearchRequest::Discover(plan)) => {
                let query = input.query.clone();
                (ResearchCall::Discovering { input, plan }, ResearchAction::Discover { query })
            },
        }
    }

    pub fn step(self, event: ResearchEvent, settings: &WebResearchSettings) -> (r: (
        ResearchCall,
        ResearchAction,
    ))
        ensures
            research_steps(self, event, *settings, r.0, r.1),
    {
        match (self, event) {
            (ResearchCall::Listing, ResearchEvent::Listed(Ok(sessions))) => {
                let content = list(&sessions);
                (
                    ResearchCall::Done,
                    ResearchAction::Finish(Ok(ResearchWebToolOutput::List { content })),
                )
            },
            (ResearchCall::Listing, ResearchEvent::Listed(Err(e)))
            | (ResearchCall::Loading { .. }, ResearchEvent::Loaded(Err(e)))
            | (ResearchCall::AskingIngest { .. }, ResearchEvent::Answered(Err(e)))
            | (ResearchCall::IngestingStored { .. }, ResearchEvent::Ingested(Err(e)))
            | (ResearchCall::Ingesting { .. }, ResearchEvent::Ingested(Err(e))) => fail(e),
            (ResearchCall::Loading { ingest }, ResearchEvent::Loaded(Ok(stored))) => {
                if ingest {
                    (ResearchCall::AskingIngest { stored }, ResearchAction::AskToIngest)
                } else {
                    proof {
                        reveal_strlit("");
                    }
                    give(ResearchWebTool::resume(stored, ""))
                }
            },
            (ResearchCall::AskingIngest { stored }, ResearchEvent::Answered(Ok(_))) => {
                (ResearchCall::IngestingStored { stored }, ResearchAction::Ingest)
            },
            (ResearchCall::IngestingStored { stored }, ResearchEvent::Ingested(Ok(note))) => {
                give(ResearchWebTool::resume(stored, note.as_str()))
            },
            (ResearchCall::Discovering { .. }, ResearchEvent::Discovered(Err(failure))) => {
                fail(failure.message())
            },
            (ResearchCall::Discovering { input, plan }, ResearchEvent::Discovered(Ok(found))) => {
                let ghost all = found@;
                let max: usize = settings.max_search_results;
                let started = ResearchWebTool::start(&input.domains, found, max);
                assert(is_start(started, views(input.domains@), all, max as nat));
                match started {
                    Err(e) => fail(e),
                    Ok(start) => (
                        ResearchCall::Asking { input, plan, start },
                        ResearchAction::Ask,
                    ),
                }
            },
            (ResearchCall::Asking { .. }, ResearchEvent::Answered(Err(e))) => {
                fail(ResearchWebTool::denied(e.as_str()))
            },
            (ResearchCall::Asking { input, plan, start }, ResearchEvent::Answered(Ok(_))) => {
                (
                    ResearchCall::Researching {
                        persist: plan.persist,
                        ingest: input.ingest_to_rag,
                    },
                    ResearchAction::Research { query: input.query, plan, start },
                )
            },
            (
                ResearchCall::Researching { persist, ingest },
                ResearchEvent::Researched { outcome, id_ms, now_ms },
            ) => {
                if persist {
                    let id = new_session_id(outcome.digest.query.as_str(), id_ms);
                    let (_, stored) = ResearchWebTool::store(outcome, id, now_ms);
                    (ResearchCall::Saving { stored, ingest }, ResearchAction::Save)
                } else {
                    close(outcome.digest, outcome.pages, None, ingest)
                }
            },
            (ResearchCall::Saving { stored, ingest }, ResearchEvent::Saved(result)) => {
                let persist_error = match result {
                    Ok(_) => None,
                    Err(e) => Some(e),
                };
                close(stored.digest, stored.pages, persist_error, ingest)
            },
            (
                ResearchCall::Ingesting { digest, persist_error, .. },
                ResearchEvent::Ingested(Ok(note)),
            ) => {
                let closing = ResearchWebTool::closing_note(
                    match &persist_error {
                        Some(e) => Some(e.as_str()),
                        None => None,
                    },
                    Some(note.as_str()),
                );
                give(ResearchWebTool::annotate(digest, closing.as_str()))
            },
            (ResearchCall::Discovering { .. }, ResearchEvent::Cancelled)
            | (ResearchCall::Researching { .. }, ResearchEvent::Cancelled) => fail(
                RESEARCH_CANCELLED.to_string(),
            ),
            (call, _) => (call, ResearchAction::Wait),
        }
    }
}

/// Pages are fetched only right after a user has allowed the session, with the hosts that were
/// asked about. A refusal ends the call.
pub proof fn lemma_research_needs_permission(
    before: ResearchCall,
    event: ResearchEvent,
    settings: WebResearchSettings,
    after: ResearchCall,
    action: ResearchAction,
)
    requires
        research_steps(before, event, settings, after, action),
    ensures
        action matches ResearchAction::Research { query, plan, start } ==> {
            &&& event matches ResearchEvent::Answered(Ok(_))
            &&& before matches ResearchCall::Asking { input, plan: p, start: s }
            &&& query == input.query
            &&& plan == p
            &&& start == s
        },
        before is Asking || before is AskingIngest ==> (event matches ResearchEvent::Answered(Err(_))
            ==> after is Done && (action matches ResearchAction::Finish(Err(_)))),
{
}

/// Pages are indexed only where that was asked for, and those of a session that is kept only right
/// after a user has allowed it.
pub proof fn lemma_indexing_is_asked_for(
    before: ResearchCall,
    event: ResearchEvent,
    settings: WebResearchSettings,
    after: ResearchCall,
    action: ResearchAction,
)
    requires
        research_steps(before, event, settings, after, action),
        action is Ingest,
    ensures
        match before {
            ResearchCall::AskingIngest { .. } => event matches ResearchEvent::Answered(Ok(_)),
            ResearchCall::Researching { ingest, .. } => ingest,
            ResearchCall::Saving { ingest, .. } => ingest,
            _ => false,
        },
{
}

/// A session that could not be written down is not lost: its digest is given all the same, and
/// says so.
pub proof fn lemma_unsaved_sessions_are_given(
    stored: StoredResearchSession,
    error: String,
    settings: WebResearchSettings,
    after: ResearchCall,
    action: ResearchAction,
)
    requires
        research_steps(
            ResearchCall::Saving { stored, ingest: false },
            ResearchEvent::Saved(Err(error)),
            settings,
            after,
            action,
        ),
    ensures
        research_gives(after, action, annotated(stored.digest@, "persist_failed: "@ + error@)),
{
}

} // verus!
