//! The tools that index documents and search the index.
use crate::paths::{is_absolute, is_absolute_path, join_path, joined, path_segments, segments};
use crate::rag::{
    default_top_k, embeddings_api_base, embeddings_base, DEFAULT_EMBEDDING_MODEL, DEFAULT_TOP_K,
};
use crate::text::{
    dec, dec_int, dec_int_str, dec_str, join, join_strs, str_eq, trim, trim_str, views,
};
use crate::tools::full_access::ToolPermissionContext;
use crate::tools::research_web::{ingest_failed, IngestTally};
use vstd::prelude::*;

verus! {

pub const RAG_INGEST_NAME: &'static str = "rag_ingest";

pub const RAG_SEARCH_NAME: &'static str = "rag_search";

pub const NO_WORKTREE: &'static str = "No project worktree is open.";

pub const EMBEDDINGS_REQUIRED: &'static str =
    "RAG embeddings require LM Studio. Configure language_models.lmstudio.api_url and ensure LM Studio is running.";

pub const INGEST_NEEDS_SUBJECT: &'static str =
    "rag_ingest requires `path` or `research_session_id`.";

/// What is asked of the tool that indexes documents.
#[derive(Debug)]
pub struct RagIngestToolInput {
    pub path: Option<String>,
    pub research_session_id: Option<String>,
}

/// What the tool that indexes documents gives.
#[derive(Debug)]
pub enum RagIngestToolOutput {
    Success { message: String },
    Error { error: String },
}

impl RagIngestToolOutput {
    /// What a model reads of it.
    pub fn into_text(self) -> (r: String)
        ensures
            r == match self {
                RagIngestToolOutput::Success { message } => message,
                RagIngestToolOutput::Error { error } => error,
            },
    {
        match self {
            RagIngestToolOutput::Success { message } => message,
            RagIngestToolOutput::Error { error } => error,
        }
    }
}

/// What is indexed.
#[derive(Debug)]
pub enum IngestSubject {
    Session(String),
    Path(String),
}

/// What a user is asked before the pages of a session are indexed.
#[derive(Debug)]
pub struct IngestPermission {
    pub title: String,
    pub context: ToolPermissionContext,
}

/// How many chunks the index holds: as many as were just indexed, if nothing else is known.
pub open spec fn held(tally: IngestTally, total: Option<usize>) -> nat {
    match total {
        Some(n) => n as nat,
        None => tally.chunks as nat,
    }
}

/// What is said of the documents that were indexed.
pub open spec fn ingest_text(tally: IngestTally, path: Seq<char>, total: Option<usize>) -> Seq<
    char,
> {
    if tally.chunks == 0 {
        "No indexable content found at "@ + path + "."@
    } else {
        "Indexed "@ + dec(tally.chunks as nat) + " chunk(s) from "@ + dec(tally.sources as nat)
            + " file(s). The index now holds "@ + dec(held(tally, total)) + " chunk(s)."@
    }
}

pub open spec fn no_pages_text(session_id: Seq<char>) -> Seq<char> {
    "Research session `"@ + session_id + "` has no fetched page bodies to ingest."@
}

/// What is said of a session whose pages were indexed.
pub open spec fn session_ingest_text(
    tally: IngestTally,
    session_id: Seq<char>,
    total: Option<usize>,
) -> Seq<char> {
    "Indexed "@ + dec(tally.chunks as nat) + " chunk(s) from "@ + dec(tally.sources as nat)
        + " web page(s) in session `"@ + session_id
        + "` as source=web:…. The index now holds "@ + dec(held(tally, total)) + " chunk(s)."@
}

/// Whether `p` asks whether the pages of a session may be indexed.
pub open spec fn asks_to_ingest(p: IngestPermission, session_id: Seq<char>) -> bool {
    &&& p.title@ == "Index research session "@ + session_id + " into RAG"@
    &&& p.context.tool_name@ == RAG_INGEST_NAME@
    &&& views(p.context.input_values@) == seq![
        "research_session_id="@ + session_id,
        "ingest_to_rag=1"@,
    ]
}

/// The path of what is indexed, from the worktree on where it does not start at the root.
pub open spec fn resolved(worktree_root: Seq<char>, path: Seq<char>) -> Seq<char> {
    if is_absolute(path) {
        path
    } else {
        joined(worktree_root, path)
    }
}

pub struct RagIngestTool;

impl RagIngestTool {
    pub fn initial_title(input: Option<&RagIngestToolInput>) -> (r: String)
        ensures
            r@ == match input {
                Some(i) => match i.research_session_id {
                    Some(id) => "Index research session "@ + id@,
                    None => "Index documents at "@ + match i.path {
                        Some(p) => p@,
                        None => "(unspecified)"@,
                    },
                },
                None => "Index documents"@,
            },
    {
        match input {
            Some(i) => match &i.research_session_id {
                Some(id) => {
                    let mut r = "Index research session ".to_string();
                    r.append(id.as_str());
                    r
                },
                None => {
                    let mut r = "Index documents at ".to_string();
                    match &i.path {
                        Some(p) => r.append(p.as_str()),
                        None => r.append("(unspecified)"),
                    }
                    r
                },
            },
            None => "Index documents".to_string(),
        }
    }

    /// What is indexed. A session comes before a path.
    pub fn subject(input: RagIngestToolInput) -> (r: Result<IngestSubject, String>)
        ensures
            match input.research_session_id {
                Some(id) => r == Ok::<IngestSubject, String>(IngestSubject::Session(id)),
                None => match input.path {
                    Some(p) => r == Ok::<IngestSubject, String>(IngestSubject::Path(p)),
                    None => r matches Err(e) && e@ == INGEST_NEEDS_SUBJECT@,
                },
            },
    {
        match input.research_session_id {
            Some(id) => Ok(IngestSubject::Session(id)),
            None => match input.path {
                Some(p) => Ok(IngestSubject::Path(p)),
                None => Err(INGEST_NEEDS_SUBJECT.to_string()),
            },
        }
    }

    /// What a user is asked before the pages of a session are indexed.
    pub fn permission(session_id: &str) -> (r: IngestPermission)
        ensures
            asks_to_ingest(r, session_id@),
    {
        let mut title = "Index research session ".to_string();
        title.append(session_id);
        title.append(" into RAG");
        let mut id = "research_session_id=".to_string();
        id.append(session_id);
        let values: Vec<String> = vec![id, "ingest_to_rag=1".to_string()];
        assert(views(values@) =~= seq![id@, "ingest_to_rag=1"@]);
        IngestPermission {
            title,
            context: ToolPermissionContext {
                tool_name: RAG_INGEST_NAME.to_string(),
                input_values: values,
            },
        }
    }

    /// The path of what is indexed, from the worktree on where it does not start at the root.
    pub fn resolve(worktree_root: &str, path: &str) -> (r: String)
        ensures
            r@ == resolved(worktree_root@, path@),
    {
        if is_absolute_path(path) {
            path.to_string()
        } else {
            join_path(worktree_root, path)
        }
    }

    /// What is said of the documents that were indexed; `total` is how many chunks the index holds
    /// now, if that is known.
    pub fn report(tally: &IngestTally, path: &str, total: Option<usize>) -> (r: RagIngestToolOutput)
        ensures
            r matches RagIngestToolOutput::Success { message } && message@ == ingest_text(
                *tally,
                path@,
                total,
            ),
    {
        if tally.chunks == 0 {
            let mut r = "No indexable content found at ".to_string();
            r.append(path);
            r.append(".");
            return RagIngestToolOutput::Success { message: r };
        }
        let held: usize = match total {
            Some(n) => n,
            None => tally.chunks,
        };
        let mut r = "Indexed ".to_string();
        r.append(dec_str(tally.chunks as u64).as_str());
        r.append(" chunk(s) from ");
        r.append(dec_str(tally.sources as u64).as_str());
        r.append(" file(s). The index now holds ");
        r.append(dec_str(held as u64).as_str());
        r.append(" chunk(s).");
        RagIngestToolOutput::Success { message: r }
    }

    /// What is said of a session none of whose pages are kept.
    pub fn no_pages(session_id: &str) -> (r: RagIngestToolOutput)
        ensures
            r matches RagIngestToolOutput::Success { message } && message@ == no_pages_text(
                session_id@,
            ),
    {
        let mut r = "Research session `".to_string();
        r.append(session_id);
        r.append("` has no fetched page bodies to ingest.");
        RagIngestToolOutput::Success { message: r }
    }

    /// What is said of a session whose pages were indexed.
    pub fn session_report(tally: &IngestTally, session_id: &str, total: Option<usize>) -> (r:
        RagIngestToolOutput)
        ensures
            r matches RagIngestToolOutput::Success { message } && message@ == session_ingest_text(
                *tally,
                session_id@,
                total,
            ),
    {
        let held: usize = match total {
            Some(n) => n,
            None => tally.chunks,
        };
        let mut r = "Indexed ".to_string();
        r.append(dec_str(tally.chunks as u64).as_str());
        r.append(" chunk(s) from ");
        r.append(dec_str(tally.sources as u64).as_str());
        r.append(" web page(s) in session `");
        r.append(session_id);
        r.append("` as source=web:…. The index now holds ");
        r.append(dec_str(held as u64).as_str());
        r.append(" chunk(s).");
        RagIngestToolOutput::Success { message: r }
    }
}

/// Where texts are embedded and by which model, given the address of the chat endpoint.
pub fn embedding_settings(chat_api_url: &str) -> (r: Result<(String, String), String>)
    ensures
        if trim(chat_api_url@).len() == 0 {
            r matches Err(e) && e@ == EMBEDDINGS_REQUIRED@
        } else {
            r matches Ok((base, model)) && base@ == embeddings_base(chat_api_url@) && model@
                == DEFAULT_EMBEDDING_MODEL@
        },
{
    if trim_str(chat_api_url).as_str().is_empty() {
        return Err(EMBEDDINGS_REQUIRED.to_string());
    }
    Ok((embeddings_api_base(chat_api_url), DEFAULT_EMBEDDING_MODEL.to_string()))
}

/// A passage that was found. How well it fits is written out.
#[derive(Debug)]
pub struct FoundPassage {
    pub source: String,
    pub chunk_index: i32,
    pub score: String,
    pub text: String,
}

/// The name of a source: the last name in its path, or else the whole of it.
pub open spec fn source_name(source: Seq<char>) -> Seq<char> {
    let names = segments(source);
    if names.len() == 0 || names.last() == ".."@ {
        source
    } else {
        names.last()
    }
}

fn name_of_source(source: &str) -> (r: String)
    ensures
        r@ == source_name(source@),
{
    let names = path_segments(source);
    let n: usize = names.len();
    assert(views(names@).len() == n);
    if n == 0 {
        return source.to_string();
    }
    assert(views(names@).last() == names@[n - 1]@);
    if str_eq(names[n - 1].as_str(), "..") {
        return source.to_string();
    }
    names[n - 1].clone()
}

/// A passage as it stands in the list, with its number.
pub open spec fn passage_text(p: FoundPassage, number: nat) -> Seq<char> {
    "["@ + dec(number) + "] "@ + source_name(p.source@) + " (chunk "@ + dec_int(
        p.chunk_index as int,
    ) + ", score "@ + p.score@ + ")\n"@ + p.text@
}

pub open spec fn passage_texts(found: Seq<FoundPassage>) -> Seq<Seq<char>> {
    Seq::new(found.len(), |i: int| passage_text(found[i], (i + 1) as nat))
}

/// What is asked of the tool that searches documents; `k` is how many passages are wanted.
#[derive(Debug)]
pub struct RagSearchToolInput {
    pub query: String,
    pub k: Option<usize>,
}

/// What the tool that searches documents gives.
#[derive(Debug)]
pub enum RagSearchToolOutput {
    Success { content: String },
    Error { error: String },
}

impl RagSearchToolOutput {
    /// What a model reads of it.
    pub fn into_text(self) -> (r: String)
        ensures
            r == match self {
                RagSearchToolOutput::Success { content } => content,
                RagSearchToolOutput::Error { error } => error,
            },
    {
        match self {
            RagSearchToolOutput::Success { content } => content,
            RagSearchToolOutput::Error { error } => error,
        }
    }
}

/// What is said of the passages that were found.
pub open spec fn found_text(found: Seq<FoundPassage>) -> Seq<char> {
    if found.len() == 0 {
        "No relevant passages found."@
    } else {
        join(passage_texts(found), "\n\n"@)
    }
}

pub const EMPTY_INDEX: &'static str =
    "The document index is empty. Use rag_ingest to add documents first.";

pub struct RagSearchTool;

impl RagSearchTool {
    /// How many passages are looked for.
    pub fn limit(input: &RagSearchToolInput) -> (r: usize)
        ensures
            r == match input.k {
                Some(k) => k,
                None => DEFAULT_TOP_K,
            },
    {
        match input.k {
            Some(k) => k,
            None => default_top_k(),
        }
    }

    pub fn initial_title(input: Option<&RagSearchToolInput>) -> (r: String)
        ensures
            r@ == match input {
                Some(i) => "Search documents for "@ + i.query@,
                None => "Search documents"@,
            },
    {
        match input {
            Some(i) => {
                let mut r = "Search documents for ".to_string();
                r.append(i.query.as_str());
                r
            },
            None => "Search documents".to_string(),
        }
    }

    /// What is said where there is nothing to search, and nothing where there is.
    pub fn check(indexed: usize) -> (r: Option<RagSearchToolOutput>)
        ensures
            r is None <==> indexed > 0,
            indexed == 0 ==> (r matches Some(RagSearchToolOutput::Success { content }) && content@
                == EMPTY_INDEX@),
    {
        if indexed == 0 {
            Some(RagSearchToolOutput::Success { content: EMPTY_INDEX.to_string() })
        } else {
            None
        }
    }

    /// What is said where the search went wrong.
    pub fn failed(error: &str) -> (r: RagSearchToolOutput)
        ensures
            r matches RagSearchToolOutput::Error { error: e } && e@ == "Document search failed: "@
                + error@,
    {
        let mut e = "Document search failed: ".to_string();
        e.append(error);
        RagSearchToolOutput::Error { error: e }
    }

    /// The passages that were found, the best first.
    pub fn report(found: &Vec<FoundPassage>) -> (r: RagSearchToolOutput)
        ensures
            r matches RagSearchToolOutput::Success { content } && content@ == found_text(found@),
    {
        let n: usize = found.len();
        if n == 0 {
            return RagSearchToolOutput::Success {
                content: "No relevant passages found.".to_string(),
            };
        }
        let mut texts: Vec<String> = Vec::new();
        let ghost all = passage_texts(found@);
        let mut i: usize = 0;
        assert(views(texts@) =~= all.take(0));
        while i < n
            invariant
                i <= n,
                n == found@.len(),
                all == passage_texts(found@),
                views(texts@) == all.take(i as int),
            decreases n - i,
        {
            let ghost before = views(texts@);
            let p = &found[i];
            let mut t = "[".to_string();
            t.append(dec_str((i + 1) as u64).as_str());
            t.append("] ");
            t.append(name_of_source(p.source.as_str()).as_str());
            t.append(" (chunk ");
            t.append(dec_int_str(p.chunk_index as i64).as_str());
            t.append(", score ");
            t.append(p.score.as_str());
            t.append(")\n");
            t.append(p.text.as_str());
            let ghost text = t@;
            texts.push(t);
            assert(views(texts@) =~= before.push(text));
            assert(all.take(i + 1) =~= before.push(all[i as int]));
            i = i + 1;
        }
        assert(all.take(n as int) =~= all);
        RagSearchToolOutput::Success { content: join_strs(&texts, "\n\n") }
    }
}

// ---------------------------------------------------------------------------
// The tools, one step at a time
// ---------------------------------------------------------------------------

/// Where documents are indexed and by what they are embedded.
#[derive(Debug)]
pub struct IndexPlace {
    pub worktree_root: String,
    pub api_base: String,
    pub embedding_model: String,
}

/// Whether `r` is where documents are indexed, or why they are not.
pub open spec fn is_place(
    r: Result<IndexPlace, String>,
    worktree_root: Option<String>,
    chat_api_url: Seq<char>,
) -> bool {
    match worktree_root {
        None => r matches Err(e) && e@ == NO_WORKTREE@,
        Some(root) => if trim(chat_api_url).len() == 0 {
            r matches Err(e) && e@ == EMBEDDINGS_REQUIRED@
        } else {
            &&& r matches Ok(p)
            &&& p.worktree_root@ == root@
            &&& p.api_base@ == embeddings_base(chat_api_url)
            &&& p.embedding_model@ == DEFAULT_EMBEDDING_MODEL@
        },
    }
}

/// Decides where documents are indexed, given the first worktree and the address of the chat
/// endpoint.
pub fn index_place(worktree_root: Option<String>, chat_api_url: &str) -> (r: Result<
    IndexPlace,
    String,
>)
    ensures
        is_place(r, worktree_root, chat_api_url@),
{
    let worktree_root = match worktree_root {
        Some(root) => root,
        None => {
            return Err(NO_WORKTREE.to_string());
        },
    };
    match embedding_settings(chat_api_url) {
        Ok((api_base, embedding_model)) => Ok(
            IndexPlace { worktree_root, api_base, embedding_model },
        ),
        Err(e) => Err(e),
    }
}

/// Why documents were not indexed.
#[derive(Debug)]
pub enum IngestFailure {
    /// The index could not be opened.
    Open(String),
    /// A page could not be indexed.
    Page { source: String, error: String },
    Documents(String),
}

impl IngestFailure {
    pub open spec fn text(self) -> Seq<char> {
        match self {
            IngestFailure::Open(e) => "Failed to open RAG index: "@ + e@,
            IngestFailure::Page { source, error } => "Failed to ingest "@ + source@ + ": "@
                + error@,
            IngestFailure::Documents(e) => "Failed to ingest documents: "@ + e@,
        }
    }

    pub fn message(&self) -> (r: String)
        ensures
            r@ == self.text(),
    {
        match self {
            IngestFailure::Open(e) => {
                let mut r = "Failed to open RAG index: ".to_string();
                r.append(e.as_str());
                r
            },
            IngestFailure::Page { source, error } => ingest_failed(source.as_str(), error.as_str()),
            IngestFailure::Documents(e) => {
                let mut r = "Failed to ingest documents: ".to_string();
                r.append(e.as_str());
                r
            },
        }
    }
}

/// What was indexed, and how many chunks the index holds now, if that is known.
#[derive(Debug)]
pub struct Ingested {
    pub tally: IngestTally,
    pub total: Option<usize>,
}

/// What a call of the tool that indexes documents waits for.
#[derive(Debug)]
pub enum IngestCall {
    /// A user is asked whether the pages of a session may be indexed.
    Asking { session_id: String },
    Loading { session_id: String },
    /// It is found out where documents are indexed.
    PlacingSession { session_id: String },
    PlacingPath { path: String },
    IngestingSession { session_id: String },
    IngestingPath { path: String },
    Done,
}

#[derive(Debug)]
pub enum IngestEvent {
    /// A user has answered, or why not.
    Answered(Result<(), String>),
    /// The session was read; so many pages are kept of it.
    Loaded(Result<usize, String>),
    /// The first worktree, and the address of the chat endpoint.
    Placed { worktree_root: Option<String>, chat_api_url: String },
    Ingested(Result<Ingested, IngestFailure>),
}

#[derive(Debug)]
pub enum IngestAction {
    Ask(IngestPermission),
    Load { session_id: String },
    Place,
    /// The pages of the session are indexed.
    IngestSession(IndexPlace),
    /// What is at a path is indexed.
    IngestPath { place: IndexPlace, path: String },
    Finish(Result<RagIngestToolOutput, RagIngestToolOutput>),
    /// The event changes nothing.
    Wait,
}

/// Whether the call has ended with an error.
pub open spec fn ingest_fails(after: IngestCall, action: IngestAction, text: Seq<char>) -> bool {
    &&& after is Done
    &&& action matches IngestAction::Finish(Err(RagIngestToolOutput::Error { error }))
    &&& error@ == text
}

/// Whether the call has ended well, and says so.
pub open spec fn ingest_says(after: IngestCall, action: IngestAction, text: Seq<char>) -> bool {
    &&& after is Done
    &&& action matches IngestAction::Finish(Ok(RagIngestToolOutput::Success { message }))
    &&& message@ == text
}

pub open spec fn ingest_steps(
    before: IngestCall,
    event: IngestEvent,
    after: IngestCall,
    action: IngestAction,
) -> bool {
    match (before, event) {
        (IngestCall::Asking { session_id }, IngestEvent::Answered(Ok(_))) => {
            &&& after == IngestCall::Loading { session_id }
            &&& action == IngestAction::Load { session_id }
        },
        (IngestCall::Asking { .. }, IngestEvent::Answered(Err(e)))
        | (IngestCall::Loading { .. }, IngestEvent::Loaded(Err(e))) => ingest_fails(
            after,
            action,
            e@,
        ),
        (IngestCall::Loading { session_id }, IngestEvent::Loaded(Ok(pages))) => if pages == 0 {
            ingest_says(after, action, no_pages_text(session_id@))
        } else {
            &&& after == IngestCall::PlacingSession { session_id }
            &&& action is Place
        },
        (
            IngestCall::PlacingSession { session_id },
            IngestEvent::Placed { worktree_root, chat_api_url },
        ) => match action {
            IngestAction::IngestSession(place) => {
                &&& is_place(Ok(place), worktree_root, chat_api_url@)
                &&& after == IngestCall::IngestingSession { session_id }
            },
            IngestAction::Finish(Err(RagIngestToolOutput::Error { error })) => {
                &&& is_place(Err(error), worktree_root, chat_api_url@)
                &&& after is Done
            },
            _ => false,
        },
        (
            IngestCall::PlacingPath { path },
            IngestEvent::Placed { worktree_root, chat_api_url },
        ) => match action {
            IngestAction::IngestPath { place, path: at } => {
                &&& is_place(Ok(place), worktree_root, chat_api_url@)
                &&& at@ == resolved(place.worktree_root@, path@)
                &&& after == IngestCall::IngestingPath { path: at }
            },
            IngestAction::Finish(Err(RagIngestToolOutput::Error { error })) => {
                &&& is_place(Err(error), worktree_root, chat_api_url@)
                &&& after is Done
            },
            _ => false,
        },
        (IngestCall::IngestingSession { session_id }, IngestEvent::Ingested(Ok(i))) => {
            ingest_says(after, action, session_ingest_text(i.tally, session_id@, i.total))
        },
        (IngestCall::IngestingPath { path }, IngestEvent::Ingested(Ok(i))) => ingest_says(
            after,
            action,
            ingest_text(i.tally, path@, i.total),
        ),
        (IngestCall::IngestingSession { .. }, IngestEvent::Ingested(Err(failure)))
        | (IngestCall::IngestingPath { .. }, IngestEvent::Ingested(Err(failure))) => ingest_fails(
            after,
            action,
            failure.text(),
        ),
        _ => after == before && action is Wait,
    }
}

fn fail_ingest(error: String) -> (r: (IngestCall, IngestAction))
    ensures
        r.0 is Done,
        r.1 == IngestAction::Finish(Err(RagIngestToolOutput::Error { error })),
{
    (IngestCall::Done, IngestAction::Finish(Err(RagIngestToolOutput::Error { error })))
}

impl IngestCall {
    pub fn start(input: RagIngestToolInput) -> (r: (IngestCall, IngestAction))
        ensures
            match (input.research_session_id, input.path) {
                (Some(id), _) => {
                    &&& r.0 == IngestCall::Asking { session_id: id }
                    &&& r.1 matches IngestAction::Ask(p)
                    &&& asks_to_ingest(p, id@)
                },
                (None, Some(path)) => {
                    &&& r.0 == IngestCall::PlacingPath { path }
                    &&& r.1 is Place
                },
                (None, None) => ingest_fails(r.0, r.1, INGEST_NEEDS_SUBJECT@),
            },
    {
        match RagIngestTool::subject(input) {
            Ok(IngestSubject::Session(id)) => {
                let permission = RagIngestTool::permission(id.as_str());
                (IngestCall::Asking { session_id: id }, IngestAction::Ask(permission))
            },
            Ok(IngestSubject::Path(path)) => {
                (IngestCall::PlacingPath { path }, IngestAction::Place)
            },
            Err(e) => fail_ingest(e),
        }
    }

    pub fn step(self, event: IngestEvent) -> (r: (IngestCall, IngestAction))
        ensures
            ingest_steps(self, event, r.0, r.1),
    {
        match (self, event) {
            (IngestCall::Asking { session_id }, IngestEvent::Answered(Ok(_))) => {
                let id = session_id.clone();
                (IngestCall::Loading { session_id }, IngestAction::Load { session_id: id })
            },
            (IngestCall::Asking { .. }, IngestEvent::Answered(Err(e)))
            | (IngestCall::Loading { .. }, IngestEvent::Loaded(Err(e))) => fail_ingest(e),
            (IngestCall::Loading { session_id }, IngestEvent::Loaded(Ok(pages))) => {
                if pages == 0 {
                    (
                        IngestCall::Done,
                        IngestAction::Finish(Ok(RagIngestTool::no_pages(session_id.as_str()))),
                    )
                } else {
                    (IngestCall::PlacingSession { session_id }, IngestAction::Place)
                }
            },
            (
                IngestCall::PlacingSession { session_id },
                IngestEvent::Placed { worktree_root, chat_api_url },
            ) => match index_place(worktree_root, chat_api_url.as_str()) {
                Ok(place) => (
                    IngestCall::IngestingSession { session_id },
                    IngestAction::IngestSession(place),
                ),
                Err(e) => fail_ingest(e),
            },
            (
                IngestCall::PlacingPath { path },
                IngestEvent::Placed { worktree_root, chat_api_url },
            ) => match index_place(worktree_root, chat_api_url.as_str()) {
                Ok(place) => {
                    let at = RagIngestTool::resolve(place.worktree_root.as_str(), path.as_str());
                    let kept = at.clone();
                    (
                        IngestCall::IngestingPath { path: kept },
                        IngestAction::IngestPath { place, path: at },
                    )
                },
                Err(e) => fail_ingest(e),
            },
            (IngestCall::IngestingSession { session_id }, IngestEvent::Ingested(Ok(i))) => {
                let said = RagIngestTool::session_report(&i.tally, session_id.as_str(), i.total);
                (IngestCall::Done, IngestAction::Finish(Ok(said)))
            },
            (IngestCall::IngestingPath { path }, IngestEvent::Ingested(Ok(i))) => {
                let said = RagIngestTool::report(&i.tally, path.as_str(), i.total);
                (IngestCall::Done, IngestAction::Finish(Ok(said)))
            },
            (IngestCall::IngestingSession { .. }, IngestEvent::Ingested(Err(failure)))
            | (IngestCall::IngestingPath { .. }, IngestEvent::Ingested(Err(failure))) => {
                fail_ingest(failure.message())
            },
            (call, _) => (call, IngestAction::Wait),
        }
    }
}

/// The pages of a session are read, and so indexed, only right after a user has allowed it. A
/// refusal ends the call.
pub proof fn lemma_session_ingest_needs_permission(
    before: IngestCall,
    event: IngestEvent,
    after: IngestCall,
    action: IngestAction,
)
    requires
        ingest_steps(before, event, after, action),
    ensures
        action matches IngestAction::Load { session_id } ==> before == (IngestCall::Asking {
            session_id,
        }) && (event matches IngestEvent::Answered(Ok(_))),
        action is IngestSession ==> before is PlacingSession,
        after is PlacingSession && before !is PlacingSession ==> before is Loading,
        before is Asking ==> (event matches IngestEvent::Answered(Err(e)) ==> ingest_fails(
            after,
            action,
            e@,
        )),
{
}

/// What a call of the tool that searches documents waits for.
#[derive(Debug)]
pub enum SearchCall {
    Placing { query: String, k: usize },
    /// The index is opened.
    Opening { query: String, k: usize, place: IndexPlace },
    Searching,
    Done,
}

#[derive(Debug)]
pub enum SearchCallEvent {
    /// The first worktree, and the address of the chat endpoint.
    Placed { worktree_root: Option<String>, chat_api_url: String },
    /// How many chunks the index holds, if that is known, or why it could not be opened.
    Opened(Result<Option<usize>, String>),
    Found(Result<Vec<FoundPassage>, String>),
}

#[derive(Debug)]
pub enum SearchCallAction {
    Place,
    Open { worktree_root: String },
    Search { query: String, k: usize, place: IndexPlace },
    Finish(Result<RagSearchToolOutput, RagSearchToolOutput>),
    /// The event changes nothing.
    Wait,
}

/// Whether the call has ended with an error.
pub open spec fn search_call_fails(
    after: SearchCall,
    action: SearchCallAction,
    text: Seq<char>,
) -> bool {
    &&& after is Done
    &&& action matches SearchCallAction::Finish(Err(RagSearchToolOutput::Error { error }))
    &&& error@ == text
}

/// Whether the call has ended well, and says so.
pub open spec fn search_call_says(
    after: SearchCall,
    action: SearchCallAction,
    text: Seq<char>,
) -> bool {
    &&& after is Done
    &&& action matches SearchCallAction::Finish(Ok(RagSearchToolOutput::Success { content }))
    &&& content@ == text
}

pub open spec fn search_call_steps(
    before: SearchCall,
    event: SearchCallEvent,
    after: SearchCall,
    action: SearchCallAction,
) -> bool {
    match (before, event) {
        (
            SearchCall::Placing { query, k },
            SearchCallEvent::Placed { worktree_root, chat_api_url },
        ) => match action {
            SearchCallAction::Open { worktree_root: root } => {
                &&& after matches SearchCall::Opening { query: q, k: n, place }
                &&& q == query
                &&& n == k
                &&& is_place(Ok(place), worktree_root, chat_api_url@)
                &&& root == place.worktree_root
            },
            SearchCallAction::Finish(Err(RagSearchToolOutput::Error { error })) => {
                &&& is_place(Err(error), worktree_root, chat_api_url@)
                &&& after is Done
            },
            _ => false,
        },
        (SearchCall::Opening { query, k, place }, SearchCallEvent::Opened(Ok(count))) => {
            if count matches Some(n) && n > 0 {
                &&& after is Searching
                &&& action == SearchCallAction::Search { query, k, place }
            } else {
                search_call_says(after, action, EMPTY_INDEX@)
            }
        },
        (SearchCall::Opening { .. }, SearchCallEvent::Opened(Err(e))) => search_call_fails(
            after,
            action,
            "Failed to open RAG index: "@ + e@,
        ),
        (SearchCall::Searching, SearchCallEvent::Found(Ok(found))) => search_call_says(
            after,
            action,
            found_text(found@),
        ),
        (SearchCall::Searching, SearchCallEvent::Found(Err(e))) => search_call_fails(
            after,
            action,
            "Document search failed: "@ + e@,
        ),
        _ => after == before && action is Wait,
    }
}

fn fail_search(error: String) -> (r: (SearchCall, SearchCallAction))
    ensures
        r.0 is Done,
        r.1 == SearchCallAction::Finish(Err(RagSearchToolOutput::Error { error })),
{
    (SearchCall::Done, SearchCallAction::Finish(Err(RagSearchToolOutput::Error { error })))
}

impl SearchCall {
    pub fn start(input: RagSearchToolInput) -> (r: (SearchCall, SearchCallAction))
        ensures
            r.0 == (SearchCall::Placing {
                query: input.query,
                k: match input.k {
                    Some(k) => k,
                    None => DEFAULT_TOP_K,
                },
            }),
            r.1 is Place,
    {
        let k: usize = RagSearchTool::limit(&input);
        (SearchCall::Placing { query: input.query, k }, SearchCallAction::Place)
    }

    pub fn step(self, event: SearchCallEvent) -> (r: (SearchCall, SearchCallAction))
        ensures
            search_call_steps(self, event, r.0, r.1),
    {
        match (self, event) {
            (
                SearchCall::Placing { query, k },
                SearchCallEvent::Placed { worktree_root, chat_api_url },
            ) => match index_place(worktree_root, chat_api_url.as_str()) {
                Ok(place) => {
                    let worktree_root = place.worktree_root.clone();
                    (
                        SearchCall::Opening { query, k, place },
                        SearchCallAction::Open { worktree_root },
                    )
                },
                Err(e) => fail_search(e),
            },
            (SearchCall::Opening { query, k, place }, SearchCallEvent::Opened(Ok(count))) => {
                let indexed: usize = match count {
                    Some(n) => n,
                    None => 0,
                };
                match RagSearchTool::check(indexed) {
                    Some(said) => (SearchCall::Done, SearchCallAction::Finish(Ok(said))),
                    None => (SearchCall::Searching, SearchCallAction::Search { query, k, place }),
                }
            },
            (SearchCall::Opening { .. }, SearchCallEvent::Opened(Err(e))) => {
                fail_search(IngestFailure::Open(e).message())
            },
            (SearchCall::Searching, SearchCallEvent::Found(Ok(found))) => {
                (SearchCall::Done, SearchCallAction::Finish(Ok(RagSearchTool::report(&found))))
            },
            (SearchCall::Searching, SearchCallEvent::Found(Err(e))) => {
                (
                    SearchCall::Done,
                    SearchCallAction::Finish(Err(RagSearchTool::failed(e.as_str()))),
                )
            },
            (call, _) => (call, SearchCallAction::Wait),
        }
    }
}

/// An index without documents is never searched, so no text is embedded for it.
pub proof fn lemma_empty_index_is_not_searched(
    before: SearchCall,
    event: SearchCallEvent,
    after: SearchCall,
    action: SearchCallAction,
)
    requires
        search_call_steps(before, event, after, action),
        action is Search,
    ensures
        before is Opening,
        event matches SearchCallEvent::Opened(Ok(Some(n))) && n > 0,
{
}

} // verus!
