//! A request, one step at a time: what is resolved, sent and read on its way from hop to hop.
use crate::web_research::http::{
    becomes_get, is_canonical, is_redirection, redirect_of, Method, ResponseHead, SafeHttpError,
    SafeHttpOptions, SafeHttpRequest, SafeHttpResponse,
};
use crate::web_research::url_policy::{host_to_resolve, name_of, refusal, Resolution, Url, UrlParts};
use crate::text::opt_text;
use vstd::prelude::*;

verus! {

/// What a request waits for.
#[derive(Debug)]
pub enum HttpHopRun {
    /// The host of the URL that was asked for is resolved.
    Resolving { url: Url, options: SafeHttpOptions },
    /// The host of the next hop is resolved.
    ResolvingHop { request: SafeHttpRequest },
    /// The request is sent to the hop.
    Sending { request: SafeHttpRequest },
    /// The host that a response leads to is resolved.
    ResolvingRedirect { request: SafeHttpRequest, next: Url, status: u16 },
    /// The body of the response is read.
    Reading { request: SafeHttpRequest, head: ResponseHead },
    Done,
}

#[derive(Debug)]
pub enum HttpHopEvent {
    Resolved { resolution: Resolution, cancelled: bool },
    Answered(Result<ResponseHead, SafeHttpError>),
    Read(Result<Vec<u8>, SafeHttpError>),
}

#[derive(Debug)]
pub enum HttpHopAction {
    /// A host is resolved; where there is none, any answer does.
    Resolve { host: Option<String> },
    /// The request is sent as it stands.
    Send,
    /// So much of the body is read at most.
    Read { limit: u64 },
    Finish(Result<SafeHttpResponse, SafeHttpError>),
    /// The event changes nothing.
    Wait,
}

impl HttpHopRun {
    /// No more redirects have been followed than may be, one more byte than is allowed can be asked
    /// for, and what is read is no redirect.
    pub open spec fn wf(&self) -> bool {
        match self {
            HttpHopRun::Resolving { options, .. } => options.max_response_bytes < u64::MAX,
            HttpHopRun::ResolvingHop { request } | HttpHopRun::Sending { request } => {
                &&& request.wf()
                &&& request.max_response_bytes < u64::MAX
            },
            HttpHopRun::Reading { request, head } => {
                &&& request.wf()
                &&& request.max_response_bytes < u64::MAX
                &&& !is_redirection(head.status)
            },
            HttpHopRun::ResolvingRedirect { request, .. } => {
                &&& request.redirects < request.max_redirects
                &&& request.max_response_bytes < u64::MAX
            },
            HttpHopRun::Done => true,
        }
    }
}

/// Whether `request` sets out for a URL.
pub open spec fn sets_out(
    request: SafeHttpRequest,
    url: UrlParts,
    options: SafeHttpOptions,
) -> bool {
    &&& is_canonical(request.current@, url)
    &&& request.redirects == 0
    &&& request.method == options.method
    &&& request.body == options.body
    &&& request.max_redirects == options.max_redirects
    &&& request.max_response_bytes == options.max_response_bytes
}

/// Whether `after` is `before`, sent on to another URL.
pub open spec fn is_sent_on(
    before: SafeHttpRequest,
    after: SafeHttpRequest,
    next: UrlParts,
    status: u16,
) -> bool {
    &&& is_canonical(after.current@, next)
    &&& after.redirects == before.redirects + 1
    &&& after.max_redirects == before.max_redirects
    &&& after.max_response_bytes == before.max_response_bytes
    &&& if becomes_get(status, before.method) {
        after.method == Method::Get && after.body is None
    } else {
        after.method == before.method && after.body == before.body
    }
}

/// Whether a host is asked for that tells whether a URL may be contacted.
pub open spec fn resolves(action: HttpHopAction, url: UrlParts) -> bool {
    action matches HttpHopAction::Resolve { host } && opt_text(host) == name_of(url)
}

/// Whether the request has ended because a URL may not be contacted.
pub open spec fn is_blocked_end(
    after: HttpHopRun,
    action: HttpHopAction,
    text: Seq<char>,
) -> bool {
    &&& after is Done
    &&& action matches HttpHopAction::Finish(Err(SafeHttpError::SsrfBlocked(m)))
    &&& m@ == text
}

/// Whether one step leads from `before` to `after`.
pub open spec fn hop_steps(
    before: HttpHopRun,
    event: HttpHopEvent,
    after: HttpHopRun,
    action: HttpHopAction,
) -> bool {
    match (before, event) {
        (HttpHopRun::Resolving { url, options }, HttpHopEvent::Resolved { resolution, .. }) => {
            match refusal(url@, resolution) {
                Some(w) => is_blocked_end(after, action, w.text()),
                None => {
                    &&& after matches HttpHopRun::ResolvingHop { request }
                    &&& sets_out(request, url@, options)
                    &&& resolves(action, request.current@)
                },
            }
        },
        (
            HttpHopRun::ResolvingHop { request },
            HttpHopEvent::Resolved { resolution, cancelled },
        ) => if cancelled {
            &&& after is Done
            &&& action matches HttpHopAction::Finish(Err(SafeHttpError::Cancelled))
        } else {
            match refusal(request.current@, resolution) {
                Some(w) => is_blocked_end(after, action, w.text()),
                None => after == (HttpHopRun::Sending { request }) && action is Send,
            }
        },
        (HttpHopRun::Sending { request }, HttpHopEvent::Answered(Ok(head))) => {
            if !is_redirection(head.status) {
                &&& after == HttpHopRun::Reading { request, head }
                &&& action == HttpHopAction::Read {
                    limit: (request.max_response_bytes + 1) as u64,
                }
            } else {
                match redirect_of(
                    request.current@.text,
                    head.location,
                    request.redirects,
                    request.max_redirects,
                ) {
                    Err(e) => {
                        &&& after is Done
                        &&& action matches HttpHopAction::Finish(Err(SafeHttpError::Other(m)))
                        &&& m@ == e
                    },
                    Ok(target) => {
                        &&& after matches HttpHopRun::ResolvingRedirect {
                            request: q,
                            next,
                            status,
                        }
                        &&& q == request
                        &&& next@ == target
                        &&& status == head.status
                        &&& resolves(action, next@)
                    },
                }
            }
        },
        (
            HttpHopRun::ResolvingRedirect { request, next, status },
            HttpHopEvent::Resolved { resolution, .. },
        ) => match refusal(next@, resolution) {
            Some(w) => is_blocked_end(after, action, "redirect to blocked URL: "@ + w.text()),
            None => {
                &&& after matches HttpHopRun::ResolvingHop { request: q }
                &&& is_sent_on(request, q, next@, status)
                &&& resolves(action, q.current@)
            },
        },
        (HttpHopRun::Reading { request, head }, HttpHopEvent::Read(Ok(body))) => {
            &&& after is Done
            &&& if body@.len() > request.max_response_bytes {
                &&& action matches HttpHopAction::Finish(Err(SafeHttpError::ResponseTooLarge(n)))
                &&& n == request.max_response_bytes
            } else {
                action == HttpHopAction::Finish(
                    Ok(
                        SafeHttpResponse {
                            status: head.status,
                            content_type: head.content_type,
                            headers: head.headers,
                            body,
                            final_url: request.current,
                        },
                    ),
                )
            }
        },
        (HttpHopRun::Sending { .. }, HttpHopEvent::Answered(Err(e)))
        | (HttpHopRun::Reading { .. }, HttpHopEvent::Read(Err(e))) => {
            &&& after is Done
            &&& action == HttpHopAction::Finish(Err(e))
        },
        _ => after == before && action is Wait,
    }
}

fn fail(error: SafeHttpError) -> (r: (HttpHopRun, HttpHopAction))
    ensures
        r.0 is Done,
        r.1 == HttpHopAction::Finish(Err(error)),
{
    (HttpHopRun::Done, HttpHopAction::Finish(Err(error)))
}

impl HttpHopRun {
    pub fn start(url: Url, options: SafeHttpOptions) -> (r: (HttpHopRun, HttpHopAction))
        requires
            options.max_response_bytes < u64::MAX,
        ensures
            r.0.wf(),
            r.0 == (HttpHopRun::Resolving { url, options }),
            resolves(r.1, url@),
    {
        let host = host_to_resolve(&url);
        (HttpHopRun::Resolving { url, options }, HttpHopAction::Resolve { host })
    }

    pub fn step(self, event: HttpHopEvent) -> (r: (HttpHopRun, HttpHopAction))
        requires
            self.wf(),
        ensures
            r.0.wf(),
            hop_steps(self, event, r.0, r.1),
    {
        match (self, event) {
            (HttpHopRun::Resolving { url, options }, HttpHopEvent::Resolved { resolution, .. }) => {
                match SafeHttpRequest::start(&url, options, &resolution) {
                    Err(e) => fail(e),
                    Ok(request) => {
                        let host = host_to_resolve(&request.current);
                        (HttpHopRun::ResolvingHop { request }, HttpHopAction::Resolve { host })
                    },
                }
            },
            (
                HttpHopRun::ResolvingHop { request },
                HttpHopEvent::Resolved { resolution, cancelled },
            ) => match request.check_hop(cancelled, &resolution) {
                Err(e) => {
                    proof {
                        if !cancelled {
                            let w = refusal(request.current@, resolution)->0;
                            assert(Seq::<char>::empty() + w.text() =~= w.text());
                        }
                    }
                    fail(e)
                },
                Ok(()) => (HttpHopRun::Sending { request }, HttpHopAction::Send),
            },
            (HttpHopRun::Sending { request }, HttpHopEvent::Answered(Ok(head))) => {
                match request.redirect_target(&head) {
                    Err(e) => fail(e),
                    Ok(None) => {
                        let limit: u64 = request.read_limit();
                        (HttpHopRun::Reading { request, head }, HttpHopAction::Read { limit })
                    },
                    Ok(Some(next)) => {
                        let host = host_to_resolve(&next);
                        let status: u16 = head.status;
                        (
                            HttpHopRun::ResolvingRedirect { request, next, status },
                            HttpHopAction::Resolve { host },
                        )
                    },
                }
            },
            (
                HttpHopRun::ResolvingRedirect { request, next, status },
                HttpHopEvent::Resolved { resolution, .. },
            ) => {
                let mut request = request;
                match request.follow(&next, status, &resolution) {
                    Err(e) => fail(e),
                    Ok(()) => {
                        let host = host_to_resolve(&request.current);
                        (HttpHopRun::ResolvingHop { request }, HttpHopAction::Resolve { host })
                    },
                }
            },
            (HttpHopRun::Reading { request, head }, HttpHopEvent::Read(Ok(body))) => {
                (HttpHopRun::Done, HttpHopAction::Finish(request.accept(head, body)))
            },
            (HttpHopRun::Sending { .. }, HttpHopEvent::Answered(Err(e)))
            | (HttpHopRun::Reading { .. }, HttpHopEvent::Read(Err(e))) => fail(e),
            (run, _) => (run, HttpHopAction::Wait),
        }
    }
}

/// A request is sent only to a URL that was just found to lead to public addresses.
pub proof fn lemma_every_hop_is_public(
    before: HttpHopRun,
    event: HttpHopEvent,
    after: HttpHopRun,
    action: HttpHopAction,
)
    requires
        hop_steps(before, event, after, action),
        action is Send,
    ensures
        after matches HttpHopRun::Sending { request } && (event matches HttpHopEvent::Resolved {
            resolution,
            cancelled,
        } && !cancelled && refusal(request.current@, resolution) is None),
{
}

/// A response is what the last hop gave. It sends nowhere else, and it is never larger than was
/// allowed.
pub proof fn lemma_responses_are_bounded(
    before: HttpHopRun,
    event: HttpHopEvent,
    after: HttpHopRun,
    response: SafeHttpResponse,
)
    requires
        before.wf(),
        hop_steps(before, event, after, HttpHopAction::Finish(Ok(response))),
    ensures
        !is_redirection(response.status),
        before matches HttpHopRun::Reading { request, .. } && response.final_url == request.current
            && response.body@.len() <= request.max_response_bytes,
{
}

/// How many redirects a request may still follow.
pub open spec fn redirects_left(run: HttpHopRun) -> int {
    match run {
        HttpHopRun::Resolving { options, .. } => options.max_redirects as int,
        HttpHopRun::ResolvingHop { request }
        | HttpHopRun::Sending { request }
        | HttpHopRun::Reading { request, .. }
        | HttpHopRun::ResolvingRedirect { request, .. } => request.max_redirects
            - request.redirects,
        HttpHopRun::Done => 0,
    }
}

/// A request never gains redirects, loses one with each that it follows, and follows none once
/// there is none left.
pub proof fn lemma_redirects_run_out(
    before: HttpHopRun,
    event: HttpHopEvent,
    after: HttpHopRun,
    action: HttpHopAction,
)
    requires
        before.wf(),
        after.wf(),
        hop_steps(before, event, after, action),
    ensures
        0 <= redirects_left(after) <= redirects_left(before),
        before is ResolvingRedirect && after is ResolvingHop ==> redirects_left(after)
            == redirects_left(before) - 1,
        after is ResolvingRedirect ==> redirects_left(after) > 0,
{
}

} // verus!
