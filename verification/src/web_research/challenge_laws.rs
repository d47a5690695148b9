//! Which pages are told apart from results: those that ask a visitor for a proof.
use crate::text::{contains, lemma_not_contained, occurs_at};
use crate::web_research::discovery::asks_for_proof;
use crate::web_research::fetch::is_shell;
use vstd::prelude::*;

verus! {

/// What is put between two texts stands in the whole.
pub proof fn lemma_contains_between(a: Seq<char>, p: Seq<char>, b: Seq<char>)
    ensures
        contains(a + p + b, p),
{
    let s = a + p + b;
    let k = a.len() as int;
    assert(s.subrange(k, k + p.len()) =~= p);
    assert(occurs_at(s, p, k));
    lemma_not_contained(s, p);
}

/// A page asks for a proof wherever one of the marks of such pages stands in it, whatever stands
/// around it.
pub proof fn lemma_marks_show_a_challenge(a: Seq<char>, b: Seq<char>)
    ensures
        asks_for_proof(a + "cf-browser-verification"@ + b),
        asks_for_proof(a + "anubis_challenge"@ + b),
        asks_for_proof(a + "challenges.cloudflare.com/turnstile"@ + b),
        asks_for_proof(a + "id=\"turnstile-widget\""@ + b),
        asks_for_proof(a + "unusual traffic"@ + b),
        asks_for_proof(a + "enable javascript and cookies"@ + b),
        contains(b, "captcha"@) ==> asks_for_proof(a + "please solve"@ + b),
        contains(b, "captcha"@) ==> asks_for_proof(a + "turnstile"@ + b),
{
    lemma_contains_between(a, "cf-browser-verification"@, b);
    lemma_contains_between(a, "anubis_challenge"@, b);
    lemma_contains_between(a, "challenges.cloudflare.com/turnstile"@, b);
    lemma_contains_between(a, "id=\"turnstile-widget\""@, b);
    lemma_contains_between(a, "unusual traffic"@, b);
    lemma_contains_between(a, "enable javascript and cookies"@, b);
    lemma_contains_between(a, "please solve"@, b);
    lemma_contains_between(a, "turnstile"@, b);
    if contains(b, "captcha"@) {
        lemma_contains_behind(a + "please solve"@, b, "captcha"@);
        lemma_contains_behind(a + "turnstile"@, b, "captcha"@);
    }
}

proof fn lemma_contains_behind(a: Seq<char>, b: Seq<char>, p: Seq<char>)
    requires
        contains(b, p),
    ensures
        contains(a + b, p),
{
    lemma_not_contained(b, p);
    lemma_not_contained(a + b, p);
    let k = choose|k: int| #[trigger] occurs_at(b, p, k);
    let j = a.len() + k;
    assert((a + b).subrange(j, j + p.len()) =~= b.subrange(k, k + p.len()));
    assert(occurs_at(a + b, p, j));
}

/// A page that speaks neither of such a proof nor of scripts and traffic is none of these; the word
/// captcha alone does not make it one.
pub proof fn lemma_plain_pages_are_no_challenge(page: Seq<char>)
    requires
        !contains(page, "cf-"@),
        !contains(page, "anubis_challenge"@),
        !contains(page, "turnstile"@),
        !contains(page, "unusual traffic"@),
        !contains(page, "enable javascript and cookies"@),
        !contains(page, "g-recaptcha"@),
        !contains(page, "hcaptcha"@),
        !contains(page, "please solve"@),
    ensures
        !asks_for_proof(page),
{
    reveal_strlit("cf-");
    reveal_strlit("cf-browser-verification");
    reveal_strlit("turnstile");
    reveal_strlit("challenges.cloudflare.com/turnstile");
    reveal_strlit("id=\"turnstile-widget\"");
    assert("cf-browser-verification"@.subrange(0, 3) =~= "cf-"@);
    lemma_part_is_absent(page, "cf-browser-verification"@, "cf-"@, 0);
    assert("challenges.cloudflare.com/turnstile"@.subrange(26, 35) =~= "turnstile"@);
    lemma_part_is_absent(page, "challenges.cloudflare.com/turnstile"@, "turnstile"@, 26);
    assert("id=\"turnstile-widget\""@.subrange(4, 13) =~= "turnstile"@);
    lemma_part_is_absent(page, "id=\"turnstile-widget\""@, "turnstile"@, 4);
}

proof fn lemma_part_is_absent(s: Seq<char>, p: Seq<char>, part: Seq<char>, at: int)
    requires
        !contains(s, part),
        0 <= at,
        at + part.len() <= p.len(),
        p.subrange(at, at + part.len()) == part,
    ensures
        !contains(s, p),
{
    lemma_not_contained(s, part);
    lemma_not_contained(s, p);
    assert forall|k: int| !#[trigger] occurs_at(s, p, k) by {
        if occurs_at(s, p, k) {
            let j = k + at;
            assert(s.subrange(j, j + part.len()) =~= s.subrange(k, k + p.len()).subrange(
                at,
                at + part.len(),
            ));
            assert(occurs_at(s, part, j));
        }
    }
}

/// A small page that is only a place for scripts, or one that asks for a browser, is no page to read;
/// a page of some size is, unless it says otherwise.
pub proof fn lemma_shells_are_told_apart(
    content_type: Option<Seq<char>>,
    a: Seq<char>,
    b: Seq<char>,
    size: nat,
)
    ensures
        is_shell(content_type, a + "cf-browser-verification"@ + b, size),
        is_shell(content_type, a + "attention required! | cloudflare"@ + b, size),
        size < 1_500 ==> is_shell(None, a + "id=\"root\""@ + b, size),
        size < 1_500 ==> is_shell(None, a + "id=\"app\""@ + b, size),
        size < 1_500 ==> is_shell(None, a + "data-reactroot"@ + b, size),
        size >= 8_000 && !contains(a, "cf-browser-verification"@) && !contains(
            a,
            "attention required! | cloudflare"@,
        ) ==> !is_shell(content_type, a, size),
{
    lemma_contains_between(a, "cf-browser-verification"@, b);
    lemma_contains_between(a, "attention required! | cloudflare"@, b);
    lemma_contains_between(a, "id=\"root\""@, b);
    lemma_contains_between(a, "id=\"app\""@, b);
    lemma_contains_between(a, "data-reactroot"@, b);
}

} // verus!
