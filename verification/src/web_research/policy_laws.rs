//! Which URLs are contacted, and how often.
use crate::selection::{are_the_wanted, lemma_none_of_none, lemma_one_more};
use crate::text::{ascii_lower, starts_with, trim};
use crate::web_research::browser::{first_true, found_browsers, FoundCommand};
use crate::web_research::rate_limit::{doubled, stretched};
use crate::web_research::url_policy::{
    blocked, blocked_name, blocked_v4, first_blocked, kept_pairs, refusal, with_scheme, Address,
    HostView, PolicyRefusal, Resolution, UrlParts,
};
use vstd::prelude::*;

verus! {

// ---------------------------------------------------------------------------
// Addresses
// ---------------------------------------------------------------------------

/// An address with four octets as one number.
pub open spec fn number(a: int, b: int, c: int, d: int) -> int {
    ((a * 256 + b) * 256 + c) * 256 + d
}

/// Whether an address lies in the network that starts at another and leaves `size` addresses.
pub open spec fn lies_in(n: int, start: int, size: int) -> bool {
    start <= n < start + size
}

/// An address is blocked if and only if it lies in one of the networks that are not public: 0/8,
/// 10/8, 100.64/10, 127/8, 169.254/16, 172.16/12, 192.0.0/24, 192.0.2/24, 192.168/16, 198.18/15,
/// 198.51.100/24, 203.0.113/24, 224/4, and the address of everyone.
pub proof fn lemma_blocked_networks(a: u8, b: u8, c: u8, d: u8)
    ensures
        blocked_v4(a as int, b as int, c as int, d as int) <==> {
            let n = number(a as int, b as int, c as int, d as int);
            ||| lies_in(n, number(0, 0, 0, 0), 0x100_0000)
            ||| lies_in(n, number(10, 0, 0, 0), 0x100_0000)
            ||| lies_in(n, number(100, 64, 0, 0), 0x40_0000)
            ||| lies_in(n, number(127, 0, 0, 0), 0x100_0000)
            ||| lies_in(n, number(169, 254, 0, 0), 0x1_0000)
            ||| lies_in(n, number(172, 16, 0, 0), 0x10_0000)
            ||| lies_in(n, number(192, 0, 0, 0), 0x100)
            ||| lies_in(n, number(192, 0, 2, 0), 0x100)
            ||| lies_in(n, number(192, 168, 0, 0), 0x1_0000)
            ||| lies_in(n, number(198, 18, 0, 0), 0x2_0000)
            ||| lies_in(n, number(198, 51, 100, 0), 0x100)
            ||| lies_in(n, number(203, 0, 113, 0), 0x100)
            ||| lies_in(n, number(224, 0, 0, 0), 0x1000_0000)
            ||| n == number(255, 255, 255, 255)
        },
{
}

/// A name below one that stands for this machine or its network is blocked, however deep.
pub proof fn lemma_local_names_are_blocked(name: Seq<char>)
    ensures
        blocked_name("localhost"@),
        blocked_name(name + ".localhost"@),
        blocked_name(name + ".local"@),
        blocked_name(name + ".internal"@),
{
    assert((name + ".localhost"@).skip(name.len() as int) =~= ".localhost"@);
    assert((name + ".local"@).skip(name.len() as int) =~= ".local"@);
    assert((name + ".internal"@).skip(name.len() as int) =~= ".internal"@);
}

/// A URL of the web with a name that is not blocked is contacted if and only if the name has
/// addresses, and each of them is public.
pub proof fn lemma_names_are_judged_by_their_addresses(
    parts: UrlParts,
    name: Seq<char>,
    resolution: Resolution,
)
    requires
        parts.scheme == "http"@ || parts.scheme == "https"@,
        parts.host == Some(HostView::Domain(name)),
        !blocked_name(ascii_lower(name)),
    ensures
        refusal(parts, resolution) is None <==> (resolution matches Ok(addresses)
            && addresses@.len() > 0 && forall|i: int|
            0 <= i < addresses@.len() ==> !blocked((#[trigger] addresses@[i]).ip)),
{
    if let Ok(addresses) = resolution {
        lemma_first_blocked(addresses@, 0);
    }
}

proof fn lemma_first_blocked(addresses: Seq<Address>, i: int)
    requires
        0 <= i,
    ensures
        first_blocked(addresses, i) is None <==> forall|j: int|
            i <= j < addresses.len() ==> !blocked((#[trigger] addresses[j]).ip),
        first_blocked(addresses, i) matches Some(k) ==> i <= k < addresses.len() && blocked(
            addresses[k].ip,
        ),
    decreases addresses.len() - i,
{
    if i < addresses.len() && !blocked(addresses[i].ip) {
        lemma_first_blocked(addresses, i + 1);
    }
}

/// What is not of the web is never contacted; nor is what has no host.
pub proof fn lemma_only_the_web_is_contacted(parts: UrlParts, resolution: Resolution)
    ensures
        parts.scheme != "http"@ && parts.scheme != "https"@ ==> refusal(parts, resolution) == Some(
            PolicyRefusal::UnsupportedScheme,
        ),
        parts.host is None ==> refusal(parts, resolution) is Some,
        parts.host matches Some(HostView::Ip(ip, _)) ==> (refusal(parts, resolution) is None <==> (
        parts.scheme == "http"@ || parts.scheme == "https"@) && !blocked(ip)),
{
}

/// A URL with a scheme of the web is read as it is; one without is taken to be secure. Blanks around
/// it make no difference.
pub proof fn lemma_scheme_is_kept_or_added(rest: Seq<char>)
    requires
        rest.len() > 0,
        trim(rest) == rest,
    ensures
        with_scheme("https://"@ + rest) == "https://"@ + rest,
        with_scheme("http://"@ + rest) == "http://"@ + rest,
        !starts_with(rest, "https://"@) && !starts_with(rest, "http://"@) ==> with_scheme(rest)
            == "https://"@ + rest,
        with_scheme(seq![' '] + rest) == with_scheme(rest),
{
    reveal_strlit("https://");
    reveal_strlit("http://");
    crate::recall_laws::lemma_solid_ends(rest);
    let a = "https://"@ + rest;
    let b = "http://"@ + rest;
    assert(a[0] == 'h' && b[0] == 'h');
    assert(a.last() == rest.last() && b.last() == rest.last());
    crate::recall_laws::lemma_solid_is_trimmed(a);
    crate::recall_laws::lemma_solid_is_trimmed(b);
    assert(a.take(8) =~= "https://"@);
    assert(b.take(7) =~= "http://"@);
    let fed = seq![' '] + rest;
    assert(fed.skip(1) =~= rest);
    assert(crate::text::trim_start(fed) == crate::text::trim_start(rest));
}

// ---------------------------------------------------------------------------
// Queries
// ---------------------------------------------------------------------------

/// The keys by which visitors are tracked.
pub open spec fn tracking_keys() -> Seq<Seq<char>> {
    seq![
        "utm_source"@,
        "utm_medium"@,
        "utm_campaign"@,
        "utm_term"@,
        "utm_content"@,
        "utm_id"@,
        "fbclid"@,
        "gclid"@,
        "mc_cid"@,
        "mc_eid"@,
        "msclkid"@,
    ]
}

/// Parts of a query that do not track.
pub open spec fn is_meant() -> spec_fn((Seq<char>, Seq<char>)) -> bool {
    |pair: (Seq<char>, Seq<char>)|
        forall|i: int|
            0 <= i < tracking_keys().len() ==> ascii_lower(pair.0) != ascii_lower(
                #[trigger] tracking_keys()[i],
            )
}

pub open spec fn pair_itself() -> spec_fn((Seq<char>, Seq<char>)) -> (Seq<char>, Seq<char>) {
    |pair: (Seq<char>, Seq<char>)| pair
}

/// Of a query all is kept but what tracks, in its order.
pub proof fn lemma_query_is_kept(pairs: Seq<(Seq<char>, Seq<char>)>)
    ensures
        are_the_wanted(kept_pairs(pairs), pairs, is_meant(), pair_itself()),
    decreases pairs.len(),
{
    if pairs.len() == 0 {
        lemma_none_of_none(is_meant(), pair_itself());
        assert(pairs =~= Seq::empty());
    } else {
        let before = pairs.drop_last();
        lemma_query_is_kept(before);
        lemma_one_more(kept_pairs(before), before, is_meant(), pair_itself(), pairs.last());
        assert(before.push(pairs.last()) =~= pairs);
        lemma_tracking(pairs.last().0);
    }
}

proof fn lemma_tracking(key: Seq<char>)
    ensures
        crate::web_research::url_policy::is_tracking(key) == exists|i: int|
            0 <= i < tracking_keys().len() && ascii_lower(key) == ascii_lower(
                #[trigger] tracking_keys()[i],
            ),
{
    let keys = tracking_keys();
    assert(keys[0] == "utm_source"@ && keys[1] == "utm_medium"@ && keys[2] == "utm_campaign"@
        && keys[3] == "utm_term"@ && keys[4] == "utm_content"@ && keys[5] == "utm_id"@ && keys[6]
        == "fbclid"@ && keys[7] == "gclid"@ && keys[8] == "mc_cid"@ && keys[9] == "mc_eid"@
        && keys[10] == "msclkid"@);
}

// ---------------------------------------------------------------------------
// Pace
// ---------------------------------------------------------------------------

/// The delay of a host is doubled with each strike, up to the fourth, and never beyond the limit.
pub proof fn lemma_delay_doubles_with_each_strike(delay: int, max_delay: int, strike: u32)
    requires
        0 <= delay <= max_delay,
        max_delay * 16 <= u128::MAX,
    ensures
        stretched(delay, max_delay, strike) == ({
            let factor = if strike == 0 {
                1int
            } else if strike == 1 {
                2
            } else if strike == 2 {
                4
            } else if strike == 3 {
                8
            } else {
                16
            };
            if delay * factor <= max_delay {
                delay * factor
            } else {
                max_delay
            }
        }),
{
    reveal_with_fuel(doubled, 5);
}

// ---------------------------------------------------------------------------
// Browsers
// ---------------------------------------------------------------------------

pub open spec fn is_installed() -> spec_fn(FoundCommand) -> bool {
    |c: FoundCommand| c.path is Some
}

pub open spec fn its_place() -> spec_fn(FoundCommand) -> (Seq<char>, Seq<char>) {
    |c: FoundCommand| (c.browser@, c.path->0@)
}

/// Every browser whose command is somewhere is found, in its order.
pub proof fn lemma_every_installed_browser_is_found(found: Seq<FoundCommand>)
    ensures
        are_the_wanted(found_browsers(found), found, is_installed(), its_place()),
    decreases found.len(),
{
    let wanted = is_installed();
    let of = its_place();
    if found.len() == 0 {
        lemma_none_of_none(wanted, of);
        assert(found =~= Seq::empty());
    } else {
        let before = found.drop_last();
        lemma_every_installed_browser_is_found(before);
        lemma_one_more(found_browsers(before), before, wanted, of, found.last());
        assert(before.push(found.last()) =~= found);
    }
}

/// The browser that is taken is the first that is there.
pub proof fn lemma_first_browser_is_taken(flags: Seq<bool>, i: int, k: int)
    requires
        0 <= i <= k < flags.len(),
        flags[k],
        forall|j: int| 0 <= j < k ==> !#[trigger] flags[j],
    ensures
        first_true(flags, i) == Some(k),
    decreases k - i,
{
    if i < k {
        assert(!flags[i]);
        lemma_first_browser_is_taken(flags, i + 1, k);
    }
}

} // verus!
