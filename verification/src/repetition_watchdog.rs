//! Detects a model that keeps writing the same block of text.
use crate::text::{char_len_utf8, is_whitespace, max_usize, min_usize};
use std::collections::VecDeque;
use vstd::arithmetic::div_mod::{
    lemma_add_mod_noop, lemma_fundamental_div_mod, lemma_mul_mod_noop, lemma_mul_mod_noop_left,
    lemma_small_mod, lemma_sub_mod_noop,
};
use vstd::prelude::*;

verus! {

pub const ROLLING_WINDOW_CHARS: usize = 16384;

const HASH_BASE: u64 = 1_099_511_628_211;

#[derive(Clone, Copy, Debug, PartialEq, Eq)]
pub struct RepetitionWatchdogConfig {
    pub min_block_chars: usize,
    pub max_block_chars: usize,
    pub min_repeats: usize,
    pub min_text_chars_before_trip: usize,
}

#[derive(Clone, Copy, Debug, PartialEq, Eq)]
pub struct RepetitionTrip {
    pub cutoff_byte_index: usize,
    pub cutoff_char_index: usize,
    pub block_char_count: usize,
    pub repeat_count: usize,
    pub accepted_text_char_count: usize,
}

#[derive(Clone, Copy, Debug)]
pub struct ObservedChar {
    pub value: char,
    pub byte_index: usize,
    pub char_index: usize,
}

/// What a watchdog knows: its configuration, the text that it has received
/// since it was made or reset, and whether it has tripped on it.
pub struct WatchdogState {
    pub config: RepetitionWatchdogConfig,
    pub received: Seq<char>,
    pub tripped: bool,
}

pub struct RepetitionWatchdog {
    config: RepetitionWatchdogConfig,
    pub chars: VecDeque<ObservedChar>,
    total_bytes: usize,
    total_chars: usize,
    tripped: bool,
    received: Ghost<Seq<char>>,
}

/// The part of the text that the watchdog still looks at.
pub open spec fn window(text: Seq<char>) -> Seq<char> {
    if text.len() <= ROLLING_WINDOW_CHARS {
        text
    } else {
        text.skip(text.len() - ROLLING_WINDOW_CHARS)
    }
}

/// `n` copies of a block, one behind the other.
pub open spec fn copies(block: Seq<char>, n: nat) -> Seq<char>
    decreases n,
{
    if n == 0 {
        Seq::empty()
    } else {
        block + copies(block, (n - 1) as nat)
    }
}

/// Whether `w` ends in `n` copies of its last `period` characters.
pub open spec fn ends_in_copies(w: Seq<char>, period: int, n: int) -> bool {
    &&& 0 <= n * period <= w.len()
    &&& w.skip(w.len() - n * period) == copies(w.skip(w.len() - period), n as nat)
}

/// Whether `n` is how many copies of its last `period` characters `w` ends in.
pub open spec fn is_copy_count(w: Seq<char>, period: int, n: int) -> bool {
    &&& ends_in_copies(w, period, n)
    &&& forall|m: int| m > n ==> !#[trigger] ends_in_copies(w, period, m)
}

pub open spec fn all_whitespace(s: Seq<char>) -> bool {
    forall|i: int| 0 <= i < s.len() ==> crate::text::is_ws(#[trigger] s[i])
}

/// Whether blocks of `period` characters make the watchdog trip.
pub open spec fn trips_at(config: RepetitionWatchdogConfig, w: Seq<char>, period: int) -> bool {
    &&& config.min_block_chars <= period <= config.max_block_chars
    &&& ends_in_copies(w, period, config.min_repeats as int)
    &&& !all_whitespace(w.skip(w.len() - period))
}

/// A count as far as a machine word holds it.
pub open spec fn capped(n: int) -> int {
    if n <= usize::MAX {
        n
    } else {
        usize::MAX as int
    }
}

/// What is reported once blocks of `period` characters have been found at the end of `text`:
/// everything from the second occurrence on is to be cut. A place that no machine word holds is
/// given as the largest one.
pub open spec fn is_trip_for(text: Seq<char>, period: int, trip: RepetitionTrip) -> bool {
    let second = text.len() - trip.repeat_count * period + period;
    &&& trip.block_char_count == period
    &&& is_copy_count(window(text), period, trip.repeat_count as int)
    &&& trip.accepted_text_char_count == capped(text.len() as int)
    &&& trip.cutoff_char_index == capped(second)
    &&& trip.cutoff_byte_index == capped(crate::text::utf8_len(text.take(second)) as int)
}

/// What is reported on `text` as a whole: the shortest tripping period decides.
pub open spec fn is_report(
    config: RepetitionWatchdogConfig,
    text: Seq<char>,
    report: Option<RepetitionTrip>,
) -> bool {
    match report {
        Some(trip) => {
            &&& text.len() >= config.min_text_chars_before_trip
            &&& trips_at(config, window(text), trip.block_char_count as int)
            &&& is_trip_for(text, trip.block_char_count as int, trip)
            &&& forall|p: int|
                p < trip.block_char_count ==> !#[trigger] trips_at(config, window(text), p)
        },
        None => {
            ||| text.len() < config.min_text_chars_before_trip
            ||| forall|p: int| !#[trigger] trips_at(config, window(text), p)
        },
    }
}

/// What is reported depends on the text that was received, and not on the pieces in which it came.
pub proof fn lemma_report_is_determined(
    config: RepetitionWatchdogConfig,
    text: Seq<char>,
    a: Option<RepetitionTrip>,
    b: Option<RepetitionTrip>,
)
    requires
        is_report(config, text, a),
        is_report(config, text, b),
    ensures
        a == b,
{
    match (a, b) {
        (Some(x), Some(y)) => {
            let period = x.block_char_count as int;
            assert(trips_at(config, window(text), x.block_char_count as int));
            assert(trips_at(config, window(text), y.block_char_count as int));
            assert(ends_in_copies(window(text), period, x.repeat_count as int));
            assert(ends_in_copies(window(text), period, y.repeat_count as int));
        },
        (Some(x), None) => {
            assert(trips_at(config, window(text), x.block_char_count as int));
        },
        (None, Some(y)) => {
            assert(trips_at(config, window(text), y.block_char_count as int));
        },
        _ => {},
    }
}

proof fn lemma_chars_take_bytes(s: Seq<char>)
    ensures
        s.len() <= crate::text::utf8_len(s),
    decreases s.len(),
{
    if s.len() > 0 {
        lemma_chars_take_bytes(s.drop_last());
    }
}

/// Where the watchdog says that a text is to be cut, one copy of the block is kept: what is cut off
/// is the other copies, and nothing else. The text is no longer than a machine word can say.
pub proof fn lemma_one_copy_is_kept(
    config: RepetitionWatchdogConfig,
    text: Seq<char>,
    trip: RepetitionTrip,
)
    requires
        is_report(config, text, Some(trip)),
        config.min_block_chars >= 1,
        config.min_repeats >= 2,
        crate::text::utf8_len(text) <= usize::MAX,
    ensures
        ({
            let block = text.skip(text.len() - trip.block_char_count);
            let kept = text.take(trip.cutoff_char_index as int);
            &&& text == kept + copies(block, (trip.repeat_count - 1) as nat)
            &&& kept.len() >= block.len()
            &&& kept.skip(kept.len() - block.len()) == block
            &&& crate::text::utf8_len(kept) == trip.cutoff_byte_index
            &&& trip.repeat_count >= config.min_repeats
        }),
{
    let w = window(text);
    let p = trip.block_char_count as int;
    let r = trip.repeat_count as int;
    if r < config.min_repeats {
        assert(ends_in_copies(w, p, config.min_repeats as int));
    }
    assert(r * p >= 2 * p) by (nonlinear_arith)
        requires
            r >= 2,
            p >= 1,
    ;
    let block = text.skip(text.len() - p);
    let rest = copies(block, (r - 1) as nat);
    let second = text.len() - r * p + p;
    assert(w.skip(w.len() - p) =~= block);
    assert(w.skip(w.len() - r * p) =~= text.skip(text.len() - r * p));
    assert(text.skip(text.len() - r * p) == block + rest);
    lemma_chars_take_bytes(text);
    crate::text::lemma_utf8_len_take(text, second);
    let kept = text.take(second);
    let tail = text.skip(text.len() - r * p);
    assert(text.skip(second) =~= tail.skip(p));
    assert(tail.skip(p) =~= rest);
    assert(text =~= kept + text.skip(second));
    assert(kept.skip(kept.len() - p) =~= tail.take(p));
    assert(tail.take(p) =~= block);
}

/// Text that goes on in copies of a block is reported: one that is not blank, neither too short nor too
/// long, stands often enough at the end of a text that is long enough, and in reach. What is reported
/// is no longer than that block.
pub proof fn lemma_copies_are_reported(
    config: RepetitionWatchdogConfig,
    before: Seq<char>,
    block: Seq<char>,
    report: Option<RepetitionTrip>,
)
    requires
        ({
            let n = config.min_repeats as int;
            let text = before + copies(block, n as nat);
            &&& is_report(config, text, report)
            &&& text.len() >= config.min_text_chars_before_trip
            &&& 0 < config.min_block_chars <= block.len() <= config.max_block_chars
            &&& n > 0
            &&& n * block.len() <= ROLLING_WINDOW_CHARS
            &&& !all_whitespace(block)
        }),
    ensures
        report matches Some(trip) && trip.block_char_count <= block.len(),
{
    let n = config.min_repeats as int;
    let p = block.len() as int;
    let tail = copies(block, n as nat);
    let text = before + tail;
    let w = window(text);
    lemma_copies_len(block, n as nat);
    assert(n * p >= p) by (nonlinear_arith)
        requires
            n >= 1,
            p >= 0,
    ;
    assert(w.skip(w.len() - n * p) =~= tail);
    lemma_last_copy(block, n as nat);
    assert(w.skip(w.len() - p) =~= tail.skip(tail.len() - p));
    assert(trips_at(config, w, p));
}

proof fn lemma_copies_len(block: Seq<char>, n: nat)
    ensures
        copies(block, n).len() == n * block.len(),
    decreases n,
{
    if n > 0 {
        lemma_copies_len(block, (n - 1) as nat);
        assert(n * block.len() == (n - 1) * block.len() + block.len()) by (nonlinear_arith);
    } else {
        assert(n * block.len() == 0) by (nonlinear_arith)
            requires
                n == 0,
        ;
    }
}

proof fn lemma_last_copy(block: Seq<char>, n: nat)
    requires
        n > 0,
    ensures
        copies(block, n).len() >= block.len(),
        copies(block, n).skip(copies(block, n).len() - block.len()) == block,
    decreases n,
{
    let rest = copies(block, (n - 1) as nat);
    let all = copies(block, n);
    assert(all == block + rest);
    if n == 1 {
        assert(all =~= block);
        assert(all.skip(0) =~= block);
    } else {
        lemma_last_copy(block, (n - 1) as nat);
        assert(all.skip(all.len() - block.len()) =~= rest.skip(rest.len() - block.len()));
    }
}

/// The configuration that a watchdog works with: at least two repeats of at least one
/// character, and no block that would not fit the window that often.
pub open spec fn normalized_config(config: RepetitionWatchdogConfig) -> RepetitionWatchdogConfig {
    let min_repeats = if config.min_repeats >= 2 {
        config.min_repeats
    } else {
        2
    };
    let min_block_chars = if config.min_block_chars >= 1 {
        config.min_block_chars
    } else {
        1
    };
    let wanted = if config.max_block_chars >= min_block_chars {
        config.max_block_chars
    } else {
        min_block_chars
    };
    let fitting = ROLLING_WINDOW_CHARS / min_repeats;
    RepetitionWatchdogConfig {
        min_block_chars,
        max_block_chars: if wanted <= fitting {
            wanted
        } else {
            fitting
        },
        min_repeats,
        min_text_chars_before_trip: config.min_text_chars_before_trip,
    }
}

/// The polynomial hash of `s`, before it is reduced to a machine word.
spec fn polynomial(s: Seq<char>) -> int
    decreases s.len(),
{
    if s.len() == 0 {
        0
    } else {
        polynomial(s.drop_last()) * HASH_BASE + (s.last() as u64 + 1)
    }
}

spec fn base_power(n: nat) -> int
    decreases n,
{
    if n == 0 {
        1
    } else {
        base_power((n - 1) as nat) * HASH_BASE
    }
}

proof fn lemma_polynomial_concat(a: Seq<char>, b: Seq<char>)
    ensures
        polynomial(a + b) == polynomial(a) * base_power(b.len()) + polynomial(b),
    decreases b.len(),
{
    if b.len() == 0 {
        assert(a + b =~= a);
        assert(base_power(0) == 1);
    } else {
        let t = b.drop_last();
        lemma_polynomial_concat(a, t);
        assert((a + b).drop_last() =~= a + t);
        let x = polynomial(a);
        let y = base_power(t.len());
        let z = polynomial(t);
        let c = b.last() as u64 + 1;
        let h = HASH_BASE as int;
        assert((x * y + z) * h + c == x * (y * h) + (z * h + c)) by (nonlinear_arith);
    }
}

/// The machine word that stands for `n`.
spec fn word(n: int) -> int {
    n % 0x1_0000_0000_0000_0000
}

proof fn lemma_word_mul(x: int, y: int)
    ensures
        word(word(x) * word(y)) == word(x * y),
        word(word(x) * y) == word(x * y),
{
    let m = 0x1_0000_0000_0000_0000int;
    lemma_mul_mod_noop(x, y, m);
    lemma_mul_mod_noop_left(x, y, m);
}

proof fn lemma_word_add(x: int, y: int)
    ensures
        word(word(x) + y) == word(x + y),
{
    lemma_add_mod_noop(x, y, 0x1_0000_0000_0000_0000int);
    lemma_add_mod_noop(word(x), y, 0x1_0000_0000_0000_0000int);
    assert(word(word(x)) == word(x)) by {
        lemma_small_mod(word(x) as nat, 0x1_0000_0000_0000_0000nat);
    }
}

proof fn lemma_word_sub(x: int, y: int)
    ensures
        word(word(x) - word(y)) == word(x - y),
{
    lemma_sub_mod_noop(x, y, 0x1_0000_0000_0000_0000int);
}

/// Whether the `r` + 1-th block of `period` characters, counted from the end, equals the last one.
spec fn block_repeats(w: Seq<char>, period: int, r: int) -> bool {
    &&& (r + 1) * period <= w.len()
    &&& w.subrange(w.len() - (r + 1) * period, w.len() - r * period) == w.subrange(
        w.len() - period,
        w.len() as int,
    )
}

/// `r`, or the first number above it whose block differs from the last one.
spec fn repeats_from(w: Seq<char>, period: int, r: int) -> int
    decreases w.len() - r * period,
    when period > 0
    via repeats_from_decreases
{
    if block_repeats(w, period, r) {
        repeats_from(w, period, r + 1)
    } else {
        r
    }
}

#[via_fn]
proof fn repeats_from_decreases(w: Seq<char>, period: int, r: int) {
    assert((r + 1) * period == r * period + period) by (nonlinear_arith);
}

/// How often the last `period` characters stand at the end, in a row.
spec fn repeats(w: Seq<char>, period: int) -> int {
    repeats_from(w, period, 1)
}

proof fn lemma_one_copy(w: Seq<char>, period: int)
    requires
        0 < period <= w.len(),
    ensures
        ends_in_copies(w, period, 1),
{
    let block = w.skip(w.len() - period);
    assert(copies(block, 0) =~= Seq::<char>::empty());
    assert(block + copies(block, 0) =~= block);
}

/// One copy more at the end is one block more that equals the last one.
proof fn lemma_one_copy_more(w: Seq<char>, period: int, n: int)
    requires
        0 < period <= w.len(),
        1 <= n,
    ensures
        ends_in_copies(w, period, n + 1) == (ends_in_copies(w, period, n) && block_repeats(
            w,
            period,
            n,
        )),
{
    assert((n + 1) * period == n * period + period && n * period >= period) by (nonlinear_arith)
        requires
            period > 0,
            n >= 1,
    ;
    if (n + 1) * period <= w.len() {
        let block = w.skip(w.len() - period);
        let all = w.skip(w.len() - (n + 1) * period);
        let front = w.subrange(w.len() - (n + 1) * period, w.len() - n * period);
        let rest = w.skip(w.len() - n * period);
        assert(block =~= w.subrange(w.len() - period, w.len() as int));
        assert(all =~= front + rest);
        assert(copies(block, (n + 1) as nat) == block + copies(block, n as nat));
        if all == block + copies(block, n as nat) {
            assert(front =~= all.take(period));
            assert(block =~= (block + copies(block, n as nat)).take(period));
            assert(rest =~= all.skip(period));
            assert(copies(block, n as nat) =~= (block + copies(block, n as nat)).skip(period));
        }
    }
}

proof fn lemma_fewer_copies(w: Seq<char>, period: int, m: int, n: int)
    requires
        0 < period <= w.len(),
        1 <= m <= n,
        ends_in_copies(w, period, n),
    ensures
        ends_in_copies(w, period, m),
    decreases n - m,
{
    if m < n {
        lemma_one_copy_more(w, period, n - 1);
        lemma_fewer_copies(w, period, m, n - 1);
    }
}

proof fn lemma_copies_are_repeats(w: Seq<char>, period: int, r: int, n: int)
    requires
        0 < period <= w.len(),
        1 <= r <= n,
        ends_in_copies(w, period, r),
    ensures
        ends_in_copies(w, period, n) == (repeats_from(w, period, r) >= n),
    decreases n - r,
{
    if r == n {
        lemma_repeats_at_least(w, period, r);
    } else {
        lemma_one_copy_more(w, period, r);
        if block_repeats(w, period, r) {
            lemma_copies_are_repeats(w, period, r + 1, n);
        } else if ends_in_copies(w, period, n) {
            lemma_fewer_copies(w, period, r + 1, n);
        }
    }
}

/// The repeats that are counted are the copies that the text ends in.
proof fn lemma_repeats_are_the_copy_count(w: Seq<char>, period: int)
    requires
        0 < period <= w.len(),
    ensures
        repeats(w, period) >= 1,
        is_copy_count(w, period, repeats(w, period)),
        forall|n: int| 1 <= n ==> (#[trigger] ends_in_copies(w, period, n) <==> repeats(w, period)
            >= n),
{
    lemma_one_copy(w, period);
    lemma_repeats_at_least(w, period, 1);
    assert forall|n: int| 1 <= n implies (#[trigger] ends_in_copies(w, period, n) <==> repeats(
        w,
        period,
    ) >= n) by {
        lemma_copies_are_repeats(w, period, 1, n);
    }
}

proof fn lemma_whitespace_of_copies(block: Seq<char>, n: nat)
    requires
        n >= 1,
    ensures
        all_whitespace(copies(block, n)) == all_whitespace(block),
    decreases n,
{
    let rest = copies(block, (n - 1) as nat);
    let all = block + rest;
    assert(all == copies(block, n));
    if n == 1 {
        assert(all =~= block);
    } else {
        lemma_whitespace_of_copies(block, (n - 1) as nat);
        if all_whitespace(all) {
            assert forall|i: int| 0 <= i < block.len() implies crate::text::is_ws(
                #[trigger] block[i],
            ) by {
                assert(all[i] == block[i]);
            }
        }
        if all_whitespace(block) {
            assert forall|i: int| 0 <= i < all.len() implies crate::text::is_ws(
                #[trigger] all[i],
            ) by {
                if i < block.len() {
                    assert(all[i] == block[i]);
                } else {
                    assert(all[i] == rest[i - block.len()]);
                }
            }
        }
    }
}

proof fn lemma_repeats_at_least(w: Seq<char>, period: int, r: int)
    requires
        period > 0,
    ensures
        repeats_from(w, period, r) >= r,
        r * period <= w.len() ==> repeats_from(w, period, r) * period <= w.len(),
    decreases w.len() - r * period,
{
    if block_repeats(w, period, r) {
        assert((r + 1) * period == r * period + period) by (nonlinear_arith);
        lemma_repeats_at_least(w, period, r + 1);
    }
}

proof fn lemma_le_quotient(p: int, n: int, m: int)
    requires
        m > 0,
    ensures
        (p * m <= n) == (p <= n / m),
        (n / m) * m <= n < (n / m + 1) * m,
{
    lemma_fundamental_div_mod(n, m);
    let q = n / m;
    let r = n % m;
    assert((p * m <= n) == (p <= q) && q * m <= n < (q + 1) * m) by (nonlinear_arith)
        requires
            n == m * q + r,
            0 <= r < m,
    ;
}

fn normalize_char(value: char) -> (r: char)
    ensures
        r == value,
{
    value
}

/// The hash of the characters `start..end`, from the hashes of the prefixes.
fn range_hash(prefix_hashes: &Vec<u64>, powers: &Vec<u64>, start: usize, end: usize) -> (r: u64)
    requires
        start <= end < prefix_hashes@.len(),
        prefix_hashes@.len() == powers@.len(),
    ensures
        r == prefix_hashes@[end as int].wrapping_sub(
            prefix_hashes@[start as int].wrapping_mul(powers@[end - start]),
        ),
{
    prefix_hashes[end].wrapping_sub(prefix_hashes[start].wrapping_mul(powers[end - start]))
}

spec fn values(s: Seq<ObservedChar>) -> Seq<char> {
    s.map_values(|o: ObservedChar| o.value)
}

/// Whether the `count` characters at `left` are those at `right`.
fn same_chars(chars: &Vec<ObservedChar>, left: usize, right: usize, count: usize) -> (r: bool)
    requires
        left + count <= chars@.len(),
        right + count <= chars@.len(),
    ensures
        r == (values(chars@).subrange(left as int, left + count) == values(chars@).subrange(
            right as int,
            right + count,
        )),
{
    let ghost l = values(chars@).subrange(left as int, left + count);
    let ghost m = values(chars@).subrange(right as int, right + count);
    let len: usize = chars.len();
    let mut i: usize = 0;
    while i < count
        invariant
            i <= count,
            len == chars@.len(),
            left + count <= chars@.len(),
            right + count <= chars@.len(),
            l == values(chars@).subrange(left as int, left + count),
            m == values(chars@).subrange(right as int, right + count),
            forall|j: int| 0 <= j < i ==> l[j] == m[j],
        decreases count - i,
    {
        if chars[left + i].value != chars[right + i].value {
            assert(l[i as int] != m[i as int]);
            return false;
        }
        i = i + 1;
    }
    assert(l =~= m);
    true
}

proof fn lemma_range_hash(prefix: Seq<char>, block: Seq<char>, whole: u64, before: u64, power: u64)
    requires
        whole == word(polynomial(prefix + block)),
        before == word(polynomial(prefix)),
        power == word(base_power(block.len())),
    ensures
        whole.wrapping_sub(before.wrapping_mul(power)) == word(polynomial(block)),
{
    lemma_polynomial_concat(prefix, block);
    let p = polynomial(prefix);
    let b = base_power(block.len());
    let q = polynomial(block);
    lemma_word_mul(p, b);
    assert(before.wrapping_mul(power) == word(p * b));
    lemma_word_sub(p * b + q, p * b);
    assert(p * b + q - p * b == q);
    let d = before.wrapping_mul(power);
    assert(whole.wrapping_sub(d) == word(whole - d));
}

impl View for RepetitionWatchdog {
    type V = WatchdogState;

    closed spec fn view(&self) -> WatchdogState {
        WatchdogState { config: self.config, received: self.received@, tripped: self.tripped }
    }
}

/// The bytes and characters at `i..` of `text`, as the watchdog keeps them.
spec fn observes(chars: Seq<ObservedChar>, text: Seq<char>) -> bool {
    &&& chars.len() <= text.len()
    &&& forall|i: int|
        0 <= i < chars.len() ==> {
            let at = text.len() - chars.len() + i;
            &&& (#[trigger] chars[i]).value == text[at]
            &&& chars[i].byte_index == capped(crate::text::utf8_len(text.take(at)) as int)
            &&& chars[i].char_index == capped(at)
        }
}

proof fn lemma_observes_push(chars: Seq<ObservedChar>, text: Seq<char>, c: ObservedChar)
    requires
        observes(chars, text),
        c.byte_index == capped(crate::text::utf8_len(text) as int),
        c.char_index == capped(text.len() as int),
    ensures
        observes(chars.push(c), text.push(c.value)),
{
    let chars2 = chars.push(c);
    let text2 = text.push(c.value);
    assert forall|i: int| 0 <= i < chars2.len() implies {
        let at = text2.len() - chars2.len() + i;
        &&& (#[trigger] chars2[i]).value == text2[at]
        &&& chars2[i].byte_index == capped(crate::text::utf8_len(text2.take(at)) as int)
        &&& chars2[i].char_index == capped(at)
    } by {
        let at = text2.len() - chars2.len() + i;
        if i < chars.len() {
            assert(chars2[i] == chars[i]);
            assert(text2.take(at) =~= text.take(at));
        } else {
            assert(text2.take(at) =~= text);
        }
    }
}

impl RepetitionWatchdog {
    /// The watchdog's storage agrees with what it has received.
    pub closed spec fn wf(&self) -> bool {
        &&& self.config.min_repeats >= 2
        &&& self.config.min_block_chars >= 1
        &&& self.config.max_block_chars * self.config.min_repeats <= ROLLING_WINDOW_CHARS
        &&& self.total_chars == capped(self.received@.len() as int)
        &&& self.total_bytes == capped(crate::text::utf8_len(self.received@) as int)
        &&& observes(self.chars@, self.received@)
        &&& self.chars@.len() == window(self.received@).len()
    }

    /// The characters that are kept.
    pub closed spec fn stored(&self) -> Seq<char> {
        values(self.chars@)
    }

    /// What is kept is the window on what was received, never more.
    pub proof fn lemma_storage_is_bounded(&self)
        requires
            self.wf(),
        ensures
            self.stored() == window(self@.received),
            self.stored().len() <= ROLLING_WINDOW_CHARS,
    {
        assert(self.stored() =~= window(self@.received));
    }

    pub fn new(config: RepetitionWatchdogConfig) -> (r: Self)
        ensures
            r.wf(),
            r@.config == normalized_config(config),
            r@.received == Seq::<char>::empty(),
            !r@.tripped,
    {
        let min_repeats: usize = max_usize(config.min_repeats, 2);
        let min_block_chars: usize = max_usize(config.min_block_chars, 1);
        let fitting: usize = ROLLING_WINDOW_CHARS / min_repeats;
        let max_block_chars: usize = min_usize(
            max_usize(config.max_block_chars, min_block_chars),
            fitting,
        );
        proof {
            lemma_le_quotient(
                max_block_chars as int,
                ROLLING_WINDOW_CHARS as int,
                min_repeats as int,
            );
        }
        RepetitionWatchdog {
            config: RepetitionWatchdogConfig {
                min_block_chars,
                max_block_chars,
                min_repeats,
                min_text_chars_before_trip: config.min_text_chars_before_trip,
            },
            chars: VecDeque::new(),
            total_bytes: 0,
            total_chars: 0,
            tripped: false,
            received: Ghost(Seq::empty()),
        }
    }

    /// Takes the next piece of text and reports a repetition at its end, once.
    /// A watchdog that has tripped ignores what it is given until it is reset.
    pub fn push(&mut self, text: &str) -> (report: Option<RepetitionTrip>)
        requires
            old(self).wf(),
        ensures
            final(self).wf(),
            final(self)@.config == old(self)@.config,
            old(self)@.tripped ==> report is None && final(self)@ == old(self)@,
            !old(self)@.tripped ==> {
                &&& final(self)@.received == old(self)@.received + text@
                &&& is_report(old(self)@.config, final(self)@.received, report)
                &&& final(self)@.tripped == report is Some
            },
    {
        if self.tripped {
            return None;
        }
        self.observe(text);
        if self.total_chars < self.config.min_text_chars_before_trip {
            return None;
        }
        let report = self.find_repetition();
        if report.is_some() {
            self.tripped = true;
        }
        report
    }

    /// Adds `text` to what has been received and drops what has left the window.
    fn observe(&mut self, text: &str)
        requires
            old(self).wf(),
        ensures
            final(self).wf(),
            final(self)@.config == old(self)@.config,
            final(self)@.tripped == old(self)@.tripped,
            final(self)@.received == old(self)@.received + text@,
    {
        let ghost before = self.received@;
        for value in it: text.chars()
            invariant
                it.seq() == text@,
                self.received@ == before + it.seq().take(it.index()),
                self.total_chars == capped(self.received@.len() as int),
                self.total_bytes == capped(crate::text::utf8_len(self.received@) as int),
                observes(self.chars@, self.received@),
                self.chars@.len() >= window(self.received@).len(),
                self.config == old(self).config,
                self.tripped == old(self).tripped,
                old(self).wf(),
        {
            let observed = ObservedChar {
                value: normalize_char(value),
                byte_index: self.total_bytes,
                char_index: self.total_chars,
            };
            proof {
                let i = it.index();
                lemma_observes_push(self.chars@, self.received@, observed);
                crate::text::lemma_utf8_len_push(self.received@, value);
                assert(before + text@.take(i + 1) =~= (before + text@.take(i)).push(value));
            }
            self.chars.push_back(observed);
            self.total_chars = self.total_chars.saturating_add(1);
            self.total_bytes = self.total_bytes.saturating_add(char_len_utf8(value));
            self.received = Ghost(self.received@.push(value));
        }
        assert(text@.take(text@.len() as int) =~= text@);
        while self.chars.len() > ROLLING_WINDOW_CHARS
            invariant
                self.received@ == before + text@,
                self.total_chars == capped(self.received@.len() as int),
                self.total_bytes == capped(crate::text::utf8_len(self.received@) as int),
                observes(self.chars@, self.received@),
                self.chars@.len() >= window(self.received@).len(),
                self.config == old(self).config,
                self.tripped == old(self).tripped,
                old(self).wf(),
            decreases self.chars@.len(),
        {
            let ghost chars = self.chars@;
            self.chars.pop_front();
            assert(self.chars@ =~= chars.skip(1));
            assert(forall|i: int|
                0 <= i < self.chars@.len() ==> #[trigger] self.chars@[i] == chars[i + 1]);
        }
    }

    /// Forgets what has been received; the configuration stays.
    pub fn reset(&mut self)
        requires
            old(self).wf(),
        ensures
            final(self).wf(),
            final(self)@.config == old(self)@.config,
            final(self)@.received == Seq::<char>::empty(),
            !final(self)@.tripped,
    {
        self.chars.clear();
        self.total_bytes = 0;
        self.total_chars = 0;
        self.tripped = false;
        self.received = Ghost(Seq::empty());
    }

    /// Looks for the shortest block that the received text ends with often enough.
    fn find_repetition(&self) -> (report: Option<RepetitionTrip>)
        requires
            self.wf(),
            self@.received.len() >= self@.config.min_text_chars_before_trip,
        ensures
            is_report(self@.config, self@.received, report),
    {
        let ghost w = window(self.received@);
        let config = self.config;
        let n: usize = self.chars.len();
        let mut chars: Vec<ObservedChar> = Vec::new();
        let mut powers: Vec<u64> = Vec::new();
        let mut prefix_hashes: Vec<u64> = Vec::new();
        powers.push(1);
        prefix_hashes.push(0);
        assert(w.take(0) =~= Seq::<char>::empty());
        assert(word(0) == 0 && word(1) == 1);
        let mut i: usize = 0;
        while i < n
            invariant
                self.wf(),
                n == self.chars@.len(),
                w == window(self.received@),
                i <= n,
                chars@ == self.chars@.take(i as int),
                powers@.len() == i + 1,
                prefix_hashes@.len() == i + 1,
                forall|k: int| 0 <= k <= i ==> #[trigger] powers@[k] == word(base_power(k as nat)),
                forall|k: int|
                    0 <= k <= i ==> #[trigger] prefix_hashes@[k] == word(polynomial(w.take(k))),
            decreases n - i,
        {
            let observed = self.chars[i];
            let power: u64 = powers[i].wrapping_mul(HASH_BASE);
            let hash: u64 = prefix_hashes[i].wrapping_mul(HASH_BASE).wrapping_add(
                observed.value as u64 + 1,
            );
            proof {
                assert(observed.value == w[i as int]);
                assert(w.take(i + 1).drop_last() =~= w.take(i as int));
                assert(w.take(i + 1).last() == w[i as int]);
                lemma_word_mul(base_power(i as nat), HASH_BASE as int);
                lemma_word_mul(polynomial(w.take(i as int)), HASH_BASE as int);
                lemma_word_add(
                    polynomial(w.take(i as int)) * HASH_BASE,
                    observed.value as u64 + 1,
                );
                assert(chars@.push(observed) =~= self.chars@.take(i + 1));
            }
            powers.push(power);
            prefix_hashes.push(hash);
            chars.push(observed);
            i = i + 1;
        }
        proof {
            assert(chars@ =~= self.chars@);
            assert(values(chars@) =~= w);
        }
        let maximum_period: usize = min_usize(config.max_block_chars, n / config.min_repeats);
        assert forall|p: int| #[trigger] trips_at(config, w, p) implies p <= maximum_period by {
            lemma_le_quotient(p, n as int, config.min_repeats as int);
            assert(p * config.min_repeats == config.min_repeats * p) by (nonlinear_arith);
        }
        let mut period: usize = config.min_block_chars;
        while period <= maximum_period
            invariant
                self.wf(),
                config == self.config,
                n == chars@.len(),
                n == w.len(),
                w == window(self.received@),
                chars@ == self.chars@,
                values(chars@) == w,
                hashes_of(w, prefix_hashes@, powers@),
                1 <= config.min_block_chars <= period,
                maximum_period <= config.max_block_chars,
                maximum_period <= n / config.min_repeats,
                forall|p: int| #[trigger] trips_at(config, w, p) ==> period <= p <= maximum_period,
                self.received@.len() >= config.min_text_chars_before_trip,
            decreases maximum_period + 1 - period,
        {
            proof {
                lemma_le_quotient(period as int, n as int, config.min_repeats as int);
                assert(period * 2 <= period * config.min_repeats) by (nonlinear_arith)
                    requires
                        config.min_repeats >= 2,
                ;
            }
            let repeat_count: usize = Self::count_repeats(&chars, &prefix_hashes, &powers, period);
            proof {
                lemma_repeats_at_least(w, period as int, 1);
                lemma_repeats_are_the_copy_count(w, period as int);
                lemma_whitespace_of_copies(w.skip(w.len() - period), repeat_count as nat);
            }
            let first_occurrence: usize = n - repeat_count * period;
            if repeat_count >= config.min_repeats && !Self::only_whitespace(
                &chars,
                first_occurrence,
            ) {
                assert(values(chars@).skip(first_occurrence as int) =~= w.skip(
                    w.len() - repeat_count * period,
                ));
                assert(trips_at(config, w, period as int));
                assert(period <= repeat_count * period) by (nonlinear_arith)
                    requires
                        repeat_count >= 1,
                ;
                assert(repeat_count * period >= 2 * period) by (nonlinear_arith)
                    requires
                        repeat_count >= 2,
                ;
                let second_occurrence: usize = first_occurrence + period;
                return Some(
                    RepetitionTrip {
                        cutoff_byte_index: chars[second_occurrence].byte_index,
                        cutoff_char_index: chars[second_occurrence].char_index,
                        block_char_count: period,
                        repeat_count,
                        accepted_text_char_count: self.total_chars,
                    },
                );
            }
            proof {
                assert(values(chars@).skip(first_occurrence as int) =~= w.skip(
                    w.len() - repeat_count * period,
                ));
                assert(!trips_at(config, w, period as int));
            }
            period = period + 1;
        }
        None
    }

    /// Whether only whitespace stands at `from..`.
    fn only_whitespace(chars: &Vec<ObservedChar>, from: usize) -> (r: bool)
        requires
            from <= chars@.len(),
        ensures
            r == all_whitespace(values(chars@).skip(from as int)),
    {
        let ghost tail = values(chars@).skip(from as int);
        let mut i: usize = from;
        while i < chars.len()
            invariant
                from <= i <= chars@.len(),
                tail == values(chars@).skip(from as int),
                forall|j: int| 0 <= j < i - from ==> crate::text::is_ws(#[trigger] tail[j]),
            decreases chars@.len() - i,
        {
            if !is_whitespace(chars[i].value) {
                assert(!crate::text::is_ws(tail[i - from]));
                return false;
            }
            assert(tail[i - from] == chars@[i as int].value);
            i = i + 1;
        }
        true
    }

    /// Whether the block before the last `r` ones equals the last one.
    /// Unequal hashes settle most comparisons.
    fn block_matches(
        chars: &Vec<ObservedChar>,
        prefix_hashes: &Vec<u64>,
        powers: &Vec<u64>,
        period: usize,
        r: usize,
    ) -> (matches: bool)
        requires
            hashes_of(values(chars@), prefix_hashes@, powers@),
            1 <= period,
            r * period + period <= chars@.len(),
        ensures
            matches == block_repeats(values(chars@), period as int, r as int),
    {
        let ghost w = values(chars@);
        let n: usize = chars.len();
        proof {
            assert(r * period >= 0) by (nonlinear_arith);
            assert((r + 1) * period == r * period + period) by (nonlinear_arith);
        }
        let suffix_start: usize = n - period;
        let block_end: usize = n - r * period;
        let block_start: usize = block_end - period;
        let suffix_hash: u64 = range_hash(prefix_hashes, powers, suffix_start, n);
        let block_hash: u64 = range_hash(prefix_hashes, powers, block_start, block_end);
        proof {
            lemma_block_hash(w, suffix_start as int, n as int, prefix_hashes@, powers@);
            lemma_block_hash(w, block_start as int, block_end as int, prefix_hashes@, powers@);
        }
        block_hash == suffix_hash && same_chars(chars, block_start, suffix_start, period)
    }

    /// How often the last `period` characters stand at the end.
    fn count_repeats(
        chars: &Vec<ObservedChar>,
        prefix_hashes: &Vec<u64>,
        powers: &Vec<u64>,
        period: usize,
    ) -> (r: usize)
        requires
            hashes_of(values(chars@), prefix_hashes@, powers@),
            1 <= period <= chars@.len(),
        ensures
            r == repeats(values(chars@), period as int),
            r * period <= chars@.len(),
    {
        let ghost w = values(chars@);
        let n: usize = chars.len();
        let limit: usize = n / period;
        proof {
            lemma_le_quotient(1, n as int, period as int);
        }
        let mut repeat_count: usize = 1;
        while repeat_count < limit
            invariant
                w == values(chars@),
                n == chars@.len(),
                hashes_of(w, prefix_hashes@, powers@),
                1 <= period <= n,
                limit * period <= n < (limit + 1) * period,
                1 <= repeat_count <= limit,
                repeat_count * period <= n,
                repeats_from(w, period as int, repeat_count as int) == repeats(w, period as int),
            ensures
                repeat_count == repeats(w, period as int),
                repeat_count * period <= n,
            decreases limit - repeat_count,
        {
            assert(repeat_count * period + period <= limit * period) by (nonlinear_arith)
                requires
                    repeat_count + 1 <= limit,
            ;
            assert((repeat_count + 1) * period == repeat_count * period + period)
                by (nonlinear_arith);
            if !Self::block_matches(chars, prefix_hashes, powers, period, repeat_count) {
                break;
            }
            repeat_count = repeat_count + 1;
        }
        repeat_count
    }
}

/// The hashes of the prefixes of `w` and the powers of the base, reduced to words.
spec fn hashes_of(w: Seq<char>, prefix_hashes: Seq<u64>, powers: Seq<u64>) -> bool {
    &&& powers.len() == w.len() + 1
    &&& prefix_hashes.len() == w.len() + 1
    &&& forall|k: int| 0 <= k <= w.len() ==> #[trigger] powers[k] == word(base_power(k as nat))
    &&& forall|k: int|
        0 <= k <= w.len() ==> #[trigger] prefix_hashes[k] == word(polynomial(w.take(k)))
}

proof fn lemma_block_hash(
    w: Seq<char>,
    start: int,
    end: int,
    prefix_hashes: Seq<u64>,
    powers: Seq<u64>,
)
    requires
        0 <= start <= end <= w.len(),
        hashes_of(w, prefix_hashes, powers),
    ensures
        prefix_hashes[end].wrapping_sub(prefix_hashes[start].wrapping_mul(powers[end - start]))
            == word(polynomial(w.subrange(start, end))),
{
    let block = w.subrange(start, end);
    assert(w.take(start) + block =~= w.take(end));
    lemma_range_hash(
        w.take(start),
        block,
        prefix_hashes[end],
        prefix_hashes[start],
        powers[end - start],
    );
}

} // verus!
