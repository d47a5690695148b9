use vstd::prelude::*;

verus! {

/// `String::push`: appends one character at the end.
pub assume_specification[ String::push ](s: &mut String, c: char)
    ensures
        final(s)@ == old(s)@.push(c),
;

/// The characters of a text, if there is one.
pub open spec fn opt_text(text: Option<String>) -> Option<Seq<char>> {
    match text {
        Some(t) => Some(t@),
        None => None,
    }
}

/// The characters of a text, if there is one.
pub open spec fn opt_str(text: Option<&str>) -> Option<Seq<char>> {
    match text {
        Some(t) => Some(t@),
        None => None,
    }
}

/// The Unicode White_Space property.
pub open spec fn is_ws(c: char) -> bool {
    let n = c as u32;
    ||| 0x9 <= n <= 0xd
    ||| n == 0x20
    ||| n == 0x85
    ||| n == 0xa0
    ||| n == 0x1680
    ||| 0x2000 <= n <= 0x200a
    ||| n == 0x2028
    ||| n == 0x2029
    ||| n == 0x202f
    ||| n == 0x205f
    ||| n == 0x3000
}

pub fn is_whitespace(c: char) -> (r: bool)
    ensures
        r == is_ws(c),
{
    let n: u32 = c as u32;
    (0x9 <= n && n <= 0xd) || n == 0x20 || n == 0x85 || n == 0xa0 || n == 0x1680 || (0x2000 <= n
        && n <= 0x200a) || n == 0x2028 || n == 0x2029 || n == 0x202f || n == 0x205f || n == 0x3000
}

/// The characters of `s`.
pub fn to_chars(s: &str) -> (v: Vec<char>)
    ensures
        v@ == s@,
{
    let mut v: Vec<char> = Vec::new();
    for c in it: s.chars()
        invariant
            v@ == it.seq().take(it.index()),
            it.seq() == s@,
    {
        v.push(c);
    }
    v
}

/// The string made of the characters `v[from..to]`.
pub fn from_chars(v: &Vec<char>, from: usize, to: usize) -> (s: String)
    requires
        from <= to <= v@.len(),
    ensures
        s@ == v@.subrange(from as int, to as int),
{
    let mut s = String::new();
    let mut i: usize = from;
    while i < to
        invariant
            from <= i <= to <= v@.len(),
            s@ == v@.subrange(from as int, i as int),
        decreases to - i,
    {
        s.push(v[i]);
        i = i + 1;
        assert(v@.subrange(from as int, i as int) =~= v@.subrange(from as int, i - 1).push(v@[i - 1]));
    }
    s
}

/// Whether the two strings hold the same characters.
pub fn str_eq(a: &str, b: &str) -> (r: bool)
    ensures
        r == (a@ == b@),
{
    a.to_owned() == b.to_owned()
}

pub fn min_usize(a: usize, b: usize) -> (r: usize)
    ensures
        r == if a <= b { a } else { b },
{
    if a <= b {
        a
    } else {
        b
    }
}

pub fn max_usize(a: usize, b: usize) -> (r: usize)
    ensures
        r == if a >= b { a } else { b },
{
    if a >= b {
        a
    } else {
        b
    }
}

/// The number of bytes in which UTF-8 writes `c`.
pub open spec fn char_utf8_len(c: char) -> nat {
    let n = c as u32;
    if n < 0x80 {
        1
    } else if n < 0x800 {
        2
    } else if n < 0x10000 {
        3
    } else {
        4
    }
}

/// The number of bytes in which UTF-8 writes `s`.
pub open spec fn utf8_len(s: Seq<char>) -> nat
    decreases s.len(),
{
    if s.len() == 0 {
        0
    } else {
        utf8_len(s.drop_last()) + char_utf8_len(s.last())
    }
}

pub fn char_len_utf8(c: char) -> (r: usize)
    ensures
        r == char_utf8_len(c),
{
    let n: u32 = c as u32;
    if n < 0x80 {
        1
    } else if n < 0x800 {
        2
    } else if n < 0x10000 {
        3
    } else {
        4
    }
}

pub proof fn lemma_utf8_len_push(s: Seq<char>, c: char)
    ensures
        utf8_len(s.push(c)) == utf8_len(s) + char_utf8_len(c),
{
    assert(s.push(c).drop_last() =~= s);
}

/// The byte length of a concatenation is the sum of the byte lengths.
pub proof fn lemma_utf8_len_add(a: Seq<char>, b: Seq<char>)
    ensures
        utf8_len(a + b) == utf8_len(a) + utf8_len(b),
    decreases b.len(),
{
    if b.len() == 0 {
        assert(a + b =~= a);
    } else {
        lemma_utf8_len_add(a, b.drop_last());
        assert((a + b).drop_last() =~= a + b.drop_last());
    }
}

pub proof fn lemma_utf8_len_take(s: Seq<char>, i: int)
    requires
        0 <= i <= s.len(),
    ensures
        utf8_len(s.take(i)) <= utf8_len(s),
{
    lemma_utf8_len_add(s.take(i), s.skip(i));
    assert(s.take(i) + s.skip(i) =~= s);
}

/// The characters of each string.
pub open spec fn views(v: Seq<String>) -> Seq<Seq<char>> {
    v.map_values(|s: String| s@)
}

/// `s` without the whitespace at its start.
pub open spec fn trim_start(s: Seq<char>) -> Seq<char>
    decreases s.len(),
{
    if s.len() > 0 && is_ws(s[0]) {
        trim_start(s.skip(1))
    } else {
        s
    }
}

/// `s` without the whitespace at its end.
pub open spec fn trim_end(s: Seq<char>) -> Seq<char>
    decreases s.len(),
{
    if s.len() > 0 && is_ws(s.last()) {
        trim_end(s.drop_last())
    } else {
        s
    }
}

/// `s` without the whitespace at either end.
pub open spec fn trim(s: Seq<char>) -> Seq<char> {
    trim_end(trim_start(s))
}

fn trimmed_start(v: &Vec<char>, from: usize) -> (i: usize)
    requires
        from <= v@.len(),
    ensures
        from <= i <= v@.len(),
        v@.skip(i as int) == trim_start(v@.skip(from as int)),
{
    let mut i: usize = from;
    while i < v.len() && is_whitespace(v[i])
        invariant
            from <= i <= v@.len(),
            trim_start(v@.skip(i as int)) == trim_start(v@.skip(from as int)),
        decreases v@.len() - i,
    {
        assert(v@.skip(i as int).skip(1) =~= v@.skip(i + 1));
        assert(v@.skip(i as int)[0] == v@[i as int]);
        i = i + 1;
    }
    assert(i < v@.len() ==> v@.skip(i as int)[0] == v@[i as int]);
    i
}

fn trimmed_end(v: &Vec<char>, from: usize) -> (i: usize)
    requires
        from <= v@.len(),
    ensures
        from <= i <= v@.len(),
        v@.subrange(from as int, i as int) == trim_end(v@.skip(from as int)),
{
    let mut i: usize = v.len();
    assert(v@.subrange(from as int, i as int) =~= v@.skip(from as int));
    while i > from && is_whitespace(v[i - 1])
        invariant
            from <= i <= v@.len(),
            trim_end(v@.subrange(from as int, i as int)) == trim_end(v@.skip(from as int)),
        decreases i,
    {
        assert(v@.subrange(from as int, i as int).drop_last() =~= v@.subrange(from as int, i - 1));
        assert(v@.subrange(from as int, i as int).last() == v@[i - 1]);
        i = i - 1;
    }
    assert(i > from ==> v@.subrange(from as int, i as int).last() == v@[i - 1]);
    i
}

pub fn trim_str(s: &str) -> (r: String)
    ensures
        r@ == trim(s@),
{
    let v = to_chars(s);
    assert(v@.skip(0) =~= s@);
    let i = trimmed_start(&v, 0);
    let j = trimmed_end(&v, i);
    from_chars(&v, i, j)
}

pub fn trim_start_str(s: &str) -> (r: String)
    ensures
        r@ == trim_start(s@),
{
    let v = to_chars(s);
    assert(v@.skip(0) =~= s@);
    let i = trimmed_start(&v, 0);
    assert(v@.subrange(i as int, v@.len() as int) =~= v@.skip(i as int));
    from_chars(&v, i, v.len())
}

/// Trimming is the identity on what has been trimmed.
pub proof fn lemma_trim_idempotent(s: Seq<char>)
    ensures
        trim(trim(s)) == trim(s),
{
    let a = trim_start(s);
    lemma_trim_start_first(s);
    lemma_trim_end_last(a);
    lemma_trim_end_prefix(a);
    let b = trim_end(a);
    if b.len() > 0 {
        assert(b[0] == a[0]);
    }
    assert(trim_start(b) == b);
    assert(trim_end(b) == b);
}

pub proof fn lemma_trim_start_first(s: Seq<char>)
    ensures
        trim_start(s).len() <= s.len(),
        trim_start(s).len() > 0 ==> !is_ws(trim_start(s)[0]),
        trim_start(s) == s.skip(s.len() - trim_start(s).len()),
    decreases s.len(),
{
    if s.len() > 0 && is_ws(s[0]) {
        lemma_trim_start_first(s.skip(1));
        let t = trim_start(s);
        assert(s.skip(1).skip(s.len() - 1 - t.len()) =~= s.skip(s.len() - t.len()));
    } else {
        assert(s.skip(0) =~= s);
    }
}

pub proof fn lemma_trim_end_last(s: Seq<char>)
    ensures
        trim_end(s).len() > 0 ==> !is_ws(trim_end(s).last()),
    decreases s.len(),
{
    if s.len() > 0 && is_ws(s.last()) {
        lemma_trim_end_last(s.drop_last());
    }
}

pub proof fn lemma_trim_end_prefix(s: Seq<char>)
    ensures
        trim_end(s).len() <= s.len(),
        trim_end(s) == s.take(trim_end(s).len() as int),
    decreases s.len(),
{
    if s.len() > 0 && is_ws(s.last()) {
        lemma_trim_end_prefix(s.drop_last());
        let n = trim_end(s).len() as int;
        assert(s.drop_last().take(n) =~= s.take(n));
    } else {
        assert(s.take(s.len() as int) =~= s);
    }
}

/// Whether `s` begins with `p`.
pub open spec fn starts_with(s: Seq<char>, p: Seq<char>) -> bool {
    p.len() <= s.len() && s.take(p.len() as int) == p
}

/// Whether `s` ends with `p`.
pub open spec fn ends_with(s: Seq<char>, p: Seq<char>) -> bool {
    p.len() <= s.len() && s.skip(s.len() - p.len()) == p
}

/// Whether `p` stands in `v` at `at`.
pub fn stands_at(v: &Vec<char>, at: usize, p: &Vec<char>) -> (r: bool)
    requires
        at <= v@.len(),
    ensures
        r == (at + p@.len() <= v@.len() && v@.subrange(at as int, at + p@.len()) == p@),
{
    let n: usize = v.len();
    if n - at < p.len() {
        return false;
    }
    let mut i: usize = 0;
    while i < p.len()
        invariant
            i <= p@.len(),
            n == v@.len(),
            at + p@.len() <= n,
            forall|j: int| 0 <= j < i ==> v@[at + j] == p@[j],
        decreases p@.len() - i,
    {
        if v[at + i] != p[i] {
            assert(v@.subrange(at as int, at + p@.len())[i as int] != p@[i as int]);
            return false;
        }
        i = i + 1;
    }
    assert(v@.subrange(at as int, at + p@.len()) =~= p@);
    true
}

pub fn starts_with_str(s: &str, p: &str) -> (r: bool)
    ensures
        r == starts_with(s@, p@),
{
    let v = to_chars(s);
    let q = to_chars(p);
    assert(q@.len() <= v@.len() ==> v@.subrange(0, q@.len() as int) =~= v@.take(q@.len() as int));
    stands_at(&v, 0, &q)
}

pub fn ends_with_str(s: &str, p: &str) -> (r: bool)
    ensures
        r == ends_with(s@, p@),
{
    let v = to_chars(s);
    let q = to_chars(p);
    if q.len() > v.len() {
        return false;
    }
    let at: usize = v.len() - q.len();
    assert(v@.subrange(at as int, v@.len() as int) =~= v@.skip(at as int));
    stands_at(&v, at, &q)
}

/// `s` without the first `n` characters.
pub fn skip_chars(s: &str, n: usize) -> (r: String)
    requires
        n <= s@.len(),
    ensures
        r@ == s@.skip(n as int),
{
    let v = to_chars(s);
    assert(v@.subrange(n as int, v@.len() as int) =~= v@.skip(n as int));
    from_chars(&v, n, v.len())
}

/// The rest of `s` behind the prefix `p`.
pub fn strip_prefix_str(s: &str, p: &str) -> (r: Option<String>)
    ensures
        r is Some == starts_with(s@, p@),
        r matches Some(t) ==> t@ == s@.skip(p@.len() as int),
{
    if starts_with_str(s, p) {
        Some(skip_chars(s, to_chars(p).len()))
    } else {
        None
    }
}

/// The rest of `s` before the suffix `p`.
pub fn strip_suffix_str(s: &str, p: &str) -> (r: Option<String>)
    ensures
        r is Some == ends_with(s@, p@),
        r matches Some(t) ==> t@ == s@.take(s@.len() - p@.len()),
{
    if ends_with_str(s, p) {
        let v = to_chars(s);
        let n: usize = to_chars(p).len();
        assert(v@.subrange(0, v@.len() - n) =~= v@.take(v@.len() - n));
        Some(from_chars(&v, 0, v.len() - n))
    } else {
        None
    }
}

/// Where `p` first stands in `s`, at `i` or behind it.
pub open spec fn find_from(s: Seq<char>, p: Seq<char>, i: int) -> Option<int>
    decreases s.len() + 1 - i,
{
    if i < 0 || i + p.len() > s.len() {
        None
    } else if s.subrange(i, i + p.len()) == p {
        Some(i)
    } else {
        find_from(s, p, i + 1)
    }
}

/// Where `p` first stands in `s`.
pub open spec fn find(s: Seq<char>, p: Seq<char>) -> Option<int> {
    find_from(s, p, 0)
}

/// Whether `p` stands somewhere in `s`.
pub open spec fn contains(s: Seq<char>, p: Seq<char>) -> bool {
    find(s, p) is Some
}

pub proof fn lemma_find_bounds(s: Seq<char>, p: Seq<char>, i: int)
    requires
        i >= 0,
    ensures
        find_from(s, p, i) matches Some(k) ==> i <= k && k + p.len() <= s.len() && s.subrange(
            k,
            k + p.len(),
        ) == p,
    decreases s.len() + 1 - i,
{
    if i + p.len() <= s.len() && s.subrange(i, i + p.len()) != p {
        lemma_find_bounds(s, p, i + 1);
    }
}

/// `p` stands in `s` if and only if `s` can be cut into something, `p`, and something.
pub proof fn lemma_contains_iff(s: Seq<char>, p: Seq<char>)
    ensures
        contains(s, p) <==> exists|k: int|
            0 <= k <= s.len() - p.len() && #[trigger] s.subrange(k, k + p.len()) == p,
{
    lemma_find_bounds(s, p, 0);
    if find(s, p) is None {
        assert forall|k: int| 0 <= k <= s.len() - p.len() implies #[trigger] s.subrange(
            k,
            k + p.len(),
        ) != p by {
            lemma_find_none(s, p, 0, k);
        }
    }
}

pub proof fn lemma_find_none(s: Seq<char>, p: Seq<char>, i: int, k: int)
    requires
        0 <= i <= k <= s.len() - p.len(),
        find_from(s, p, i) is None,
    ensures
        s.subrange(k, k + p.len()) != p,
    decreases s.len() - i,
{
    if i < k {
        lemma_find_none(s, p, i + 1, k);
    }
}

pub fn find_in(v: &Vec<char>, p: &Vec<char>, from: usize) -> (r: Option<usize>)
    requires
        from <= v@.len(),
    ensures
        r is Some == find_from(v@, p@, from as int) is Some,
        r matches Some(k) ==> find_from(v@, p@, from as int) == Some(k as int) && from <= k && k
            + p@.len() <= v@.len() && v@.subrange(k as int, k + p@.len()) == p@,
{
    let n: usize = v.len();
    let mut i: usize = from;
    while i < n && n - i >= p.len()
        invariant
            n == v@.len(),
            from <= i <= n,
            find_from(v@, p@, i as int) == find_from(v@, p@, from as int),
        decreases n - i,
    {
        if stands_at(v, i, p) {
            return Some(i);
        }
        i = i + 1;
    }
    if i == n && p.len() == 0 {
        assert(v@.subrange(i as int, i + p@.len()) =~= p@);
        return Some(i);
    }
    None
}

pub fn find_str(s: &str, p: &str) -> (r: Option<usize>)
    ensures
        r is Some == find(s@, p@) is Some,
        r matches Some(k) ==> find(s@, p@) == Some(k as int) && k + p@.len() <= s@.len(),
{
    find_in(&to_chars(s), &to_chars(p), 0)
}

pub fn contains_str(s: &str, p: &str) -> (r: bool)
    ensures
        r == contains(s@, p@),
{
    find_str(s, p).is_some()
}

/// Where `c` first stands in `s`.
pub open spec fn find_char(s: Seq<char>, c: char) -> Option<int> {
    find_char_from(s, c, 0)
}

/// Where `c` first stands in `s`, at `i` or behind it.
pub open spec fn find_char_from(s: Seq<char>, c: char, i: int) -> Option<int>
    decreases s.len() - i,
{
    if i < 0 || i >= s.len() {
        None
    } else if s[i] == c {
        Some(i)
    } else {
        find_char_from(s, c, i + 1)
    }
}

pub fn find_char_in(v: &Vec<char>, c: char, from: usize) -> (r: Option<usize>)
    requires
        from <= v@.len(),
    ensures
        r is Some == find_char_from(v@, c, from as int) is Some,
        r matches Some(k) ==> find_char_from(v@, c, from as int) == Some(k as int) && from <= k
            < v@.len() && v@[k as int] == c,
{
    let mut i: usize = from;
    while i < v.len()
        invariant
            from <= i <= v@.len(),
            find_char_from(v@, c, i as int) == find_char_from(v@, c, from as int),
        decreases v@.len() - i,
    {
        if v[i] == c {
            return Some(i);
        }
        i = i + 1;
    }
    None
}

pub proof fn lemma_find_char_bounds(s: Seq<char>, c: char, i: int)
    requires
        0 <= i,
    ensures
        find_char_from(s, c, i) matches Some(k) ==> i <= k < s.len() && s[k] == c && (forall|j: int|
            i <= j < k ==> s[j] != c),
        find_char_from(s, c, i) is None ==> forall|j: int| i <= j < s.len() ==> s[j] != c,
    decreases s.len() - i,
{
    if i < s.len() && s[i] != c {
        lemma_find_char_bounds(s, c, i + 1);
    }
}

pub fn contains_char(s: &str, c: char) -> (r: bool)
    ensures
        r == s@.contains(c),
{
    let v = to_chars(s);
    proof {
        lemma_find_char_bounds(s@, c, 0);
    }
    find_char_in(&v, c, 0).is_some()
}

/// The pieces of `s` between the occurrences of `c`.
pub open spec fn split_char(s: Seq<char>, c: char) -> Seq<Seq<char>>
    decreases s.len(),
    via split_char_decreases
{
    match find_char(s, c) {
        Some(k) => seq![s.take(k)] + split_char(s.skip(k + 1), c),
        None => seq![s],
    }
}

#[via_fn]
proof fn split_char_decreases(s: Seq<char>, c: char) {
    lemma_find_char_bounds(s, c, 0);
}

proof fn lemma_find_char_skip(s: Seq<char>, c: char, i: int, d: int)
    requires
        0 <= d <= i <= s.len(),
    ensures
        find_char_from(s.skip(d), c, i - d) is Some == find_char_from(s, c, i) is Some,
        find_char_from(s, c, i) matches Some(k) ==> find_char_from(s.skip(d), c, i - d) == Some(
            k - d,
        ),
    decreases s.len() - i,
{
    if i < s.len() {
        assert(s.skip(d)[i - d] == s[i]);
        if s[i] != c {
            lemma_find_char_skip(s, c, i + 1, d);
        }
    }
}

pub fn split_char_str(s: &str, c: char) -> (r: Vec<String>)
    ensures
        views(r@) == split_char(s@, c),
        r@.len() >= 1,
{
    let v = to_chars(s);
    let mut out: Vec<String> = Vec::new();
    let mut i: usize = 0;
    assert(v@.skip(0) =~= s@);
    assert(views(out@) =~= Seq::<Seq<char>>::empty());
    assert(views(out@) + split_char(v@.skip(0), c) =~= split_char(s@, c));
    let n: usize = v.len();
    loop
        invariant
            v@ == s@,
            n == v@.len(),
            i <= n,
            views(out@) + split_char(v@.skip(i as int), c) == split_char(s@, c),
        decreases v@.len() - i,
    {
        let ghost before = views(out@);
        let ghost rest = v@.skip(i as int);
        proof {
            lemma_find_char_skip(v@, c, i as int, i as int);
            lemma_find_char_bounds(rest, c, 0);
        }
        match find_char_in(&v, c, i) {
            Some(k) => {
                let piece = from_chars(&v, i, k);
                assert(piece@ =~= rest.take(k - i));
                out.push(piece);
                assert(views(out@) =~= before.push(rest.take(k - i)));
                assert(rest.skip(k - i + 1) =~= v@.skip(k + 1));
                assert(before + (seq![rest.take(k - i)] + split_char(v@.skip(k + 1), c))
                    =~= views(out@) + split_char(v@.skip(k + 1), c));
                i = k + 1;
            },
            None => {
                let piece = from_chars(&v, i, v.len());
                assert(piece@ =~= rest);
                out.push(piece);
                assert(views(out@) =~= before + seq![rest]);
                return out;
            },
        }
    }
}

/// One line without its line ending.
pub open spec fn without_cr(s: Seq<char>) -> Seq<char> {
    if s.len() > 0 && s.last() == '\r' {
        s.drop_last()
    } else {
        s
    }
}

/// The lines of `s`: each ends with a line feed, or a carriage return and a line feed, or with
/// the text.
pub open spec fn lines(s: Seq<char>) -> Seq<Seq<char>>
    decreases s.len(),
    via lines_decreases
{
    if s.len() == 0 {
        Seq::empty()
    } else {
        match find_char(s, '\n') {
            Some(k) => seq![without_cr(s.take(k))] + lines(s.skip(k + 1)),
            None => seq![s],
        }
    }
}

#[via_fn]
proof fn lines_decreases(s: Seq<char>) {
    lemma_find_char_bounds(s, '\n', 0);
}

pub fn lines_str(s: &str) -> (r: Vec<String>)
    ensures
        views(r@) == lines(s@),
{
    let v = to_chars(s);
    let mut out: Vec<String> = Vec::new();
    let mut i: usize = 0;
    assert(v@.skip(0) =~= s@);
    assert(views(out@) + lines(v@.skip(0)) =~= lines(s@));
    let n: usize = v.len();
    while i < n
        invariant
            v@ == s@,
            n == v@.len(),
            i <= n,
            views(out@) + lines(v@.skip(i as int)) == lines(s@),
        decreases v@.len() - i,
    {
        let ghost before = views(out@);
        let ghost rest = v@.skip(i as int);
        proof {
            lemma_find_char_skip(v@, '\n', i as int, i as int);
            lemma_find_char_bounds(rest, '\n', 0);
        }
        match find_char_in(&v, '\n', i) {
            Some(k) => {
                let end: usize = if k > i && v[k - 1] == '\r' {
                    k - 1
                } else {
                    k
                };
                let piece = from_chars(&v, i, end);
                assert(piece@ =~= without_cr(rest.take(k - i)));
                out.push(piece);
                assert(views(out@) =~= before.push(without_cr(rest.take(k - i))));
                assert(rest.skip(k - i + 1) =~= v@.skip(k + 1));
                assert(before + (seq![without_cr(rest.take(k - i))] + lines(v@.skip(k + 1)))
                    =~= views(out@) + lines(v@.skip(k + 1)));
                i = k + 1;
            },
            None => {
                let piece = from_chars(&v, i, v.len());
                assert(piece@ =~= rest);
                out.push(piece);
                assert(views(out@) =~= before + seq![rest]);
                return out;
            },
        }
    }
    assert(lines(v@.skip(i as int)) =~= Seq::<Seq<char>>::empty());
    assert(views(out@) =~= lines(s@));
    out
}

/// How many characters stand before the first whitespace.
pub open spec fn word_len(s: Seq<char>) -> nat
    decreases s.len(),
{
    if s.len() == 0 || is_ws(s[0]) {
        0
    } else {
        1 + word_len(s.skip(1))
    }
}

/// The words of `s`: what stands between its runs of whitespace.
pub open spec fn words(s: Seq<char>) -> Seq<Seq<char>>
    decreases s.len(),
    via words_decreases
{
    let t = trim_start(s);
    if t.len() == 0 {
        Seq::empty()
    } else {
        seq![t.take(word_len(t) as int)] + words(t.skip(word_len(t) as int))
    }
}

#[via_fn]
proof fn words_decreases(s: Seq<char>) {
    lemma_trim_start_first(s);
    lemma_word_len(trim_start(s));
}

pub proof fn lemma_word_len(s: Seq<char>)
    ensures
        word_len(s) <= s.len(),
        s.len() > 0 && !is_ws(s[0]) ==> word_len(s) > 0,
    decreases s.len(),
{
    if s.len() > 0 && !is_ws(s[0]) {
        lemma_word_len(s.skip(1));
    }
}

pub fn words_str(s: &str) -> (r: Vec<String>)
    ensures
        views(r@) == words(s@),
{
    let v = to_chars(s);
    let mut out: Vec<String> = Vec::new();
    let mut i: usize = 0;
    assert(v@.skip(0) =~= s@);
    assert(views(out@) + words(v@.skip(0)) =~= words(s@));
    loop
        invariant
            v@ == s@,
            i <= v@.len(),
            views(out@) + words(v@.skip(i as int)) == words(s@),
        decreases v@.len() - i,
    {
        let ghost before = views(out@);
        let start = trimmed_start(&v, i);
        let ghost t = v@.skip(start as int);
        if start == v.len() {
            assert(words(v@.skip(i as int)) =~= Seq::<Seq<char>>::empty());
            assert(views(out@) =~= words(s@));
            return out;
        }
        let mut j: usize = start;
        while j < v.len() && !is_whitespace(v[j])
            invariant
                start <= j <= v@.len(),
                t == v@.skip(start as int),
                word_len(t) == (j - start) + word_len(v@.skip(j as int)),
            decreases v@.len() - j,
        {
            assert(v@.skip(j as int)[0] == v@[j as int]);
            assert(v@.skip(j as int).skip(1) =~= v@.skip(j + 1));
            j = j + 1;
        }
        assert(j < v@.len() ==> v@.skip(j as int)[0] == v@[j as int]);
        proof {
            lemma_trim_start_first(v@.skip(i as int));
            lemma_word_len(t);
        }
        let piece = from_chars(&v, start, j);
        assert(piece@ =~= t.take(word_len(t) as int));
        out.push(piece);
        assert(views(out@) =~= before.push(piece@));
        assert(t.skip(word_len(t) as int) =~= v@.skip(j as int));
        assert(before + (seq![piece@] + words(v@.skip(j as int))) =~= views(out@) + words(
            v@.skip(j as int),
        ));
        i = j;
    }
}

/// The parts, with `sep` between them.
pub open spec fn join(parts: Seq<Seq<char>>, sep: Seq<char>) -> Seq<char>
    decreases parts.len(),
{
    if parts.len() == 0 {
        Seq::empty()
    } else if parts.len() == 1 {
        parts[0]
    } else {
        join(parts.drop_last(), sep) + sep + parts.last()
    }
}

pub fn join_strs(parts: &Vec<String>, sep: &str) -> (r: String)
    ensures
        r@ == join(views(parts@), sep@),
{
    let mut r = String::new();
    let mut i: usize = 0;
    assert(views(parts@).take(0) =~= Seq::<Seq<char>>::empty());
    while i < parts.len()
        invariant
            i <= parts@.len(),
            r@ == join(views(parts@).take(i as int), sep@),
        decreases parts@.len() - i,
    {
        if i > 0 {
            r.append(sep);
        }
        r.append(parts[i].as_str());
        assert(views(parts@).take(i + 1).drop_last() =~= views(parts@).take(i as int));
        assert(views(parts@).take(i + 1).last() == parts@[i as int]@);
        i = i + 1;
        assert(r@ =~= join(views(parts@).take(i as int), sep@));
    }
    assert(views(parts@).take(parts@.len() as int) =~= views(parts@));
    r
}

proof fn lemma_find_skip(s: Seq<char>, p: Seq<char>, i: int, d: int)
    requires
        0 <= d <= i <= s.len(),
    ensures
        find_from(s.skip(d), p, i - d) is Some == find_from(s, p, i) is Some,
        find_from(s, p, i) matches Some(k) ==> find_from(s.skip(d), p, i - d) == Some(k - d),
    decreases s.len() + 1 - i,
{
    if i + p.len() <= s.len() {
        assert(s.skip(d).subrange(i - d, i - d + p.len()) =~= s.subrange(i, i + p.len()));
        if s.subrange(i, i + p.len()) != p {
            if i < s.len() {
                lemma_find_skip(s, p, i + 1, d);
            } else {
                assert(s.subrange(i, i + p.len()) =~= p);
            }
        }
    }
}

/// `s` with each occurrence of `from`, taken from the left, replaced by `to`.
pub open spec fn replace(s: Seq<char>, from: Seq<char>, to: Seq<char>) -> Seq<char>
    decreases s.len(),
    when from.len() > 0
    via replace_decreases
{
    match find(s, from) {
        Some(k) => s.take(k) + to + replace(s.skip(k + from.len()), from, to),
        None => s,
    }
}

#[via_fn]
proof fn replace_decreases(s: Seq<char>, from: Seq<char>, to: Seq<char>) {
    lemma_find_bounds(s, from, 0);
}

pub fn replace_str(s: &str, from: &str, to: &str) -> (r: String)
    requires
        from@.len() > 0,
    ensures
        r@ == replace(s@, from@, to@),
{
    let v = to_chars(s);
    let p = to_chars(from);
    let n: usize = v.len();
    let mut r = String::new();
    let mut i: usize = 0;
    assert(v@.skip(0) =~= s@);
    assert(r@ + replace(v@.skip(0), p@, to@) =~= replace(s@, p@, to@));
    loop
        invariant
            v@ == s@,
            p@ == from@,
            p@.len() > 0,
            n == v@.len(),
            i <= n,
            r@ + replace(v@.skip(i as int), p@, to@) == replace(s@, p@, to@),
        decreases n - i,
    {
        let ghost before = r@;
        let ghost rest = v@.skip(i as int);
        proof {
            lemma_find_skip(v@, p@, i as int, i as int);
            lemma_find_bounds(rest, p@, 0);
        }
        match find_in(&v, &p, i) {
            Some(k) => {
                let piece = from_chars(&v, i, k);
                assert(piece@ =~= rest.take(k - i));
                r.append(piece.as_str());
                r.append(to);
                let next: usize = k + p.len();
                assert(rest.skip(k - i + p@.len()) =~= v@.skip(next as int));
                assert(before + (rest.take(k - i) + to@ + replace(v@.skip(next as int), p@, to@))
                    =~= r@ + replace(v@.skip(next as int), p@, to@));
                i = next;
            },
            None => {
                let piece = from_chars(&v, i, n);
                assert(piece@ =~= rest);
                r.append(piece.as_str());
                return r;
            },
        }
    }
}

/// The lower-case letter of an ASCII upper-case letter; any other character itself.
pub open spec fn lower_char(c: char) -> char {
    if 'A' <= c <= 'Z' {
        (c as u32 + 32) as char
    } else {
        c
    }
}

pub open spec fn ascii_lower(s: Seq<char>) -> Seq<char> {
    s.map_values(|c: char| lower_char(c))
}

pub fn to_lower_char(c: char) -> (r: char)
    ensures
        r == lower_char(c),
{
    if 'A' <= c && c <= 'Z' {
        (c as u8 + 32) as char
    } else {
        c
    }
}

pub fn ascii_lower_str(s: &str) -> (r: String)
    ensures
        r@ == ascii_lower(s@),
{
    let mut r = String::new();
    for c in it: s.chars()
        invariant
            it.seq() == s@,
            r@ == ascii_lower(s@.take(it.index())),
    {
        r.push(to_lower_char(c));
        assert(r@ =~= ascii_lower(s@.take(it.index() + 1)));
    }
    assert(s@.take(s@.len() as int) =~= s@);
    r
}

/// Whether the two strings agree when ASCII letters are compared without their case.
pub open spec fn eq_ignore_case(a: Seq<char>, b: Seq<char>) -> bool {
    ascii_lower(a) == ascii_lower(b)
}

pub fn eq_ignore_case_str(a: &str, b: &str) -> (r: bool)
    ensures
        r == eq_ignore_case(a@, b@),
{
    str_eq(ascii_lower_str(a).as_str(), ascii_lower_str(b).as_str())
}

pub open spec fn is_digit(c: char) -> bool {
    '0' <= c <= '9'
}

pub open spec fn is_alnum(c: char) -> bool {
    ('0' <= c <= '9') || ('a' <= c <= 'z') || ('A' <= c <= 'Z')
}

pub fn is_ascii_digit(c: char) -> (r: bool)
    ensures
        r == is_digit(c),
{
    '0' <= c && c <= '9'
}

pub fn is_ascii_alphanumeric(c: char) -> (r: bool)
    ensures
        r == is_alnum(c),
{
    ('0' <= c && c <= '9') || ('a' <= c && c <= 'z') || ('A' <= c && c <= 'Z')
}

pub open spec fn digit(n: int) -> char {
    ('0' as u32 + n) as char
}

/// `n` in decimal notation.
pub open spec fn dec(n: nat) -> Seq<char>
    decreases n,
{
    if n < 10 {
        seq![digit(n as int)]
    } else {
        dec(n / 10).push(digit((n % 10) as int))
    }
}

/// `n` in decimal notation, with a minus sign where it is negative.
pub open spec fn dec_int(n: int) -> Seq<char> {
    if n < 0 {
        seq!['-'] + dec((-n) as nat)
    } else {
        dec(n as nat)
    }
}

pub fn dec_str(n: u64) -> (r: String)
    ensures
        r@ == dec(n as nat),
    decreases n,
{
    let d: u8 = (n % 10) as u8;
    let c: char = (48 + d) as char;
    if n < 10 {
        let mut r = String::new();
        r.push(c);
        assert(r@ =~= seq![digit(n as int)]);
        r
    } else {
        let mut r = dec_str(n / 10);
        r.push(c);
        r
    }
}

pub fn dec_int_str(n: i64) -> (r: String)
    ensures
        r@ == dec_int(n as int),
{
    if n < 0 {
        let m: u64 = if n == i64::MIN {
            0x8000_0000_0000_0000
        } else {
            (-n) as u64
        };
        let mut r = String::new();
        r.push('-');
        r.append(dec_str(m).as_str());
        assert(r@ =~= dec_int(n as int));
        r
    } else {
        dec_str(n as u64)
    }
}

pub proof fn lemma_dec_digits(n: nat)
    ensures
        dec(n).len() > 0,
        forall|i: int| 0 <= i < dec(n).len() ==> is_digit(#[trigger] dec(n)[i]),
    decreases n,
{
    if n >= 10 {
        lemma_dec_digits(n / 10);
    }
}

/// The number that a string of decimal digits denotes.
pub open spec fn digits_value(s: Seq<char>) -> nat
    decreases s.len(),
{
    if s.len() == 0 {
        0
    } else {
        digits_value(s.drop_last()) * 10 + (s.last() as u32 - '0' as u32) as nat
    }
}

pub open spec fn all_digits(s: Seq<char>) -> bool {
    forall|i: int| 0 <= i < s.len() ==> is_digit(#[trigger] s[i])
}

/// A number that was written in decimal notation is read back.
pub proof fn lemma_dec_round_trip(n: nat)
    ensures
        all_digits(dec(n)),
        digits_value(dec(n)) == n,
    decreases n,
{
    lemma_dec_digits(n);
    if n < 10 {
        assert(dec(n).drop_last() =~= Seq::<char>::empty());
        assert(digits_value(Seq::<char>::empty()) == 0);
    } else {
        lemma_dec_round_trip(n / 10);
        assert(dec(n).drop_last() =~= dec(n / 10));
    }
}

/// The unsigned number that `s` denotes: digits, with an optional plus sign before them.
pub open spec fn parsed_unsigned(s: Seq<char>, max: nat) -> Option<nat> {
    let t = if s.len() > 0 && s[0] == '+' {
        s.skip(1)
    } else {
        s
    };
    if t.len() > 0 && all_digits(t) && digits_value(t) <= max {
        Some(digits_value(t))
    } else {
        None
    }
}

proof fn lemma_digits_value_prefix(s: Seq<char>, i: int)
    requires
        0 <= i <= s.len(),
        all_digits(s),
    ensures
        digits_value(s.take(i)) <= digits_value(s),
    decreases s.len() - i,
{
    if i < s.len() {
        lemma_digits_value_prefix(s, i + 1);
        assert(s.take(i + 1).drop_last() =~= s.take(i));
    } else {
        assert(s.take(i) =~= s);
    }
}

pub fn parse_u64(s: &str) -> (r: Option<u64>)
    ensures
        r is Some == parsed_unsigned(s@, u64::MAX as nat) is Some,
        r matches Some(n) ==> parsed_unsigned(s@, u64::MAX as nat) == Some(n as nat),
{
    let v = to_chars(s);
    let start: usize = if v.len() > 0 && v[0] == '+' {
        1
    } else {
        0
    };
    let ghost t = v@.skip(start as int);
    assert(start == 0 ==> t =~= s@);
    if start == v.len() {
        return None;
    }
    let mut n: u64 = 0;
    let mut i: usize = start;
    assert(t.take(0) =~= Seq::<char>::empty());
    while i < v.len()
        invariant
            start <= i <= v@.len(),
            t == v@.skip(start as int),
            n == digits_value(t.take(i - start)),
            all_digits(t.take(i - start)),
            parsed_unsigned(s@, u64::MAX as nat) is Some ==> all_digits(t) && digits_value(t)
                <= u64::MAX,
        decreases v@.len() - i,
    {
        let c = v[i];
        assert(t[i - start] == c);
        if !is_ascii_digit(c) {
            return None;
        }
        let d: u64 = c as u64 - '0' as u64;
        proof {
            assert(t.take(i - start + 1).drop_last() =~= t.take(i - start));
            assert(t.take(i - start + 1).last() == c);
            if all_digits(t) {
                lemma_digits_value_prefix(t, i - start + 1);
            }
            let longer = t.take(i - start + 1);
            assert forall|j: int| 0 <= j < longer.len() implies is_digit(#[trigger] longer[j]) by {
                if j < i - start {
                    assert(longer[j] == t.take(i - start)[j]);
                }
            }
        }
        if n > (u64::MAX - d) / 10 {
            assert(n * 10 + d > u64::MAX);
            return None;
        }
        n = n * 10 + d;
        i = i + 1;
    }
    assert(t.take(i - start) =~= t);
    Some(n)
}

/// The longest prefix of `s` that UTF-8 writes in at most `max` bytes.
pub open spec fn byte_prefix(s: Seq<char>, max: nat) -> Seq<char>
    decreases s.len(),
{
    if s.len() == 0 || char_utf8_len(s[0]) > max {
        Seq::empty()
    } else {
        seq![s[0]] + byte_prefix(s.skip(1), (max - char_utf8_len(s[0])) as nat)
    }
}

/// A byte prefix is a prefix, keeps to the limit, and cannot be longer.
pub proof fn lemma_byte_prefix(s: Seq<char>, max: nat)
    ensures
        byte_prefix(s, max).len() <= s.len(),
        byte_prefix(s, max) == s.take(byte_prefix(s, max).len() as int),
        utf8_len(byte_prefix(s, max)) <= max,
        byte_prefix(s, max).len() < s.len() ==> utf8_len(byte_prefix(s, max)) + char_utf8_len(
            s[byte_prefix(s, max).len() as int],
        ) > max,
    decreases s.len(),
{
    let p = byte_prefix(s, max);
    if s.len() == 0 || char_utf8_len(s[0]) > max {
        assert(s.take(0) =~= p);
    } else {
        let rest = (max - char_utf8_len(s[0])) as nat;
        let q = byte_prefix(s.skip(1), rest);
        lemma_byte_prefix(s.skip(1), rest);
        lemma_utf8_len_add(seq![s[0]], q);
        assert(utf8_len(Seq::<char>::empty()) == 0);
        assert(seq![s[0]].drop_last() =~= Seq::<char>::empty());
        assert(utf8_len(seq![s[0]]) == char_utf8_len(s[0]));
        assert(s.take(p.len() as int) =~= p);
        if p.len() < s.len() {
            assert(s.skip(1)[q.len() as int] == s[p.len() as int]);
        }
    }
}

/// How many characters of `v` the longest prefix of at most `max` bytes holds.
pub fn byte_prefix_chars(v: &Vec<char>, max: usize) -> (n: usize)
    ensures
        n <= v@.len(),
        n == byte_prefix(v@, max as nat).len(),
        v@.take(n as int) == byte_prefix(v@, max as nat),
{
    let mut left: usize = max;
    let mut i: usize = 0;
    proof {
        lemma_byte_prefix(v@, max as nat);
        assert(v@.skip(0) =~= v@);
    }
    while i < v.len() && char_len_utf8(v[i]) <= left
        invariant
            i <= v@.len(),
            byte_prefix(v@, max as nat).len() == i + byte_prefix(
                v@.skip(i as int),
                left as nat,
            ).len(),
        decreases v@.len() - i,
    {
        assert(v@.skip(i as int)[0] == v@[i as int]);
        assert(v@.skip(i as int).skip(1) =~= v@.skip(i + 1));
        left = left - char_len_utf8(v[i]);
        i = i + 1;
    }
    assert(i < v@.len() ==> v@.skip(i as int)[0] == v@[i as int]);
    i
}

/// Whether UTF-8 needs more than `max` bytes for `s`.
pub fn bytes_exceed(s: &str, max: usize) -> (r: bool)
    ensures
        r == (utf8_len(s@) > max),
{
    let v = to_chars(s);
    let n = byte_prefix_chars(&v, max);
    proof {
        lemma_byte_prefix(v@, max as nat);
        if n < v@.len() {
            lemma_utf8_len_push(v@.take(n as int), v@[n as int]);
            assert(v@.take(n as int).push(v@[n as int]) =~= v@.take(n + 1));
            lemma_utf8_len_take(v@, n + 1);
        } else {
            assert(v@.take(n as int) =~= v@);
        }
    }
    n < v.len()
}

pub fn byte_prefix_str(s: &str, max: usize) -> (r: String)
    ensures
        r@ == byte_prefix(s@, max as nat),
{
    let v = to_chars(s);
    let n = byte_prefix_chars(&v, max);
    assert(v@.subrange(0, n as int) =~= v@.take(n as int));
    from_chars(&v, 0, n)
}

/// The first `n` characters of `s`, or all of them.
pub open spec fn first_chars(s: Seq<char>, n: nat) -> Seq<char> {
    if s.len() <= n {
        s
    } else {
        s.take(n as int)
    }
}

pub fn first_chars_str(s: &str, n: usize) -> (r: String)
    ensures
        r@ == first_chars(s@, n as nat),
{
    let v = to_chars(s);
    let m = min_usize(n, v.len());
    assert(v@.subrange(0, m as int) =~= first_chars(s@, n as nat));
    from_chars(&v, 0, m)
}

/// A copy of each string.
pub fn clone_strs(v: &Vec<String>) -> (r: Vec<String>)
    ensures
        views(r@) == views(v@),
{
    let mut r: Vec<String> = Vec::new();
    let mut i: usize = 0;
    while i < v.len()
        invariant
            i <= v@.len(),
            views(r@) == views(v@).take(i as int),
        decreases v@.len() - i,
    {
        let ghost before = views(r@);
        r.push(v[i].clone());
        assert(views(r@) =~= before.push(v@[i as int]@));
        assert(views(v@).take(i + 1) =~= views(v@).take(i as int).push(views(v@)[i as int]));
        i = i + 1;
    }
    assert(views(v@).take(v@.len() as int) =~= views(v@));
    r
}

/// Whether `s` is one of the strings.
pub fn contains_string(v: &Vec<String>, s: &str) -> (r: bool)
    ensures
        r == views(v@).contains(s@),
{
    let mut i: usize = 0;
    while i < v.len()
        invariant
            i <= v@.len(),
            forall|j: int| 0 <= j < i ==> #[trigger] views(v@)[j] != s@,
        decreases v@.len() - i,
    {
        if str_eq(v[i].as_str(), s) {
            assert(views(v@)[i as int] == s@);
            return true;
        }
        i = i + 1;
    }
    false
}

/// The pieces of `s` between the occurrences of `p`, taken from the left.
pub open spec fn split_str(s: Seq<char>, p: Seq<char>) -> Seq<Seq<char>>
    decreases s.len(),
    when p.len() > 0
    via split_str_decreases
{
    match find(s, p) {
        Some(k) => seq![s.take(k)] + split_str(s.skip(k + p.len()), p),
        None => seq![s],
    }
}

#[via_fn]
proof fn split_str_decreases(s: Seq<char>, p: Seq<char>) {
    lemma_find_bounds(s, p, 0);
}

pub fn split_by(s: &str, p: &str) -> (r: Vec<String>)
    requires
        p@.len() > 0,
    ensures
        views(r@) == split_str(s@, p@),
{
    let v = to_chars(s);
    let q = to_chars(p);
    let n: usize = v.len();
    let mut out: Vec<String> = Vec::new();
    let mut i: usize = 0;
    assert(v@.skip(0) =~= s@);
    assert(views(out@) + split_str(v@.skip(0), q@) =~= split_str(s@, q@));
    loop
        invariant
            v@ == s@,
            q@ == p@,
            q@.len() > 0,
            n == v@.len(),
            i <= n,
            views(out@) + split_str(v@.skip(i as int), q@) == split_str(s@, q@),
        decreases n - i,
    {
        let ghost before = views(out@);
        let ghost rest = v@.skip(i as int);
        proof {
            lemma_find_skip(v@, q@, i as int, i as int);
            lemma_find_bounds(rest, q@, 0);
        }
        match find_in(&v, &q, i) {
            Some(k) => {
                let piece = from_chars(&v, i, k);
                assert(piece@ =~= rest.take(k - i));
                out.push(piece);
                let next: usize = k + q.len();
                assert(views(out@) =~= before.push(rest.take(k - i)));
                assert(rest.skip(k - i + q@.len()) =~= v@.skip(next as int));
                assert(before + (seq![rest.take(k - i)] + split_str(v@.skip(next as int), q@))
                    =~= views(out@) + split_str(v@.skip(next as int), q@));
                i = next;
            },
            None => {
                let piece = from_chars(&v, i, n);
                assert(piece@ =~= rest);
                out.push(piece);
                assert(views(out@) =~= before + seq![rest]);
                return out;
            },
        }
    }
}

/// How many bytes UTF-8 needs for `s`, but at most `cap`.
pub fn byte_len_capped(s: &str, cap: usize) -> (r: usize)
    ensures
        r == if utf8_len(s@) <= cap {
            utf8_len(s@)
        } else {
            cap as nat
        },
{
    let v = to_chars(s);
    let mut n: usize = 0;
    let mut i: usize = 0;
    assert(v@.take(0) =~= Seq::<char>::empty());
    while i < v.len()
        invariant
            i <= v@.len(),
            v@ == s@,
            n == utf8_len(v@.take(i as int)),
            n <= cap,
        decreases v@.len() - i,
    {
        let c: usize = char_len_utf8(v[i]);
        proof {
            lemma_utf8_len_push(v@.take(i as int), v@[i as int]);
            assert(v@.take(i as int).push(v@[i as int]) =~= v@.take(i + 1));
            lemma_utf8_len_take(v@, i + 1);
        }
        if c > cap - n {
            return cap;
        }
        n = n + c;
        i = i + 1;
    }
    assert(v@.take(i as int) =~= v@);
    n
}

/// A string in double quotes, escaped as `Debug` escapes it.
pub uninterp spec fn debug_quoted(s: Seq<char>) -> Seq<char>;

/// `Debug` of a string, by `format!`: the string in double quotes, with the characters escaped
/// that `char::escape_debug` escapes. The result depends on the string alone.
#[verifier::external_body]
pub(crate) fn debug_str(s: &str) -> (r: String)
    ensures
        r@ == debug_quoted(s@),
{
    format!("{:?}", s)
}

/// The characters of each string.
pub open spec fn str_views(v: Seq<&'static str>) -> Seq<Seq<char>> {
    v.map_values(|s: &'static str| s@)
}

/// `s` as `str::to_lowercase` writes it.
pub uninterp spec fn lowered(s: Seq<char>) -> Seq<char>;

/// `str::to_lowercase`. The result depends on the text alone.
#[verifier::external_body]
pub(crate) fn lower_str(s: &str) -> (r: String)
    ensures
        r@ == lowered(s@),
{
    s.to_lowercase()
}

/// Whether `s` is one of the strings.
pub fn contains_static(v: &Vec<&'static str>, s: &str) -> (r: bool)
    ensures
        r == str_views(v@).contains(s@),
{
    let mut i: usize = 0;
    while i < v.len()
        invariant
            i <= v@.len(),
            forall|j: int| 0 <= j < i ==> #[trigger] str_views(v@)[j] != s@,
        decreases v@.len() - i,
    {
        if str_eq(v[i], s) {
            assert(str_views(v@)[i as int] == s@);
            return true;
        }
        i = i + 1;
    }
    false
}

/// Whether all characters are whitespace.
pub open spec fn is_blank(s: Seq<char>) -> bool {
    forall|i: int| 0 <= i < s.len() ==> is_ws(#[trigger] s[i])
}

pub fn is_blank_str(s: &str) -> (r: bool)
    ensures
        r == is_blank(s@),
{
    let v = to_chars(s);
    let mut i: usize = 0;
    while i < v.len()
        invariant
            i <= v@.len(),
            v@ == s@,
            forall|j: int| 0 <= j < i ==> is_ws(#[trigger] v@[j]),
        decreases v@.len() - i,
    {
        if !is_whitespace(v[i]) {
            assert(!is_ws(s@[i as int]));
            return false;
        }
        i = i + 1;
    }
    true
}

/// Where `p` last stands in `s`, at `i` or before it.
pub open spec fn rfind_from(s: Seq<char>, p: Seq<char>, i: int) -> Option<int>
    decreases i + 1,
{
    if i < 0 {
        None
    } else if i + p.len() <= s.len() && s.subrange(i, i + p.len()) == p {
        Some(i)
    } else {
        rfind_from(s, p, i - 1)
    }
}

/// Where `p` last stands in `s`.
pub open spec fn rfind(s: Seq<char>, p: Seq<char>) -> Option<int> {
    rfind_from(s, p, s.len() as int)
}

pub fn rfind_in(v: &Vec<char>, p: &Vec<char>) -> (r: Option<usize>)
    ensures
        match r {
            Some(k) => rfind(v@, p@) == Some(k as int) && k + p@.len() <= v@.len(),
            None => rfind(v@, p@) is None,
        },
{
    let mut i: usize = v.len();
    loop
        invariant
            i <= v@.len(),
            rfind_from(v@, p@, i as int) == rfind(v@, p@),
        decreases i,
    {
        if stands_at(v, i, p) {
            return Some(i);
        }
        if i == 0 {
            assert(rfind_from(v@, p@, -1) is None);
            return None;
        }
        i = i - 1;
    }
}

/// `s` without the characters `c` at its start.
pub open spec fn without_leading(s: Seq<char>, c: char) -> Seq<char>
    decreases s.len(),
{
    if s.len() > 0 && s[0] == c {
        without_leading(s.skip(1), c)
    } else {
        s
    }
}

pub fn without_leading_str(s: &str, c: char) -> (r: String)
    ensures
        r@ == without_leading(s@, c),
{
    let v = to_chars(s);
    let n: usize = v.len();
    let mut i: usize = 0;
    assert(v@.skip(0) =~= s@);
    while i < n && v[i] == c
        invariant
            i <= n,
            n == v@.len(),
            without_leading(v@.skip(i as int), c) == without_leading(s@, c),
        decreases n - i,
    {
        assert(v@.skip(i as int).skip(1) =~= v@.skip(i + 1));
        i = i + 1;
    }
    assert(v@.subrange(i as int, n as int) =~= v@.skip(i as int));
    from_chars(&v, i, n)
}

/// `s` without the characters at its end that are among `cs`.
pub open spec fn without_trailing(s: Seq<char>, cs: Seq<char>) -> Seq<char>
    decreases s.len(),
{
    if s.len() > 0 && cs.contains(s.last()) {
        without_trailing(s.drop_last(), cs)
    } else {
        s
    }
}

/// Whether `p` stands in `s` at `k`.
pub open spec fn occurs_at(s: Seq<char>, p: Seq<char>, k: int) -> bool {
    0 <= k && k + p.len() <= s.len() && s.subrange(k, k + p.len()) == p
}

pub proof fn lemma_not_contained(s: Seq<char>, p: Seq<char>)
    ensures
        !contains(s, p) <==> forall|k: int| !#[trigger] occurs_at(s, p, k),
{
    lemma_contains_iff(s, p);
    if contains(s, p) {
        let k = choose|k: int|
            0 <= k <= s.len() - p.len() && #[trigger] s.subrange(k, k + p.len()) == p;
        assert(occurs_at(s, p, k));
    }
    if exists|k: int| #[trigger] occurs_at(s, p, k) {
        let k = choose|k: int| #[trigger] occurs_at(s, p, k);
        assert(s.subrange(k, k + p.len()) == p);
    }
}

proof fn lemma_find_is_first(s: Seq<char>, p: Seq<char>, i: int, j: int)
    requires
        0 <= i <= j,
        find_from(s, p, i) matches Some(k) && j < k,
    ensures
        !occurs_at(s, p, j),
    decreases j - i,
{
    if i < j {
        lemma_find_is_first(s, p, i + 1, j);
    }
}

/// A pattern that starts with `c` does not stand in a text after a replacement if it did not
/// stand there before, or is what was replaced: what is put in holds no `c`, and does not start
/// with a character that goes on the pattern.
pub proof fn lemma_replace_excludes(
    s: Seq<char>,
    from: Seq<char>,
    to: Seq<char>,
    p: Seq<char>,
)
    requires
        from.len() > 0,
        p.len() > 0,
        to.len() > 0,
        !to.contains(p[0]),
        forall|i: int| 1 <= i < p.len() ==> p[i] != to[0],
        p == from || !contains(s, p),
    ensures
        !contains(replace(s, from, to), p),
    decreases s.len(),
{
    lemma_find_bounds(s, from, 0);
    lemma_not_contained(s, p);
    let out = replace(s, from, to);
    match find(s, from) {
        None => {},
        Some(k) => {
            let rest = s.skip(k + from.len());
            if p != from {
                lemma_not_contained(rest, p);
                assert forall|j: int| !#[trigger] occurs_at(rest, p, j) by {
                    if occurs_at(rest, p, j) {
                        let at = j + k + from.len();
                        assert(s.subrange(at, at + p.len()) =~= rest.subrange(j, j + p.len()));
                        assert(occurs_at(s, p, at));
                    }
                }
            }
            lemma_replace_excludes(rest, from, to, p);
            let tail = replace(rest, from, to);
            lemma_not_contained(tail, p);
            assert(out == s.take(k) + to + tail);
            assert forall|j: int| !#[trigger] occurs_at(out, p, j) by {
                if occurs_at(out, p, j) {
                    assert(out.subrange(j, j + p.len())[0] == p[0]);
                    assert(out[j] == p[0]);
                    if j < k {
                        if j + p.len() <= k {
                            assert(s.subrange(j, j + p.len()) =~= out.subrange(j, j + p.len()));
                            assert(occurs_at(s, p, j));
                            if p == from {
                                lemma_find_is_first(s, from, 0, j);
                            }
                        } else {
                            assert(out[k] == to[0]);
                            assert(out.subrange(j, j + p.len())[k - j] == to[0]);
                            assert(p[k - j] == to[0]);
                        }
                    } else if j < k + to.len() {
                        assert(out[j] == to[j - k]);
                        assert(to.contains(p[0]));
                    } else {
                        let at = j - k - to.len();
                        assert(tail.subrange(at, at + p.len()) =~= out.subrange(j, j + p.len()));
                        assert(occurs_at(tail, p, at));
                    }
                }
            }
        },
    }
    lemma_not_contained(out, p);
}

/// A text that ends with `c` still does after a replacement of something without `c`.
pub proof fn lemma_replace_keeps_last(s: Seq<char>, from: Seq<char>, to: Seq<char>, c: char)
    requires
        from.len() > 0,
        !from.contains(c),
        s.len() > 0,
        s.last() == c,
    ensures
        replace(s, from, to).len() > 0,
        replace(s, from, to).last() == c,
    decreases s.len(),
{
    lemma_find_bounds(s, from, 0);
    match find(s, from) {
        None => {},
        Some(k) => {
            let rest = s.skip(k + from.len());
            if k + from.len() == s.len() {
                assert(s.subrange(k, k + from.len())[from.len() - 1] == c);
                assert(from.contains(c));
            }
            assert(rest.last() == c);
            lemma_replace_keeps_last(rest, from, to, c);
        },
    }
}

/// `s`, or its start with an ellipsis, where it is longer than `max` characters.
pub open spec fn ellipsized(s: Seq<char>, max: nat) -> Seq<char> {
    if s.len() <= max {
        s
    } else if max == 0 {
        seq!['…']
    } else {
        s.take(max - 1).push('…')
    }
}

pub fn ellipsize(s: &str, max: usize) -> (r: String)
    ensures
        r@ == ellipsized(s@, max as nat),
{
    let v = to_chars(s);
    if v.len() <= max {
        return s.to_string();
    }
    let keep: usize = if max == 0 {
        0
    } else {
        max - 1
    };
    let mut r = from_chars(&v, 0, keep);
    r.push('…');
    assert(r@ =~= ellipsized(s@, max as nat));
    r
}

/// The first `n` strings.
pub open spec fn first_strs(v: Seq<Seq<char>>, n: nat) -> Seq<Seq<char>> {
    if v.len() <= n {
        v
    } else {
        v.take(n as int)
    }
}

pub fn take_strs(v: &Vec<String>, n: usize) -> (r: Vec<String>)
    ensures
        views(r@) == first_strs(views(v@), n as nat),
{
    let m: usize = min_usize(v.len(), n);
    let ghost all = views(v@);
    let mut r: Vec<String> = Vec::new();
    let mut i: usize = 0;
    assert(views(r@) =~= all.take(0));
    while i < m
        invariant
            i <= m <= v@.len(),
            all == views(v@),
            views(r@) == all.take(i as int),
        decreases m - i,
    {
        let ghost before = views(r@);
        r.push(v[i].clone());
        assert(views(r@) =~= before.push(v@[i as int]@));
        assert(all.take(i + 1) =~= before.push(all[i as int]));
        i = i + 1;
    }
    assert(all.len() == v@.len());
    assert(v@.len() <= n ==> all.take(m as int) =~= all);
    r
}

pub proof fn lemma_find_char_in_front(a: Seq<char>, b: Seq<char>, c: char, i: int)
    requires
        0 <= i <= a.len(),
    ensures
        match find_char_from(a, c, i) {
            Some(k) => find_char_from(a + b, c, i) == Some(k),
            None => find_char_from(a + b, c, i) == find_char_from(a + b, c, a.len() as int),
        },
    decreases a.len() - i,
{
    if i < a.len() {
        assert((a + b)[i] == a[i]);
        if a[i] != c {
            lemma_find_char_in_front(a, b, c, i + 1);
        }
    }
}

pub proof fn lemma_find_char_absent(s: Seq<char>, c: char, i: int)
    requires
        0 <= i,
        !s.contains(c),
    ensures
        find_char_from(s, c, i) is None,
    decreases s.len() - i,
{
    if i < s.len() {
        assert(s.contains(s[i]));
        lemma_find_char_absent(s, c, i + 1);
    }
}

pub proof fn lemma_trim_without_last(s: Seq<char>)
    requires
        s.len() > 0,
        is_ws(s.last()),
    ensures
        trim(s.drop_last()) == trim(s),
    decreases s.len(),
{
    let t = s.drop_last();
    if t.len() > 0 && is_ws(s[0]) {
        assert(t[0] == s[0]);
        assert(s.skip(1).drop_last() =~= t.skip(1));
        assert(s.skip(1).last() == s.last());
        lemma_trim_without_last(s.skip(1));
    } else if t.len() > 0 {
        assert(t[0] == s[0]);
        assert(trim_start(s) == s);
        assert(trim_start(t) == t);
        assert(trim_end(s) == trim_end(t));
    } else {
        assert(s.skip(1) =~= Seq::<char>::empty());
        assert(t =~= Seq::<char>::empty());
    }
}

pub proof fn lemma_trim_end_keeps(s: Seq<char>, i: int)
    requires
        0 <= i < s.len(),
        !is_ws(s[i]),
    ensures
        trim_end(s).len() > i,
    decreases s.len(),
{
    if is_ws(s.last()) {
        lemma_trim_end_keeps(s.drop_last(), i);
    }
}

} // verus!
