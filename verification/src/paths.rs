//! Slash-separated paths.
use crate::text::{
    find_char, find_char_from, join, join_strs, lemma_find_char_absent, lemma_find_char_bounds,
    lemma_find_char_in_front, split_char, split_char_str, str_eq, to_chars, views,
};
use vstd::prelude::*;

verus! {

/// Whether the path starts at the root.
pub open spec fn is_absolute(path: Seq<char>) -> bool {
    path.len() > 0 && path[0] == '/'
}

pub fn is_absolute_path(path: &str) -> (r: bool)
    ensures
        r == is_absolute(path@),
{
    let v = to_chars(path);
    v.len() > 0 && v[0] == '/'
}

/// `rest`, seen from `base`.
pub open spec fn joined(base: Seq<char>, rest: Seq<char>) -> Seq<char> {
    if is_absolute(rest) {
        rest
    } else if base.len() == 0 || base.last() == '/' {
        base + rest
    } else {
        base.push('/') + rest
    }
}

pub fn join_path(base: &str, rest: &str) -> (r: String)
    ensures
        r@ == joined(base@, rest@),
{
    if is_absolute_path(rest) {
        return rest.to_string();
    }
    let v = to_chars(base);
    let mut r = base.to_string();
    if v.len() > 0 && v[v.len() - 1] != '/' {
        r.push('/');
    }
    r.append(rest);
    r
}

/// Whether a piece of a path between slashes names something.
pub open spec fn is_segment(s: Seq<char>) -> bool {
    s.len() > 0 && s != "."@
}

/// The pieces that name something.
pub open spec fn naming(pieces: Seq<Seq<char>>) -> Seq<Seq<char>>
    decreases pieces.len(),
{
    if pieces.len() == 0 {
        Seq::empty()
    } else {
        let before = naming(pieces.drop_last());
        if is_segment(pieces.last()) {
            before.push(pieces.last())
        } else {
            before
        }
    }
}

/// The names that a path runs through, `..` among them.
pub open spec fn segments(path: Seq<char>) -> Seq<Seq<char>> {
    naming(split_char(path, '/'))
}

pub fn path_segments(path: &str) -> (r: Vec<String>)
    ensures
        views(r@) == segments(path@),
{
    let pieces = split_char_str(path, '/');
    let mut r: Vec<String> = Vec::new();
    let mut i: usize = 0;
    assert(views(pieces@).take(0) =~= Seq::<Seq<char>>::empty());
    assert(views(r@) =~= Seq::<Seq<char>>::empty());
    while i < pieces.len()
        invariant
            i <= pieces@.len(),
            views(r@) == naming(views(pieces@).take(i as int)),
        decreases pieces@.len() - i,
    {
        let ghost before = views(r@);
        assert(views(pieces@).take(i + 1).drop_last() =~= views(pieces@).take(i as int));
        assert(views(pieces@).take(i + 1).last() == pieces@[i as int]@);
        if !pieces[i].as_str().is_empty() && !str_eq(pieces[i].as_str(), ".") {
            r.push(pieces[i].clone());
            assert(views(r@) =~= before.push(pieces@[i as int]@));
        }
        i = i + 1;
    }
    assert(views(pieces@).take(pieces@.len() as int) =~= views(pieces@));
    r
}

/// Where a path starts: at the root, at the current directory if it says so, or nowhere in
/// particular.
pub open spec fn path_start(path: Seq<char>) -> Seq<Seq<char>> {
    if is_absolute(path) {
        seq!["/"@]
    } else if split_char(path, '/')[0] == "."@ {
        seq!["."@]
    } else {
        Seq::empty()
    }
}

/// The components of a path: where it starts, and the names that it runs through.
pub open spec fn components(path: Seq<char>) -> Seq<Seq<char>> {
    path_start(path) + segments(path)
}

fn path_start_strs(path: &str) -> (r: Vec<String>)
    ensures
        views(r@) == path_start(path@),
{
    let mut r: Vec<String> = Vec::new();
    if is_absolute_path(path) {
        r.push("/".to_string());
    } else {
        let pieces = split_char_str(path, '/');
        assert(views(pieces@)[0] == pieces@[0]@);
        if str_eq(pieces[0].as_str(), ".") {
            r.push(".".to_string());
        }
    }
    assert(views(r@) =~= path_start(path@));
    r
}

pub fn path_components(path: &str) -> (r: Vec<String>)
    ensures
        views(r@) == components(path@),
{
    let mut r = path_start_strs(path);
    let ghost start = views(r@);
    let mut rest = path_segments(path);
    let ghost names = views(rest@);
    r.append(&mut rest);
    assert(views(r@) =~= start + names);
    r
}

/// Whether `s` begins with `p`.
pub open spec fn seq_starts_with(s: Seq<Seq<char>>, p: Seq<Seq<char>>) -> bool {
    p.len() <= s.len() && s.take(p.len() as int) == p
}

/// Whether `path` is `base` or lies below it, name by name.
pub open spec fn is_below(path: Seq<char>, base: Seq<char>) -> bool {
    seq_starts_with(components(path), components(base))
}

pub fn strs_start_with(s: &Vec<String>, p: &Vec<String>) -> (r: bool)
    ensures
        r == seq_starts_with(views(s@), views(p@)),
{
    if p.len() > s.len() {
        return false;
    }
    let ghost head = views(s@).take(p@.len() as int);
    let mut i: usize = 0;
    while i < p.len()
        invariant
            i <= p@.len() <= s@.len(),
            head == views(s@).take(p@.len() as int),
            forall|j: int| 0 <= j < i ==> head[j] == views(p@)[j],
        decreases p@.len() - i,
    {
        if !str_eq(s[i].as_str(), p[i].as_str()) {
            assert(head[i as int] != views(p@)[i as int]);
            return false;
        }
        i = i + 1;
    }
    assert(head =~= views(p@));
    true
}

pub fn path_is_below(path: &str, base: &str) -> (r: bool)
    ensures
        r == is_below(path@, base@),
{
    strs_start_with(&path_components(path), &path_components(base))
}

/// What stays of the names of a path once they are followed: `..` takes the last name back. With
/// none to take back it is kept on a relative path, and stays where it is at the root.
pub open spec fn followed(names: Seq<Seq<char>>, absolute: bool) -> Seq<Seq<char>>
    decreases names.len(),
{
    if names.len() == 0 {
        Seq::empty()
    } else {
        let before = followed(names.drop_last(), absolute);
        if names.last() != ".."@ {
            before.push(names.last())
        } else if before.len() > 0 && before.last() != ".."@ {
            before.drop_last()
        } else if before.len() > 0 || !absolute {
            before.push(".."@)
        } else {
            before
        }
    }
}

/// A path without empty names, `.` and, as far as possible, `..`.
pub open spec fn normalized_path(raw: Seq<char>) -> Seq<char> {
    let rest = join(followed(segments(raw), is_absolute(raw)), "/"@);
    if is_absolute(raw) {
        "/"@ + rest
    } else {
        rest
    }
}

pub fn follow(names: &Vec<String>, absolute: bool) -> (r: Vec<String>)
    ensures
        views(r@) == followed(views(names@), absolute),
{
    let mut r: Vec<String> = Vec::new();
    let mut i: usize = 0;
    assert(views(names@).take(0) =~= Seq::<Seq<char>>::empty());
    assert(views(r@) =~= Seq::<Seq<char>>::empty());
    while i < names.len()
        invariant
            i <= names@.len(),
            views(r@) == followed(views(names@).take(i as int), absolute),
        decreases names@.len() - i,
    {
        let ghost before = views(r@);
        let n: usize = r.len();
        assert(before.len() == n);
        assert(n > 0 ==> before.last() == r@[n - 1]@);
        assert(views(names@).take(i + 1).drop_last() =~= views(names@).take(i as int));
        assert(views(names@).take(i + 1).last() == names@[i as int]@);
        if !str_eq(names[i].as_str(), "..") {
            r.push(names[i].clone());
            assert(views(r@) =~= before.push(names@[i as int]@));
        } else if n > 0 && !str_eq(r[n - 1].as_str(), "..") {
            r.truncate(n - 1);
            assert(views(r@) =~= before.drop_last());
        } else if n > 0 || !absolute {
            r.push("..".to_string());
            assert(views(r@) =~= before.push(".."@));
        }
        i = i + 1;
    }
    assert(views(names@).take(names@.len() as int) =~= views(names@));
    r
}

pub fn normalize_path(raw: &str) -> (r: String)
    ensures
        r@ == normalized_path(raw@),
{
    let absolute = is_absolute_path(raw);
    let rest = join_strs(&follow(&path_segments(raw), absolute), "/");
    if absolute {
        let mut r = "/".to_string();
        r.append(rest.as_str());
        r
    } else {
        rest
    }
}

/// Whether the names say where to go without detours: none is empty, `.` or holds a slash, and
/// `..` stands only in front of the others, and nowhere behind the root.
pub open spec fn is_straight(names: Seq<Seq<char>>, absolute: bool) -> bool {
    &&& forall|i: int|
        0 <= i < names.len() ==> is_segment(#[trigger] names[i]) && !names[i].contains('/')
    &&& forall|i: int, j: int|
        0 <= j <= i < names.len() && #[trigger] names[i] == ".."@ ==> !absolute
            && #[trigger] names[j] == ".."@
}

/// What a path says is kept by normalizing it: where it starts, and where its names lead to, of
/// which no empty one, no `.` and no `..` that could be followed is left.
pub proof fn lemma_normalized_path_is_straight(raw: Seq<char>)
    ensures
        is_absolute(normalized_path(raw)) == is_absolute(raw),
        segments(normalized_path(raw)) == followed(segments(raw), is_absolute(raw)),
        is_straight(segments(normalized_path(raw)), is_absolute(raw)),
        normalized_path(raw) == if is_absolute(raw) {
            "/"@ + join(segments(normalized_path(raw)), "/"@)
        } else {
            join(segments(normalized_path(raw)), "/"@)
        },
{
    reveal_strlit("/");
    let absolute = is_absolute(raw);
    let names = followed(segments(raw), absolute);
    let n = normalized_path(raw);
    lemma_pieces_hold_no(raw, '/');
    lemma_naming(split_char(raw, '/'));
    lemma_followed_is_straight(segments(raw), absolute);
    lemma_segments_of_joined(names);
    let rest = join(names, "/"@);
    if absolute {
        lemma_find_char_bounds(n, '/', 0);
        assert(n[0] == '/');
        assert(find_char(n, '/') == Some(0int));
        assert(n.take(0) =~= Seq::<char>::empty());
        assert(n.skip(1) =~= rest);
        let pieces = split_char(rest, '/');
        assert(split_char(n, '/') == seq![Seq::<char>::empty()] + pieces);
        lemma_naming_behind(Seq::empty(), pieces);
    } else if names.len() > 0 {
        lemma_joined_first(names);
    }
}

/// A normalized path is normalized already.
pub proof fn lemma_normalize_path_is_idempotent(raw: Seq<char>)
    ensures
        normalized_path(normalized_path(raw)) == normalized_path(raw),
{
    lemma_normalized_path_is_straight(raw);
    lemma_straight_stays(segments(normalized_path(raw)), is_absolute(raw));
}

proof fn lemma_pieces_hold_no(s: Seq<char>, c: char)
    ensures
        forall|i: int|
            0 <= i < split_char(s, c).len() ==> !(#[trigger] split_char(s, c)[i]).contains(c),
    decreases s.len(),
{
    lemma_find_char_bounds(s, c, 0);
    match find_char(s, c) {
        Some(k) => {
            lemma_pieces_hold_no(s.skip(k + 1), c);
            lemma_find_char_is_first(s, c, 0);
            let rest = split_char(s.skip(k + 1), c);
            assert forall|i: int| 0 <= i < split_char(s, c).len() implies !(
            #[trigger] split_char(s, c)[i]).contains(c) by {
                if i > 0 {
                    assert(split_char(s, c)[i] == rest[i - 1]);
                }
            }
        },
        None => {
            lemma_find_char_is_first(s, c, 0);
        },
    }
}

proof fn lemma_find_char_is_first(s: Seq<char>, c: char, i: int)
    requires
        0 <= i,
    ensures
        match find_char_from(s, c, i) {
            Some(k) => forall|j: int| i <= j < k ==> #[trigger] s[j] != c,
            None => forall|j: int| i <= j < s.len() ==> #[trigger] s[j] != c,
        },
    decreases s.len() - i,
{
    if i < s.len() && s[i] != c {
        lemma_find_char_is_first(s, c, i + 1);
    }
}

proof fn lemma_naming(pieces: Seq<Seq<char>>)
    ensures
        forall|i: int|
            0 <= i < naming(pieces).len() ==> is_segment(#[trigger] naming(pieces)[i])
                && pieces.contains(naming(pieces)[i]),
    decreases pieces.len(),
{
    if pieces.len() > 0 {
        lemma_naming(pieces.drop_last());
        assert forall|i: int| 0 <= i < naming(pieces).len() implies is_segment(
            #[trigger] naming(pieces)[i],
        ) && pieces.contains(naming(pieces)[i]) by {
            let before = naming(pieces.drop_last());
            if i < before.len() {
                assert(naming(pieces)[i] == before[i]);
                let j = choose|j: int|
                    0 <= j < pieces.drop_last().len() && pieces.drop_last()[j] == before[i];
                assert(pieces[j] == before[i]);
            } else {
                assert(pieces[pieces.len() - 1] == naming(pieces)[i]);
            }
        }
    }
}

proof fn lemma_naming_keeps(names: Seq<Seq<char>>)
    requires
        forall|i: int| 0 <= i < names.len() ==> is_segment(#[trigger] names[i]),
    ensures
        naming(names) == names,
    decreases names.len(),
{
    if names.len() > 0 {
        lemma_naming_keeps(names.drop_last());
        assert(is_segment(names[names.len() - 1]));
        assert(names.drop_last().push(names.last()) =~= names);
    } else {
        assert(naming(names) =~= names);
    }
}

proof fn lemma_naming_behind(first: Seq<char>, pieces: Seq<Seq<char>>)
    requires
        !is_segment(first),
    ensures
        naming(seq![first] + pieces) == naming(pieces),
    decreases pieces.len(),
{
    let all = seq![first] + pieces;
    if pieces.len() == 0 {
        assert(all.drop_last() =~= pieces);
        assert(all.last() == first);
        assert(naming(pieces) =~= Seq::<Seq<char>>::empty());
    } else {
        lemma_naming_behind(first, pieces.drop_last());
        assert(all.drop_last() =~= seq![first] + pieces.drop_last());
        assert(all.last() == pieces.last());
    }
}

proof fn lemma_followed_is_straight(names: Seq<Seq<char>>, absolute: bool)
    requires
        forall|i: int|
            0 <= i < names.len() ==> is_segment(#[trigger] names[i]) && !names[i].contains('/'),
    ensures
        is_straight(followed(names, absolute), absolute),
    decreases names.len(),
{
    if names.len() > 0 {
        reveal_strlit("..");
        reveal_strlit(".");
        lemma_followed_is_straight(names.drop_last(), absolute);
        let before = followed(names.drop_last(), absolute);
        assert(is_segment(names[names.len() - 1]) && !names.last().contains('/'));
        assert(is_segment(".."@) && !".."@.contains('/'));
        if names.last() == ".."@ && before.len() > 0 {
            assert(before[before.len() - 1] == before.last());
        }
    }
}

proof fn lemma_straight_stays(names: Seq<Seq<char>>, absolute: bool)
    requires
        is_straight(names, absolute),
    ensures
        followed(names, absolute) == names,
    decreases names.len(),
{
    if names.len() > 0 {
        let before = names.drop_last();
        assert(is_straight(before, absolute)) by {
            assert forall|i: int| 0 <= i < before.len() implies is_segment(#[trigger] before[i])
                && !before[i].contains('/') by {
                assert(before[i] == names[i]);
            }
            assert forall|i: int, j: int|
                0 <= j <= i < before.len() && #[trigger] before[i] == ".."@ implies !absolute
                && #[trigger] before[j] == ".."@ by {
                assert(before[i] == names[i] && before[j] == names[j]);
            }
        }
        lemma_straight_stays(before, absolute);
        let last = names[names.len() - 1];
        if last == ".."@ && before.len() > 0 {
            assert(names[names.len() - 2] == ".."@);
        }
        assert(before.push(last) =~= names);
    } else {
        assert(followed(names, absolute) =~= names);
    }
}

proof fn lemma_joined_first(names: Seq<Seq<char>>)
    requires
        names.len() > 0,
        names[0].len() > 0,
    ensures
        join(names, "/"@).len() > 0,
        join(names, "/"@)[0] == names[0][0],
    decreases names.len(),
{
    if names.len() > 1 {
        lemma_joined_first(names.drop_last());
    }
}

/// A join, taken apart at its first separator.
proof fn lemma_join_first(names: Seq<Seq<char>>, sep: Seq<char>)
    requires
        names.len() > 1,
    ensures
        join(names, sep) == names[0] + sep + join(names.skip(1), sep),
    decreases names.len(),
{
    if names.len() == 2 {
        assert(names.drop_last() =~= seq![names[0]]);
        assert(names.skip(1) =~= seq![names[1]]);
        assert(join(names.drop_last(), sep) == names[0]);
        assert(join(names.skip(1), sep) == names[1]);
    } else {
        lemma_join_first(names.drop_last(), sep);
        assert(names.drop_last().skip(1) =~= names.skip(1).drop_last());
        assert(names.skip(1).last() == names.last());
        assert(join(names, sep) =~= names[0] + sep + join(names.skip(1), sep));
    }
}

proof fn lemma_split_of_joined(names: Seq<Seq<char>>)
    requires
        names.len() > 0,
        forall|i: int| 0 <= i < names.len() ==> !(#[trigger] names[i]).contains('/'),
    ensures
        split_char(join(names, "/"@), '/') == names,
    decreases names.len(),
{
    reveal_strlit("/");
    let first = names[0];
    if names.len() == 1 {
        lemma_find_char_absent(first, '/', 0);
        assert(seq![first] =~= names);
    } else {
        let tail = names.skip(1);
        let rest = join(tail, "/"@);
        lemma_join_first(names, "/"@);
        assert(join(names, "/"@) =~= first + (seq!['/'] + rest));
        lemma_find_char_in_front(first, seq!['/'] + rest, '/', 0);
        lemma_find_char_absent(first, '/', 0);
        let all = join(names, "/"@);
        assert(all[first.len() as int] == '/');
        assert(find_char(all, '/') == Some(first.len() as int));
        assert(all.take(first.len() as int) =~= first);
        assert(all.skip(first.len() as int + 1) =~= rest);
        assert forall|i: int| 0 <= i < tail.len() implies !(#[trigger] tail[i]).contains('/') by {
            assert(tail[i] == names[i + 1]);
        }
        lemma_split_of_joined(tail);
        assert(seq![first] + tail =~= names);
    }
}

proof fn lemma_segments_of_joined(names: Seq<Seq<char>>)
    requires
        forall|i: int|
            0 <= i < names.len() ==> is_segment(#[trigger] names[i]) && !names[i].contains('/'),
    ensures
        segments(join(names, "/"@)) == names,
{
    if names.len() == 0 {
        let nothing = Seq::<char>::empty();
        assert(find_char(nothing, '/') is None);
        assert(split_char(nothing, '/') =~= seq![nothing]);
        assert(seq![nothing].drop_last() =~= names);
        assert(naming(names) =~= names);
    } else {
        lemma_split_of_joined(names);
        lemma_naming_keeps(names);
    }
}

/// The names, each `..` having taken back the one before it; nothing where there is none to
/// take back.
pub open spec fn resolved(names: Seq<Seq<char>>) -> Option<Seq<Seq<char>>>
    decreases names.len(),
{
    if names.len() == 0 {
        Some(Seq::empty())
    } else {
        match resolved(names.drop_last()) {
            None => None,
            Some(before) => if names.last() != ".."@ {
                Some(before.push(names.last()))
            } else if before.len() > 0 {
                Some(before.drop_last())
            } else {
                None
            },
        }
    }
}

/// A path with these components, written out.
pub open spec fn written(start: Seq<Seq<char>>, names: Seq<Seq<char>>) -> Seq<char> {
    if start.len() > 0 && start[0] == "/"@ {
        "/"@ + join(names, "/"@)
    } else {
        join(start + names, "/"@)
    }
}

/// A path without `.` and `..`, where no `..` leads above its start.
pub open spec fn lexically_normalized(path: Seq<char>) -> Option<Seq<char>> {
    match resolved(segments(path)) {
        Some(names) => Some(written(path_start(path), names)),
        None => None,
    }
}

fn resolve(names: &Vec<String>) -> (r: Option<Vec<String>>)
    ensures
        match r {
            Some(v) => resolved(views(names@)) == Some(views(v@)),
            None => resolved(views(names@)) is None,
        },
{
    let mut r: Vec<String> = Vec::new();
    let mut i: usize = 0;
    let n: usize = names.len();
    assert(views(names@).take(0) =~= Seq::<Seq<char>>::empty());
    assert(views(r@) =~= Seq::<Seq<char>>::empty());
    while i < n
        invariant
            n == names@.len(),
            i <= n,
            resolved(views(names@).take(i as int)) == Some(views(r@)),
        decreases n - i,
    {
        let ghost before = views(r@);
        assert(before.len() == r@.len());
        assert(views(names@).take(i + 1).drop_last() =~= views(names@).take(i as int));
        assert(views(names@).take(i + 1).last() == names@[i as int]@);
        if !str_eq(names[i].as_str(), "..") {
            r.push(names[i].clone());
            assert(views(r@) =~= before.push(names@[i as int]@));
        } else if r.len() > 0 {
            let m: usize = r.len() - 1;
            r.truncate(m);
            assert(views(r@) =~= before.drop_last());
        } else {
            proof {
                lemma_resolved_prefix(views(names@), i + 1);
            }
            return None;
        }
        i = i + 1;
    }
    assert(views(names@).take(n as int) =~= views(names@));
    Some(r)
}

proof fn lemma_resolved_prefix(names: Seq<Seq<char>>, i: int)
    requires
        0 <= i <= names.len(),
        resolved(names.take(i)) is None,
    ensures
        resolved(names) is None,
    decreases names.len() - i,
{
    if i < names.len() {
        assert(names.take(i + 1).drop_last() =~= names.take(i));
        lemma_resolved_prefix(names, i + 1);
    } else {
        assert(names.take(i) =~= names);
    }
}

/// The path without `.` and `..`; nothing where a `..` leads above its start.
pub fn normalize_lexically(path: &str) -> (r: Option<String>)
    ensures
        match r {
            Some(p) => lexically_normalized(path@) == Some(p@),
            None => lexically_normalized(path@) is None,
        },
{
    match resolve(&path_segments(path)) {
        Some(names) => {
            let mut start = path_start_strs(path);
            let ghost first = views(start@);
            if is_absolute_path(path) {
                assert(first[0] == "/"@);
                let mut r = "/".to_string();
                r.append(join_strs(&names, "/").as_str());
                Some(r)
            } else {
                proof {
                    reveal_strlit("/");
                    reveal_strlit(".");
                    assert("/"@[0] != "."@[0]);
                }
                let ghost rest = views(names@);
                let mut names = names;
                start.append(&mut names);
                assert(views(start@) =~= first + rest);
                Some(join_strs(&start, "/"))
            }
        },
        None => None,
    }
}

/// The paths, without those below `path`.
pub open spec fn without_below(paths: Seq<Seq<char>>, path: Seq<char>) -> Seq<Seq<char>>
    decreases paths.len(),
{
    if paths.len() == 0 {
        Seq::empty()
    } else {
        let before = without_below(paths.drop_last(), path);
        if is_below(paths.last(), path) {
            before
        } else {
            before.push(paths.last())
        }
    }
}

/// Whether `path` lies below one of the paths.
pub open spec fn covered(paths: Seq<Seq<char>>, path: Seq<char>) -> bool {
    exists|i: int| 0 <= i < paths.len() && is_below(path, #[trigger] paths[i])
}

/// The paths with one more, unless it is covered; what it covers itself is left out.
pub open spec fn with_subtree(paths: Seq<Seq<char>>, path: Seq<char>) -> Seq<Seq<char>> {
    if covered(paths, path) {
        paths
    } else {
        without_below(paths, path).push(path)
    }
}

/// Adds a path to a list in which none covers another.
pub fn insert_subtree(paths: &mut Vec<String>, path: String)
    ensures
        views(final(paths)@) == with_subtree(views(old(paths)@), path@),
{
    let mut kept: Vec<String> = Vec::new();
    let mut i: usize = 0;
    assert(views(paths@).take(0) =~= Seq::<Seq<char>>::empty());
    assert(views(kept@) =~= Seq::<Seq<char>>::empty());
    while i < paths.len()
        invariant
            paths@ == old(paths)@,
            i <= paths@.len(),
            views(kept@) == without_below(views(paths@).take(i as int), path@),
            forall|j: int| 0 <= j < i ==> !is_below(path@, #[trigger] views(paths@)[j]),
        decreases paths@.len() - i,
    {
        let ghost before = views(kept@);
        assert(views(paths@).take(i + 1).drop_last() =~= views(paths@).take(i as int));
        assert(views(paths@).take(i + 1).last() == paths@[i as int]@);
        if path_is_below(path.as_str(), paths[i].as_str()) {
            assert(is_below(path@, views(paths@)[i as int]));
            return;
        }
        if !path_is_below(paths[i].as_str(), path.as_str()) {
            kept.push(paths[i].clone());
            assert(views(kept@) =~= before.push(paths@[i as int]@));
        }
        i = i + 1;
    }
    assert(views(paths@).take(paths@.len() as int) =~= views(paths@));
    let ghost before = views(kept@);
    let ghost text = path@;
    kept.push(path);
    assert(views(kept@) =~= before.push(text));
    *paths = kept;
}

/// No path of the list lies below another one.
pub open spec fn is_minimal(paths: Seq<Seq<char>>) -> bool {
    forall|i: int, j: int|
        0 <= i < paths.len() && 0 <= j < paths.len() && i != j ==> !is_below(
            #[trigger] paths[i],
            #[trigger] paths[j],
        )
}

proof fn lemma_without_below(paths: Seq<Seq<char>>, path: Seq<char>)
    ensures
        forall|i: int|
            0 <= i < without_below(paths, path).len() ==> {
                &&& !is_below(#[trigger] without_below(paths, path)[i], path)
                &&& paths.contains(without_below(paths, path)[i])
            },
        is_minimal(paths) ==> is_minimal(without_below(paths, path)),
    decreases paths.len(),
{
    if paths.len() > 0 {
        let front = paths.drop_last();
        lemma_without_below(front, path);
        let before = without_below(front, path);
        let after = without_below(paths, path);
        assert forall|i: int| 0 <= i < after.len() implies paths.contains(#[trigger] after[i]) by {
            if i < before.len() {
                assert(before[i] == after[i]);
                let k = choose|k: int| 0 <= k < front.len() && front[k] == before[i];
                assert(paths[k] == after[i]);
            } else {
                assert(paths[paths.len() - 1] == after[i]);
            }
        }
        if is_minimal(paths) {
            assert forall|i: int, j: int|
                0 <= i < front.len() && 0 <= j < front.len() && i != j implies !is_below(
                #[trigger] front[i],
                #[trigger] front[j],
            ) by {
                assert(front[i] == paths[i] && front[j] == paths[j]);
            }
            assert forall|i: int, j: int|
                0 <= i < after.len() && 0 <= j < after.len() && i != j implies !is_below(
                #[trigger] after[i],
                #[trigger] after[j],
            ) by {
                if i < before.len() && j < before.len() {
                    assert(before[i] == after[i] && before[j] == after[j]);
                } else if i < before.len() {
                    assert(before[i] == after[i]);
                    let k = choose|k: int| 0 <= k < front.len() && front[k] == before[i];
                    assert(paths[k] == after[i] && paths[paths.len() - 1] == after[j]);
                } else {
                    assert(before[j] == after[j]);
                    let k = choose|k: int| 0 <= k < front.len() && front[k] == before[j];
                    assert(paths[k] == after[j] && paths[paths.len() - 1] == after[i]);
                }
            }
        }
    }
}

/// A list in which no path covers another stays such a list when a path is added, and the added
/// path is then covered.
pub proof fn lemma_with_subtree_is_minimal(paths: Seq<Seq<char>>, path: Seq<char>)
    requires
        is_minimal(paths),
    ensures
        is_minimal(with_subtree(paths, path)),
        covered(with_subtree(paths, path), path),
{
    if !covered(paths, path) {
        lemma_without_below(paths, path);
        let kept = without_below(paths, path);
        let after = kept.push(path);
        assert(components(path).take(components(path).len() as int) =~= components(path));
        assert(is_below(path, after[after.len() - 1]));
        assert forall|i: int, j: int|
            0 <= i < after.len() && 0 <= j < after.len() && i != j implies !is_below(
            #[trigger] after[i],
            #[trigger] after[j],
        ) by {
            if i < kept.len() && j < kept.len() {
                assert(kept[i] == after[i] && kept[j] == after[j]);
            } else if i < kept.len() {
                assert(kept[i] == after[i]);
            } else {
                assert(kept[j] == after[j]);
                let k = choose|k: int| 0 <= k < paths.len() && paths[k] == kept[j];
                assert(!is_below(path, paths[k]));
            }
        }
    }
}

} // verus!
