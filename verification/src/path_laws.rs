//! Where paths lead.
use crate::paths::{followed, is_absolute, is_segment, naming, segments};
use crate::selection::{are_the_wanted, lemma_none_of_none, lemma_one_more};
use crate::text::{find_char, lemma_find_char_bounds, split_char};
use crate::text_laws::lemma_pieces_are_cut_at_separators;
use crate::tools::full_access::{
    are_within, is_catastrophic, is_within, settled_components,
};
use vstd::prelude::*;

verus! {

pub open spec fn names_something() -> spec_fn(Seq<char>) -> bool {
    |piece: Seq<char>| piece.len() > 0 && piece != "."@
}

pub open spec fn piece_itself() -> spec_fn(Seq<char>) -> Seq<char> {
    |piece: Seq<char>| piece
}

/// The names of a path are all its pieces but the empty ones and those that stay where they are.
pub proof fn lemma_no_name_is_lost(pieces: Seq<Seq<char>>)
    ensures
        are_the_wanted(naming(pieces), pieces, names_something(), piece_itself()),
    decreases pieces.len(),
{
    if pieces.len() == 0 {
        lemma_none_of_none(names_something(), piece_itself());
        assert(pieces =~= Seq::empty());
    } else {
        let before = pieces.drop_last();
        lemma_no_name_is_lost(before);
        lemma_one_more(naming(before), before, names_something(), piece_itself(), pieces.last());
        assert(before.push(pieces.last()) =~= pieces);
    }
}

proof fn lemma_naming_parts(a: Seq<Seq<char>>, b: Seq<Seq<char>>)
    ensures
        naming(a + b) == naming(a) + naming(b),
    decreases b.len(),
{
    if b.len() == 0 {
        assert(a + b =~= a);
        assert(naming(b) =~= Seq::empty());
    } else {
        lemma_naming_parts(a, b.drop_last());
        assert((a + b).drop_last() =~= a + b.drop_last());
        assert((a + b).last() == b.last());
        assert(naming(a + b) =~= naming(a) + naming(b));
    }
}

proof fn lemma_split_parts(a: Seq<char>, b: Seq<char>)
    ensures
        split_char(a + seq!['/'] + b, '/') == split_char(a, '/') + split_char(b, '/'),
    decreases a.len(),
{
    let s = a + seq!['/'] + b;
    lemma_find_char_bounds(a, '/', 0);
    match find_char(a, '/') {
        None => {
            assert(!a.contains('/'));
            lemma_pieces_are_cut_at_separators(a, '/', b);
        },
        Some(k) => {
            let head = a.take(k);
            let rest = a.skip(k + 1);
            assert(!head.contains('/'));
            assert(a =~= head + seq!['/'] + rest);
            assert(s =~= head + seq!['/'] + (rest + seq!['/'] + b));
            lemma_pieces_are_cut_at_separators(head, '/', rest);
            lemma_pieces_are_cut_at_separators(head, '/', rest + seq!['/'] + b);
            lemma_split_parts(rest, b);
            assert(seq![head] + (split_char(rest, '/') + split_char(b, '/')) =~= seq![head]
                + split_char(rest, '/') + split_char(b, '/'));
        },
    }
}

/// A path runs through the names in front of a slash, and then through those behind it.
pub proof fn lemma_names_follow_one_another(a: Seq<char>, b: Seq<char>)
    ensures
        segments(a + seq!['/'] + b) == segments(a) + segments(b),
{
    lemma_split_parts(a, b);
    lemma_naming_parts(split_char(a, '/'), split_char(b, '/'));
}

/// A name is a path through itself; nothing and `.` are paths through nothing.
pub proof fn lemma_path_of_one_name(name: Seq<char>)
    requires
        !name.contains('/'),
    ensures
        name.len() > 0 && name != "."@ ==> segments(name) == seq![name],
        segments(Seq::empty()) == Seq::<Seq<char>>::empty(),
        segments("."@) == Seq::<Seq<char>>::empty(),
{
    reveal_strlit(".");
    let nothing = Seq::<char>::empty();
    lemma_pieces_are_cut_at_separators(name, '/', nothing);
    lemma_pieces_are_cut_at_separators(nothing, '/', nothing);
    lemma_pieces_are_cut_at_separators("."@, '/', nothing);
    lemma_one_piece(name);
    lemma_one_piece(nothing);
    lemma_one_piece("."@);
}

proof fn lemma_one_piece(piece: Seq<char>)
    ensures
        naming(seq![piece]) == if is_segment(piece) {
            seq![piece]
        } else {
            Seq::empty()
        },
{
    let one = seq![piece];
    assert(one.drop_last() =~= Seq::empty());
    assert(naming(one.drop_last()) =~= Seq::empty());
    assert(one.last() == piece);
    if is_segment(piece) {
        assert(naming(one) =~= seq![piece]);
    }
}

/// A name leads one step down, and `..` takes that step back; at the root it leads nowhere.
pub proof fn lemma_steps_down_and_back(names: Seq<Seq<char>>, name: Seq<char>, absolute: bool)
    requires
        name != ".."@,
    ensures
        followed(names.push(name), absolute) == followed(names, absolute).push(name),
        followed(names.push(name).push(".."@), absolute) == followed(names, absolute),
        followed(seq![".."@], true) == Seq::<Seq<char>>::empty(),
{
    let down = names.push(name);
    assert(down.drop_last() =~= names);
    let back = down.push(".."@);
    assert(back.drop_last() =~= down);
    assert(back.last() == ".."@);
    assert(followed(down, absolute) == followed(names, absolute).push(name));
    assert(followed(down, absolute).last() == name);
    assert(followed(back, absolute) == followed(down, absolute).drop_last());
    assert(followed(names, absolute).push(name).drop_last() =~= followed(names, absolute));
    let up = seq![".."@];
    assert(up.drop_last() =~= Seq::empty());
    assert(followed(up.drop_last(), true) =~= Seq::empty());
}

/// Whether names lead down only.
pub open spec fn lead_down(names: Seq<Seq<char>>) -> bool {
    forall|i: int| 0 <= i < names.len() ==> #[trigger] names[i] != ".."@
}

proof fn lemma_follow_down(a: Seq<Seq<char>>, b: Seq<Seq<char>>, absolute: bool)
    requires
        lead_down(b),
    ensures
        followed(a + b, absolute) == followed(a, absolute) + b,
    decreases b.len(),
{
    if b.len() == 0 {
        assert(a + b =~= a);
        assert(followed(a, absolute) + b =~= followed(a, absolute));
    } else {
        let before = b.drop_last();
        assert forall|i: int| 0 <= i < before.len() implies #[trigger] before[i] != ".."@ by {
            assert(before[i] == b[i]);
        }
        lemma_follow_down(a, before, absolute);
        assert((a + b).drop_last() =~= a + before);
        assert((a + b).last() == b[b.len() - 1]);
        assert(followed(a, absolute) + before.push(b.last()) =~= (followed(a, absolute)
            + before).push(b.last()));
        assert(before.push(b.last()) =~= b);
    }
}

/// What lies below a directory is within it, however deep.
pub proof fn lemma_what_lies_below_is_within(root: Seq<char>, rest: Seq<char>)
    requires
        root.len() > 0,
        lead_down(segments(rest)),
    ensures
        is_within(root + seq!['/'] + rest, root),
        settled_components(root + seq!['/'] + rest) == settled_components(root) + segments(rest),
{
    let path = root + seq!['/'] + rest;
    assert(path[0] == root[0]);
    lemma_names_follow_one_another(root, rest);
    lemma_follow_down(segments(root), segments(rest), is_absolute(root));
    let a = settled_components(root);
    let b = settled_components(path);
    assert(b =~= a + segments(rest));
    assert forall|i: int| 0 <= i < a.len() implies crate::tools::full_access::same_component(
        #[trigger] b[i],
        a[i],
        false,
    ) by {
        assert(b[i] == a[i]);
    }
    assert(are_within(b, a, false));
}

/// A path is within a directory if and only if it runs through the names of that first.
pub proof fn lemma_within_means_through(path: Seq<char>, root: Seq<char>)
    ensures
        is_within(path, root) <==> settled_components(root).len() <= settled_components(path).len()
            && settled_components(path).take(settled_components(root).len() as int)
            == settled_components(root),
{
    let a = settled_components(root);
    let b = settled_components(path);
    if is_within(path, root) {
        assert forall|i: int| 0 <= i < a.len() implies #[trigger] b.take(a.len() as int)[i] == a[i] by {
            assert(crate::tools::full_access::same_component(b[i], a[i], false));
        }
        assert(b.take(a.len() as int) =~= a);
    } else if a.len() <= b.len() && b.take(a.len() as int) == a {
        assert forall|i: int| 0 <= i < a.len() implies crate::tools::full_access::same_component(
            #[trigger] b[i],
            a[i],
            false,
        ) by {
            assert(b.take(a.len() as int)[i] == b[i]);
        }
    }
}

/// No tool may target what lies below a directory of the system, nor the root, nor what lies directly
/// below it.
pub proof fn lemma_system_is_never_targeted(rest: Seq<char>, name: Seq<char>)
    requires
        lead_down(segments(rest)),
        !name.contains('/'),
    ensures
        is_catastrophic("/etc"@ + seq!['/'] + rest),
        is_catastrophic("/usr"@ + seq!['/'] + rest),
        is_catastrophic("/var"@ + seq!['/'] + rest),
        is_catastrophic("/bin"@ + seq!['/'] + rest),
        is_catastrophic("/sbin"@ + seq!['/'] + rest),
        is_catastrophic("/System"@ + seq!['/'] + rest),
        name.len() > 0 && name != "."@ && name != ".."@ ==> is_catastrophic(seq!['/'] + name),
{
    reveal_strlit("/etc");
    reveal_strlit("/usr");
    reveal_strlit("/var");
    reveal_strlit("/bin");
    reveal_strlit("/sbin");
    reveal_strlit("/System");
    lemma_what_lies_below_is_within("/etc"@, rest);
    lemma_what_lies_below_is_within("/usr"@, rest);
    lemma_what_lies_below_is_within("/var"@, rest);
    lemma_what_lies_below_is_within("/bin"@, rest);
    lemma_what_lies_below_is_within("/sbin"@, rest);
    lemma_what_lies_below_is_within("/System"@, rest);
    if name.len() > 0 && name != "."@ && name != ".."@ {
        let nothing = Seq::<char>::empty();
        lemma_names_follow_one_another(nothing, name);
        assert(nothing + seq!['/'] + name =~= seq!['/'] + name);
        lemma_path_of_one_name(name);
        let names = seq![name];
        assert(Seq::<Seq<char>>::empty() + names =~= names);
        assert(names.drop_last() =~= Seq::empty());
        assert(followed(names.drop_last(), true) =~= Seq::empty());
        assert(names.last() == name);
        assert(followed(names, true) =~= names);
        assert(settled_components(seq!['/'] + name).len() == 2);
    }
}

} // verus!
