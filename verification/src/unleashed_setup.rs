//! The settings page on which trusted and forbidden directories are listed.
use crate::paths::{
    components, is_absolute, is_absolute_path, lexically_normalized, normalize_lexically,
    path_components, strs_start_with,
};
use crate::settings_content::{AgentSettingsContent, ExtendingVec, FullAccessSettingsContent};
use crate::text::{eq_ignore_case, eq_ignore_case_str, str_eq, trim, trim_str, views};
use crate::tools::full_access::PATH_ESCAPES;
use vstd::prelude::*;

verus! {

pub const NOT_ABSOLUTE: &'static str =
    "Enter an absolute path (for example, C:\\Users\\you\\Scratch).";

pub const ALREADY_LISTED: &'static str = "That path is already in this list.";

/// The list that a directory stands in.
#[derive(Clone, Copy, Debug, PartialEq, Eq, Structural)]
pub enum RootKind {
    Allowed,
    Denied,
}

/// An absolute path, cleared of its detours.
pub fn validate_absolute_path(raw: &str) -> (r: Result<String, String>)
    ensures
        match r {
            Ok(path) => is_absolute(raw@) && lexically_normalized(raw@) == Some(path@),
            Err(e) => if is_absolute(raw@) {
                lexically_normalized(raw@) is None && e@ == "Invalid path: "@ + PATH_ESCAPES@
            } else {
                e@ == NOT_ABSOLUTE@
            },
        },
{
    if !is_absolute_path(raw) {
        return Err(NOT_ABSOLUTE.to_string());
    }
    match normalize_lexically(raw) {
        Some(path) => Ok(path),
        None => {
            let mut e = "Invalid path: ".to_string();
            e.append(PATH_ESCAPES);
            Err(e)
        },
    }
}

/// Whether two paths are one; on Windows the case of letters does not matter.
pub open spec fn same_path(a: Seq<char>, b: Seq<char>, windows: bool) -> bool {
    if windows {
        eq_ignore_case(a, b)
    } else {
        components(a) == components(b)
    }
}

pub fn path_eq(a: &str, b: &str, windows: bool) -> (r: bool)
    ensures
        r == same_path(a@, b@, windows),
{
    if windows {
        eq_ignore_case_str(a, b)
    } else {
        let x = path_components(a);
        let y = path_components(b);
        if x.len() != y.len() {
            assert(views(x@).len() != views(y@).len());
            return false;
        }
        proof {
            assert(views(x@).take(views(y@).len() as int) =~= views(x@));
        }
        strs_start_with(&x, &y)
    }
}

/// The first root that is the same as `path`, looking from `i` on.
pub open spec fn root_from(
    roots: Seq<Seq<char>>,
    path: Seq<char>,
    windows: bool,
    i: int,
) -> Option<int>
    decreases roots.len() - i,
{
    if i < 0 || i >= roots.len() {
        None
    } else if same_path(roots[i], path, windows) {
        Some(i)
    } else {
        root_from(roots, path, windows, i + 1)
    }
}

pub open spec fn has_root(roots: Seq<Seq<char>>, path: Seq<char>, windows: bool) -> bool {
    root_from(roots, path, windows, 0) is Some
}

/// Whether a root other than `before` is the same as `path`.
pub open spec fn clashes(
    roots: Seq<Seq<char>>,
    path: Seq<char>,
    before: Seq<char>,
    windows: bool,
) -> bool {
    exists|i: int|
        0 <= i < roots.len() && #[trigger] same_path(roots[i], path, windows) && !same_path(
            roots[i],
            before,
            windows,
        )
}

pub open spec fn with_root(roots: Seq<Seq<char>>, path: Seq<char>, windows: bool) -> Seq<
    Seq<char>,
> {
    if has_root(roots, path, windows) {
        roots
    } else {
        roots.push(path)
    }
}

pub open spec fn without_root(roots: Seq<Seq<char>>, path: Seq<char>, windows: bool) -> Seq<
    Seq<char>,
>
    decreases roots.len(),
{
    if roots.len() == 0 {
        Seq::empty()
    } else if same_path(roots.last(), path, windows) {
        without_root(roots.drop_last(), path, windows)
    } else {
        without_root(roots.drop_last(), path, windows).push(roots.last())
    }
}

/// The roots with `path` in place of `before`, unless that would list a directory twice.
pub open spec fn with_root_replaced(
    roots: Seq<Seq<char>>,
    before: Seq<char>,
    path: Seq<char>,
    windows: bool,
) -> Seq<Seq<char>> {
    if clashes(roots, path, before, windows) {
        roots
    } else {
        match root_from(roots, before, windows, 0) {
            Some(i) => roots.update(i, path),
            None => roots,
        }
    }
}

proof fn lemma_root_from(roots: Seq<Seq<char>>, path: Seq<char>, windows: bool, i: int)
    requires
        0 <= i,
    ensures
        match root_from(roots, path, windows, i) {
            Some(k) => i <= k < roots.len() && same_path(roots[k], path, windows),
            None => forall|k: int|
                i <= k < roots.len() ==> !#[trigger] same_path(roots[k], path, windows),
        },
    decreases roots.len() - i,
{
    if i < roots.len() && !same_path(roots[i], path, windows) {
        lemma_root_from(roots, path, windows, i + 1);
    }
}

fn find_root(roots: &Vec<String>, path: &str, windows: bool) -> (r: Option<usize>)
    ensures
        match r {
            Some(i) => root_from(views(roots@), path@, windows, 0) == Some(i as int) && i
                < roots@.len(),
            None => root_from(views(roots@), path@, windows, 0) is None,
        },
{
    let ghost all = views(roots@);
    let mut i: usize = 0;
    while i < roots.len()
        invariant
            i <= roots@.len(),
            all == views(roots@),
            root_from(all, path@, windows, i as int) == root_from(all, path@, windows, 0),
        decreases roots@.len() - i,
    {
        assert(all[i as int] == roots@[i as int]@);
        if path_eq(roots[i].as_str(), path, windows) {
            return Some(i);
        }
        i = i + 1;
    }
    None
}

fn find_clash(roots: &Vec<String>, path: &str, before: &str, windows: bool) -> (r: bool)
    ensures
        r == clashes(views(roots@), path@, before@, windows),
{
    let ghost all = views(roots@);
    let mut i: usize = 0;
    while i < roots.len()
        invariant
            i <= roots@.len(),
            all == views(roots@),
            forall|k: int|
                0 <= k < i && #[trigger] same_path(all[k], path@, windows) ==> same_path(
                    all[k],
                    before@,
                    windows,
                ),
        decreases roots@.len() - i,
    {
        assert(all[i as int] == roots@[i as int]@);
        if path_eq(roots[i].as_str(), path, windows) && !path_eq(
            roots[i].as_str(),
            before,
            windows,
        ) {
            assert(same_path(all[i as int], path@, windows));
            return true;
        }
        i = i + 1;
    }
    false
}

/// The directories of one kind that the settings list.
pub open spec fn listed_roots(settings: AgentSettingsContent, kind: RootKind) -> Seq<Seq<char>> {
    match settings.full_access {
        Some(f) => match (match kind {
            RootKind::Allowed => f.allowed_roots,
            RootKind::Denied => f.denied_roots,
        }) {
            Some(list) => views(list.0@),
            None => Seq::empty(),
        },
        None => Seq::empty(),
    }
}

pub open spec fn access_or_default(
    content: Option<FullAccessSettingsContent>,
) -> FullAccessSettingsContent {
    match content {
        Some(f) => f,
        None => FullAccessSettingsContent {
            enabled: None,
            allowed_roots: None,
            denied_roots: None,
        },
    }
}

/// Whether the settings differ in the directories of one kind at most, which are given.
pub open spec fn lists_instead(
    before: AgentSettingsContent,
    after: AgentSettingsContent,
    kind: RootKind,
) -> bool {
    &&& after == (AgentSettingsContent { full_access: after.full_access, ..before })
    &&& after.full_access matches Some(f) && f == match kind {
        RootKind::Allowed => FullAccessSettingsContent {
            allowed_roots: f.allowed_roots,
            ..access_or_default(before.full_access)
        },
        RootKind::Denied => FullAccessSettingsContent {
            denied_roots: f.denied_roots,
            ..access_or_default(before.full_access)
        },
    }
    &&& match kind {
        RootKind::Allowed => after.full_access->0.allowed_roots is Some,
        RootKind::Denied => after.full_access->0.denied_roots is Some,
    }
}

fn take_roots(settings: &mut AgentSettingsContent, kind: RootKind) -> (r: (
    FullAccessSettingsContent,
    Vec<String>,
))
    ensures
        views(r.1@) == listed_roots(*old(settings), kind),
        *final(settings) == (AgentSettingsContent { full_access: None, ..*old(settings) }),
        r.0 == match kind {
            RootKind::Allowed => FullAccessSettingsContent {
                allowed_roots: None,
                ..access_or_default(old(settings).full_access)
            },
            RootKind::Denied => FullAccessSettingsContent {
                denied_roots: None,
                ..access_or_default(old(settings).full_access)
            },
        },
{
    let mut access = match settings.full_access.take() {
        Some(f) => f,
        None => FullAccessSettingsContent {
            enabled: None,
            allowed_roots: None,
            denied_roots: None,
        },
    };
    let list = match kind {
        RootKind::Allowed => access.allowed_roots.take(),
        RootKind::Denied => access.denied_roots.take(),
    };
    let roots = match list {
        Some(list) => list.0,
        None => Vec::new(),
    };
    assert(views(roots@) =~= listed_roots(*old(settings), kind));
    (access, roots)
}

fn put_roots(
    settings: &mut AgentSettingsContent,
    kind: RootKind,
    access: FullAccessSettingsContent,
    roots: Vec<String>,
)
    ensures
        *final(settings) == (AgentSettingsContent {
            full_access: Some(
                match kind {
                    RootKind::Allowed => FullAccessSettingsContent {
                        allowed_roots: Some(ExtendingVec(roots)),
                        ..access
                    },
                    RootKind::Denied => FullAccessSettingsContent {
                        denied_roots: Some(ExtendingVec(roots)),
                        ..access
                    },
                },
            ),
            ..*old(settings)
        }),
{
    let mut access = access;
    match kind {
        RootKind::Allowed => {
            access.allowed_roots = Some(ExtendingVec(roots));
        },
        RootKind::Denied => {
            access.denied_roots = Some(ExtendingVec(roots));
        },
    }
    settings.full_access = Some(access);
}

/// Lists a directory, unless it is among the `current` ones, which are in effect now.
pub fn add_root(
    settings: &mut AgentSettingsContent,
    kind: RootKind,
    current: &Vec<String>,
    path: String,
    windows: bool,
) -> (r: bool)
    ensures
        r == !has_root(views(current@), path@, windows),
        !r ==> *final(settings) == *old(settings),
        r ==> lists_instead(*old(settings), *final(settings), kind) && listed_roots(
            *final(settings),
            kind,
        ) == with_root(listed_roots(*old(settings), kind), path@, windows),
{
    if find_root(current, path.as_str(), windows).is_some() {
        return false;
    }
    let (access, mut roots) = take_roots(settings, kind);
    if find_root(&roots, path.as_str(), windows).is_none() {
        let ghost before = views(roots@);
        roots.push(path);
        assert(views(roots@) =~= before.push(path@));
    }
    put_roots(settings, kind, access, roots);
    true
}

/// Takes a directory off a list.
pub fn remove_root(
    settings: &mut AgentSettingsContent,
    kind: RootKind,
    path: &str,
    windows: bool,
)
    ensures
        lists_instead(*old(settings), *final(settings), kind),
        listed_roots(*final(settings), kind) == without_root(
            listed_roots(*old(settings), kind),
            path@,
            windows,
        ),
{
    let (access, roots) = take_roots(settings, kind);
    let ghost all = views(roots@);
    let mut kept: Vec<String> = Vec::new();
    let mut i: usize = 0;
    assert(views(kept@) =~= without_root(all.take(0), path@, windows));
    while i < roots.len()
        invariant
            i <= roots@.len(),
            all == views(roots@),
            views(kept@) == without_root(all.take(i as int), path@, windows),
        decreases roots@.len() - i,
    {
        assert(all.take(i + 1).drop_last() =~= all.take(i as int));
        assert(all.take(i + 1).last() == roots@[i as int]@);
        if !path_eq(roots[i].as_str(), path, windows) {
            let ghost before = views(kept@);
            kept.push(roots[i].clone());
            assert(views(kept@) =~= before.push(roots@[i as int]@));
        }
        i = i + 1;
    }
    assert(all.take(roots@.len() as int) =~= all);
    put_roots(settings, kind, access, kept);
}

/// Puts a directory in place of another that is listed, unless a third is the same as it.
pub fn update_root(
    settings: &mut AgentSettingsContent,
    kind: RootKind,
    current: &Vec<String>,
    old_path: &str,
    new_path: String,
    windows: bool,
) -> (r: bool)
    ensures
        r == (!clashes(views(current@), new_path@, old_path@, windows) && has_root(
            views(current@),
            old_path@,
            windows,
        )),
        !r ==> *final(settings) == *old(settings),
        r ==> lists_instead(*old(settings), *final(settings), kind) && listed_roots(
            *final(settings),
            kind,
        ) == with_root_replaced(
            listed_roots(*old(settings), kind),
            old_path@,
            new_path@,
            windows,
        ),
{
    if find_clash(current, new_path.as_str(), old_path, windows) {
        return false;
    }
    if find_root(current, old_path, windows).is_none() {
        return false;
    }
    let (access, mut roots) = take_roots(settings, kind);
    if !find_clash(&roots, new_path.as_str(), old_path, windows) {
        if let Some(i) = find_root(&roots, old_path, windows) {
            let ghost before = views(roots@);
            roots.set(i, new_path);
            assert(views(roots@) =~= before.update(i as int, new_path@));
        }
    }
    put_roots(settings, kind, access, roots);
    true
}

/// What confirming a field came to.
#[derive(Debug, PartialEq)]
pub enum RootEdit {
    /// There is nothing to do.
    Ignored,
    /// Why the path is not taken.
    Refused(String),
    /// The list has changed, and an error shown before goes away.
    Changed,
}

/// Why a path typed to be added is not taken.
pub open spec fn addition_error(
    current: Seq<Seq<char>>,
    typed: Seq<char>,
    windows: bool,
) -> Option<Seq<char>> {
    if !is_absolute(typed) {
        Some(NOT_ABSOLUTE@)
    } else {
        match lexically_normalized(typed) {
            None => Some("Invalid path: "@ + PATH_ESCAPES@),
            Some(path) => if has_root(current, path, windows) {
                Some(ALREADY_LISTED@)
            } else {
                None
            },
        }
    }
}

/// Confirms the field for a new directory.
pub fn confirm_new_root(
    settings: &mut AgentSettingsContent,
    kind: RootKind,
    current: &Vec<String>,
    text: &str,
    windows: bool,
) -> (r: RootEdit)
    ensures
        match r {
            RootEdit::Ignored => trim(text@).len() == 0,
            RootEdit::Refused(e) => trim(text@).len() > 0 && addition_error(
                views(current@),
                trim(text@),
                windows,
            ) == Some(e@),
            RootEdit::Changed => trim(text@).len() > 0 && addition_error(
                views(current@),
                trim(text@),
                windows,
            ) is None,
        },
        r is Changed ==> lists_instead(*old(settings), *final(settings), kind) && listed_roots(
            *final(settings),
            kind,
        ) == with_root(
            listed_roots(*old(settings), kind),
            lexically_normalized(trim(text@))->0,
            windows,
        ),
        !(r is Changed) ==> *final(settings) == *old(settings),
{
    let typed = trim_str(text);
    if typed.as_str().is_empty() {
        return RootEdit::Ignored;
    }
    match validate_absolute_path(typed.as_str()) {
        Ok(path) => if add_root(settings, kind, current, path, windows) {
            RootEdit::Changed
        } else {
            RootEdit::Refused(ALREADY_LISTED.to_string())
        },
        Err(e) => RootEdit::Refused(e),
    }
}

/// Why a path typed over another is not taken.
pub open spec fn change_error(
    current: Seq<Seq<char>>,
    before: Seq<char>,
    typed: Seq<char>,
    windows: bool,
) -> Option<Seq<char>> {
    if !is_absolute(typed) {
        Some(NOT_ABSOLUTE@)
    } else {
        match lexically_normalized(typed) {
            None => Some("Invalid path: "@ + PATH_ESCAPES@),
            Some(path) => if clashes(current, path, before, windows) || !has_root(
                current,
                before,
                windows,
            ) {
                Some(ALREADY_LISTED@)
            } else {
                None
            },
        }
    }
}

/// Confirms the field of a directory that is listed.
pub fn confirm_changed_root(
    settings: &mut AgentSettingsContent,
    kind: RootKind,
    current: &Vec<String>,
    before: &str,
    text: &str,
    windows: bool,
) -> (r: RootEdit)
    ensures
        match r {
            RootEdit::Ignored => trim(text@).len() == 0 || trim(text@) == before@,
            RootEdit::Refused(e) => trim(text@).len() > 0 && trim(text@) != before@
                && change_error(views(current@), before@, trim(text@), windows) == Some(e@),
            RootEdit::Changed => trim(text@).len() > 0 && trim(text@) != before@ && change_error(
                views(current@),
                before@,
                trim(text@),
                windows,
            ) is None,
        },
        r is Changed ==> lists_instead(*old(settings), *final(settings), kind) && listed_roots(
            *final(settings),
            kind,
        ) == with_root_replaced(
            listed_roots(*old(settings), kind),
            before@,
            lexically_normalized(trim(text@))->0,
            windows,
        ),
        !(r is Changed) ==> *final(settings) == *old(settings),
{
    let typed = trim_str(text);
    if typed.as_str().is_empty() || str_eq(typed.as_str(), before) {
        return RootEdit::Ignored;
    }
    match validate_absolute_path(typed.as_str()) {
        Ok(path) => if update_root(settings, kind, current, before, path, windows) {
            RootEdit::Changed
        } else {
            RootEdit::Refused(ALREADY_LISTED.to_string())
        },
        Err(e) => RootEdit::Refused(e),
    }
}

/// Whether no directory is listed twice.
pub open spec fn roots_differ(roots: Seq<Seq<char>>, windows: bool) -> bool {
    forall|i: int, j: int|
        0 <= i < j < roots.len() ==> !#[trigger] same_path(roots[i], roots[j], windows)
}

/// Adding a directory lists none twice, and lists that one.
pub proof fn lemma_adding_keeps_roots_distinct(
    roots: Seq<Seq<char>>,
    path: Seq<char>,
    windows: bool,
)
    requires
        roots_differ(roots, windows),
    ensures
        roots_differ(with_root(roots, path, windows), windows),
        has_root(with_root(roots, path, windows), path, windows),
{
    lemma_root_from(roots, path, windows, 0);
    let after = with_root(roots, path, windows);
    lemma_root_from(after, path, windows, 0);
    if !has_root(roots, path, windows) {
        assert forall|i: int, j: int| 0 <= i < j < after.len() implies !#[trigger] same_path(
            after[i],
            after[j],
            windows,
        ) by {
            if j < roots.len() {
                assert(!same_path(roots[i], roots[j], windows));
            } else {
                assert(!same_path(roots[i], path, windows));
            }
        }
        assert(same_path(after[roots.len() as int], path, windows));
    }
}

/// Changing a directory lists none twice.
pub proof fn lemma_changing_keeps_roots_distinct(
    roots: Seq<Seq<char>>,
    before: Seq<char>,
    path: Seq<char>,
    windows: bool,
)
    requires
        roots_differ(roots, windows),
    ensures
        roots_differ(with_root_replaced(roots, before, path, windows), windows),
{
    lemma_root_from(roots, before, windows, 0);
    let after = with_root_replaced(roots, before, path, windows);
    if !clashes(roots, path, before, windows) && has_root(roots, before, windows) {
        let k = root_from(roots, before, windows, 0)->0;
        assert forall|i: int, j: int| 0 <= i < j < after.len() implies !#[trigger] same_path(
            after[i],
            after[j],
            windows,
        ) by {
            if i != k && j != k {
                assert(!same_path(roots[i], roots[j], windows));
            } else {
                let other = if i == k {
                    j
                } else {
                    i
                };
                if same_path(roots[other], path, windows) {
                    assert(same_path(roots[other], before, windows));
                    assert(same_path(roots[k], roots[other], windows) && same_path(
                        roots[other],
                        roots[k],
                        windows,
                    ));
                }
            }
        }
    }
}

proof fn lemma_without_absent_root(roots: Seq<Seq<char>>, path: Seq<char>, windows: bool)
    requires
        forall|k: int| 0 <= k < roots.len() ==> !#[trigger] same_path(roots[k], path, windows),
    ensures
        without_root(roots, path, windows) == roots,
    decreases roots.len(),
{
    if roots.len() > 0 {
        let rest = roots.drop_last();
        assert forall|k: int| 0 <= k < rest.len() implies !#[trigger] same_path(
            rest[k],
            path,
            windows,
        ) by {
            assert(!same_path(roots[k], path, windows));
        }
        lemma_without_absent_root(rest, path, windows);
        assert(!same_path(roots[roots.len() - 1], path, windows));
        assert(rest.push(roots.last()) =~= roots);
    } else {
        assert(without_root(roots, path, windows) =~= roots);
    }
}

/// Removing a directory undoes adding it.
pub proof fn lemma_removing_undoes_adding(
    roots: Seq<Seq<char>>,
    path: Seq<char>,
    windows: bool,
)
    requires
        !has_root(roots, path, windows),
    ensures
        without_root(with_root(roots, path, windows), path, windows) == roots,
{
    lemma_root_from(roots, path, windows, 0);
    lemma_without_absent_root(roots, path, windows);
    assert(roots.push(path).drop_last() =~= roots);
    assert(same_path(path, path, windows));
}

} // verus!
