//! Guard rails for paths outside of the open projects.
use crate::paths::{
    components, follow, followed, is_absolute, is_absolute_path, join_path, joined,
    lexically_normalized, normalize_lexically, path_components, path_segments, segments,
};
use crate::text::{
    eq_ignore_case, eq_ignore_case_str, join, join_strs, starts_with, str_eq, strip_prefix_str, views,
};
use crate::tool_permissions::FullAccessSettings;
use vstd::prelude::*;

verus! {

pub const FULL_ACCESS_DISABLED: &'static str =
    "Unleashed is disabled. Enable it in Settings → AI → Unleashed (or set agent.full_access.enabled).";

pub const PATH_ESCAPES: &'static str = "parent reference `..` points outside of base directory";

/// What is asked of a user before a tool goes on.
#[derive(Debug, Clone, PartialEq, Eq)]
pub struct ToolPermissionContext {
    pub tool_name: String,
    pub input_values: Vec<String>,
}

/// The components of a path, from the root on where it starts there, with `..` followed; beyond
/// the root there is nothing.
pub open spec fn settled_components(path: Seq<char>) -> Seq<Seq<char>> {
    let names = followed(segments(path), is_absolute(path));
    if is_absolute(path) {
        seq!["/"@] + names
    } else {
        names
    }
}

fn normalized_components(path: &str) -> (r: Vec<String>)
    ensures
        views(r@) == settled_components(path@),
{
    let absolute = is_absolute_path(path);
    let mut names = follow(&path_segments(path), absolute);
    let ghost rest = views(names@);
    let mut r: Vec<String> = Vec::new();
    if absolute {
        r.push("/".to_string());
    }
    r.append(&mut names);
    assert(views(r@) =~= if absolute {
        seq!["/"@] + rest
    } else {
        rest
    });
    r
}

/// What stands before a path on Windows that is taken as it is written.
pub const VERBATIM_PREFIX: &'static str = "\\\\?\\";

/// A component without what only says that it is taken as it is written.
pub open spec fn bare(component: Seq<char>) -> Seq<char> {
    if starts_with(component, VERBATIM_PREFIX@) {
        component.skip(VERBATIM_PREFIX@.len() as int)
    } else {
        component
    }
}

/// Whether two components are the same. On Windows the case of their letters does not matter.
pub open spec fn same_component(left: Seq<char>, right: Seq<char>, windows: bool) -> bool {
    if windows {
        eq_ignore_case(bare(left), bare(right))
    } else {
        left == right
    }
}

fn bare_component(component: &str) -> (r: String)
    ensures
        r@ == bare(component@),
{
    match strip_prefix_str(component, VERBATIM_PREFIX) {
        Some(rest) => rest,
        None => component.to_string(),
    }
}

fn component_eq(left: &str, right: &str, windows: bool) -> (r: bool)
    ensures
        r == same_component(left@, right@, windows),
{
    if windows {
        eq_ignore_case_str(bare_component(left).as_str(), bare_component(right).as_str())
    } else {
        str_eq(left, right)
    }
}

/// Whether the components of a path begin with those of a root.
pub open spec fn are_within(path: Seq<Seq<char>>, root: Seq<Seq<char>>, windows: bool) -> bool {
    &&& root.len() <= path.len()
    &&& forall|i: int|
        0 <= i < root.len() ==> same_component(#[trigger] path[i], root[i], windows)
}

/// Compares a path and a root that the system has taken apart.
pub fn components_are_within(path: &Vec<String>, root: &Vec<String>, windows: bool) -> (r: bool)
    ensures
        r == are_within(views(path@), views(root@), windows),
{
    if path.len() < root.len() {
        return false;
    }
    let mut i: usize = 0;
    while i < root.len()
        invariant
            i <= root@.len() <= path@.len(),
            forall|j: int|
                0 <= j < i ==> same_component(
                    #[trigger] views(path@)[j],
                    views(root@)[j],
                    windows,
                ),
        decreases root@.len() - i,
    {
        if !component_eq(path[i].as_str(), root[i].as_str(), windows) {
            assert(!same_component(views(path@)[i as int], views(root@)[i as int], windows));
            return false;
        }
        i = i + 1;
    }
    true
}

/// Whether `path` is `root` or lies below it, once `..` has been followed in both.
pub open spec fn is_within(path: Seq<char>, root: Seq<char>) -> bool {
    are_within(settled_components(path), settled_components(root), false)
}

pub fn path_is_within(path: &str, root: &str) -> (r: bool)
    ensures
        r == is_within(path@, root@),
{
    components_are_within(&normalized_components(path), &normalized_components(root), false)
}

/// Paths lie within themselves, and within what their roots lie within, on every system.
pub proof fn lemma_components_within_is_a_preorder(
    a: Seq<Seq<char>>,
    b: Seq<Seq<char>>,
    c: Seq<Seq<char>>,
    windows: bool,
)
    ensures
        are_within(a, a, windows),
        are_within(a, b, windows) && are_within(b, c, windows) ==> are_within(a, c, windows),
{
    if are_within(a, b, windows) && are_within(b, c, windows) {
        assert forall|i: int| 0 <= i < c.len() implies same_component(
            #[trigger] a[i],
            c[i],
            windows,
        ) by {
            assert(same_component(a[i], b[i], windows));
            assert(same_component(b[i], c[i], windows));
        }
    }
}

/// A path lies within itself, and within what its roots lie within.
pub proof fn lemma_within_is_a_preorder(a: Seq<char>, b: Seq<char>, c: Seq<char>)
    ensures
        is_within(a, a),
        is_within(a, b) && is_within(b, c) ==> is_within(a, c),
{
    lemma_components_within_is_a_preorder(
        settled_components(a),
        settled_components(b),
        settled_components(c),
        false,
    );
}

/// The directories of the system on Windows that are never touched.
pub open spec fn windows_protected() -> Seq<Seq<Seq<char>>> {
    seq![
        seq!["C:"@, "\\"@, "Windows"@],
        seq!["C:"@, "\\"@, "Program Files"@],
        seq!["C:"@, "\\"@, "Program Files (x86)"@],
        seq!["C:"@, "\\"@, "ProgramData"@],
    ]
}

/// Paths on Windows that no tool may ever target, taken apart with `..` followed: a drive, and the
/// directories of the system.
pub open spec fn is_windows_catastrophic(components: Seq<Seq<char>>) -> bool {
    ||| components.len() <= 2
    ||| exists|i: int|
        0 <= i < windows_protected().len() && are_within(
            components,
            #[trigger] windows_protected()[i],
            true,
        )
}

fn directory_on_c(name: &str) -> (r: Vec<String>)
    ensures
        views(r@) == seq!["C:"@, "\\"@, name@],
{
    let r: Vec<String> = vec!["C:".to_string(), "\\".to_string(), name.to_string()];
    assert(views(r@) =~= seq!["C:"@, "\\"@, name@]);
    r
}

/// Decides on an absolute path of Windows that the system has taken apart.
pub fn is_catastrophic_on_windows(components: &Vec<String>) -> (r: bool)
    ensures
        r == is_windows_catastrophic(views(components@)),
{
    assert(views(components@).len() == components@.len());
    if components.len() <= 2 {
        return true;
    }
    let windows = components_are_within(components, &directory_on_c("Windows"), true);
    let programs = components_are_within(components, &directory_on_c("Program Files"), true);
    let older = components_are_within(components, &directory_on_c("Program Files (x86)"), true);
    let data = components_are_within(components, &directory_on_c("ProgramData"), true);
    let ghost all = windows_protected();
    assert(all[0] == seq!["C:"@, "\\"@, "Windows"@]);
    assert(all[1] == seq!["C:"@, "\\"@, "Program Files"@]);
    assert(all[2] == seq!["C:"@, "\\"@, "Program Files (x86)"@]);
    assert(all[3] == seq!["C:"@, "\\"@, "ProgramData"@]);
    windows || programs || older || data
}

/// The directories of the system that are never touched.
pub open spec fn is_protected(path: Seq<char>) -> bool {
    ||| is_within(path, "/System"@)
    ||| is_within(path, "/bin"@)
    ||| is_within(path, "/etc"@)
    ||| is_within(path, "/sbin"@)
    ||| is_within(path, "/usr"@)
    ||| is_within(path, "/var"@)
}

/// Paths that no tool may ever target: the root, what lies directly below it, and the
/// directories of the system.
pub open spec fn is_catastrophic(path: Seq<char>) -> bool {
    is_absolute(path) && (settled_components(path).len() <= 2 || is_protected(path))
}

pub fn is_catastrophic_path(path: &str) -> (r: bool)
    ensures
        r == is_catastrophic(path@),
{
    if !is_absolute_path(path) {
        return false;
    }
    let components = normalized_components(path);
    assert(views(components@).len() == components@.len());
    if components.len() <= 2 {
        return true;
    }
    path_is_within(path, "/System") || path_is_within(path, "/bin") || path_is_within(path, "/etc")
        || path_is_within(path, "/sbin") || path_is_within(path, "/usr") || path_is_within(
        path,
        "/var",
    )
}

/// Whether a path lies within one of the roots.
pub open spec fn within_any(path: Seq<char>, roots: Seq<Seq<char>>) -> bool {
    exists|i: int| 0 <= i < roots.len() && is_within(path, #[trigger] roots[i])
}

fn path_is_within_any(path: &str, roots: &Vec<String>) -> (r: bool)
    ensures
        r == within_any(path@, views(roots@)),
{
    let mut i: usize = 0;
    while i < roots.len()
        invariant
            i <= roots@.len(),
            forall|j: int| 0 <= j < i ==> !is_within(path@, #[trigger] views(roots@)[j]),
        decreases roots@.len() - i,
    {
        assert(views(roots@)[i as int] == roots@[i as int]@);
        if path_is_within(path, roots[i].as_str()) {
            return true;
        }
        i = i + 1;
    }
    false
}

/// Whether a path lies within a worktree or an allowed root.
pub open spec fn is_trusted(
    path: Seq<char>,
    worktrees: Seq<Seq<char>>,
    allowed: Seq<Seq<char>>,
) -> bool {
    within_any(path, worktrees) || within_any(path, allowed)
}

pub fn is_inside_project(worktrees: &Vec<String>, settings: &FullAccessSettings, path: &str) -> (r:
    bool)
    ensures
        r == is_trusted(path@, views(worktrees@), views(settings.allowed_roots@)),
{
    path_is_within_any(path, worktrees) || path_is_within_any(path, &settings.allowed_roots)
}

/// What the guard rail says of one path: why it is refused, or how it is to be authorized, if it
/// is not trusted.
pub open spec fn path_verdict(
    path: Seq<char>,
    worktrees: Seq<Seq<char>>,
    settings: FullAccessSettings,
) -> Result<Option<Seq<char>>, Seq<char>> {
    if !is_absolute(path) {
        Err("Full-access path must be absolute: "@ + path)
    } else {
        match lexically_normalized(path) {
            None => Err("Invalid full-access path "@ + path + ": "@ + PATH_ESCAPES@),
            Some(p) => if settings.enabled && (is_catastrophic(p) || within_any(
                p,
                views(settings.denied_roots@),
            )) {
                Err("Blocked by LEAD's unbypassable full-access denylist: "@ + p)
            } else if is_trusted(p, worktrees, views(settings.allowed_roots@)) {
                Ok(None)
            } else if !settings.enabled {
                Err(FULL_ACCESS_DISABLED@)
            } else {
                Ok(Some(p))
            },
        }
    }
}

/// What the guard rail says of all paths: why the first of them that is refused is refused, or
/// those that are to be authorized.
pub open spec fn gate(
    paths: Seq<Seq<char>>,
    worktrees: Seq<Seq<char>>,
    settings: FullAccessSettings,
) -> Result<Seq<Seq<char>>, Seq<char>>
    decreases paths.len(),
{
    if paths.len() == 0 {
        Ok(Seq::empty())
    } else {
        match gate(paths.drop_last(), worktrees, settings) {
            Err(e) => Err(e),
            Ok(before) => match path_verdict(paths.last(), worktrees, settings) {
                Err(e) => Err(e),
                Ok(None) => Ok(before),
                Ok(Some(p)) => Ok(before.push(p)),
            },
        }
    }
}

proof fn lemma_gate_refused(
    paths: Seq<Seq<char>>,
    worktrees: Seq<Seq<char>>,
    settings: FullAccessSettings,
    i: int,
)
    requires
        0 <= i <= paths.len(),
        gate(paths.take(i), worktrees, settings) is Err,
    ensures
        gate(paths, worktrees, settings) == gate(paths.take(i), worktrees, settings),
    decreases paths.len() - i,
{
    if i < paths.len() {
        assert(paths.take(i + 1).drop_last() =~= paths.take(i));
        lemma_gate_refused(paths, worktrees, settings, i + 1);
    } else {
        assert(paths.take(i) =~= paths);
    }
}

fn judge_path(path: &str, worktrees: &Vec<String>, settings: &FullAccessSettings) -> (r: Result<
    Option<String>,
    String,
>)
    ensures
        match r {
            Ok(None) => path_verdict(path@, views(worktrees@), *settings) == Ok::<
                Option<Seq<char>>,
                Seq<char>,
            >(None),
            Ok(Some(p)) => path_verdict(path@, views(worktrees@), *settings) == Ok::<
                Option<Seq<char>>,
                Seq<char>,
            >(Some(p@)),
            Err(e) => path_verdict(path@, views(worktrees@), *settings) == Err::<
                Option<Seq<char>>,
                Seq<char>,
            >(e@),
        },
{
    if !is_absolute_path(path) {
        let mut e = "Full-access path must be absolute: ".to_string();
        e.append(path);
        return Err(e);
    }
    let normalized = match normalize_lexically(path) {
        Some(p) => p,
        None => {
            let mut e = "Invalid full-access path ".to_string();
            e.append(path);
            e.append(": ");
            e.append(PATH_ESCAPES);
            return Err(e);
        },
    };
    if settings.enabled && (is_catastrophic_path(normalized.as_str()) || path_is_within_any(
        normalized.as_str(),
        &settings.denied_roots,
    )) {
        let mut e = "Blocked by LEAD's unbypassable full-access denylist: ".to_string();
        e.append(normalized.as_str());
        return Err(e);
    }
    if is_inside_project(worktrees, settings, normalized.as_str()) {
        return Ok(None);
    }
    if !settings.enabled {
        return Err(FULL_ACCESS_DISABLED.to_string());
    }
    Ok(Some(normalized))
}

/// Applies the guard rail: nothing is to be authorized where all paths are trusted.
pub fn escape_gate(
    worktrees: &Vec<String>,
    settings: &FullAccessSettings,
    paths: &Vec<String>,
    tool_name: &str,
) -> (r: Result<Option<ToolPermissionContext>, String>)
    ensures
        match gate(views(paths@), views(worktrees@), *settings) {
            Err(e) => r matches Err(m) && m@ == e,
            Ok(escaped) => if escaped.len() == 0 {
                r matches Ok(None)
            } else {
                r matches Ok(Some(c)) && c.tool_name@ == tool_name@ && views(c.input_values@)
                    == escaped
            },
        },
{
    let ghost all = views(paths@);
    let ghost trees = views(worktrees@);
    let mut escaped: Vec<String> = Vec::new();
    let mut i: usize = 0;
    assert(all.take(0) =~= Seq::<Seq<char>>::empty());
    assert(views(escaped@) =~= Seq::<Seq<char>>::empty());
    while i < paths.len()
        invariant
            i <= paths@.len(),
            all == views(paths@),
            trees == views(worktrees@),
            gate(all.take(i as int), trees, *settings) == Ok::<Seq<Seq<char>>, Seq<char>>(
                views(escaped@),
            ),
        decreases paths@.len() - i,
    {
        let ghost before = views(escaped@);
        assert(all.take(i + 1).drop_last() =~= all.take(i as int));
        assert(all.take(i + 1).last() == paths@[i as int]@);
        match judge_path(paths[i].as_str(), worktrees, settings) {
            Ok(None) => {},
            Ok(Some(p)) => {
                let ghost text = p@;
                escaped.push(p);
                assert(views(escaped@) =~= before.push(text));
            },
            Err(e) => {
                proof {
                    lemma_gate_refused(all, trees, *settings, i + 1);
                }
                return Err(e);
            },
        }
        i = i + 1;
    }
    assert(all.take(paths@.len() as int) =~= all);
    assert(views(escaped@).len() == escaped@.len());
    if escaped.len() == 0 {
        Ok(None)
    } else {
        Ok(Some(ToolPermissionContext { tool_name: tool_name.to_string(), input_values: escaped }))
    }
}

/// With full access switched on, nothing under a denied root and nothing catastrophic passes the
/// guard rail, whatever the worktrees and the allowed roots are.
pub proof fn lemma_denied_paths_never_pass(
    paths: Seq<Seq<char>>,
    worktrees: Seq<Seq<char>>,
    settings: FullAccessSettings,
    i: int,
)
    requires
        settings.enabled,
        0 <= i < paths.len(),
        lexically_normalized(paths[i]) matches Some(p) && (is_catastrophic(p) || within_any(
            p,
            views(settings.denied_roots@),
        )),
    ensures
        gate(paths, worktrees, settings) is Err,
{
    assert(paths.take(i + 1).drop_last() =~= paths.take(i));
    assert(paths.take(i + 1).last() == paths[i]);
    assert(path_verdict(paths[i], worktrees, settings) is Err);
    assert(gate(paths.take(i + 1), worktrees, settings) is Err);
    lemma_gate_refused(paths, worktrees, settings, i + 1);
}

/// With full access switched off, a path outside of worktrees and allowed roots never passes.
pub proof fn lemma_untrusted_paths_need_full_access(
    paths: Seq<Seq<char>>,
    worktrees: Seq<Seq<char>>,
    settings: FullAccessSettings,
    i: int,
)
    requires
        !settings.enabled,
        0 <= i < paths.len(),
        lexically_normalized(paths[i]) matches Some(p) ==> !is_trusted(
            p,
            worktrees,
            views(settings.allowed_roots@),
        ),
    ensures
        gate(paths, worktrees, settings) is Err,
{
    assert(paths.take(i + 1).drop_last() =~= paths.take(i));
    assert(paths.take(i + 1).last() == paths[i]);
    assert(path_verdict(paths[i], worktrees, settings) is Err);
    assert(gate(paths.take(i + 1), worktrees, settings) is Err);
    lemma_gate_refused(paths, worktrees, settings, i + 1);
}

// ---------------------------------------------------------------------------
// Paths that do not exist yet
// ---------------------------------------------------------------------------

/// Whether a component names an entry of a directory.
pub open spec fn is_name(component: Seq<char>) -> bool {
    component != "/"@ && component != "."@ && component != ".."@
}

/// The path with the first `k` components.
pub open spec fn ancestor(path: Seq<char>, k: int) -> Seq<char> {
    let all = components(path).take(k);
    if is_absolute(path) {
        "/"@ + join(all.skip(1), "/"@)
    } else {
        join(all, "/"@)
    }
}

/// The components of the shortest ancestor: the root, or nothing at all.
pub open spec fn shortest(path: Seq<char>) -> int {
    if is_absolute(path) {
        1
    } else {
        0
    }
}

/// The path and its ancestors, longest first.
pub open spec fn ancestors(path: Seq<char>) -> Seq<Seq<char>> {
    let n = components(path).len() as int;
    Seq::new((n - shortest(path) + 1) as nat, |i: int| ancestor(path, n - i))
}

/// The path and its ancestors, in the order in which they are looked up.
pub fn access_candidates(path: &str) -> (r: Vec<String>)
    ensures
        views(r@) == ancestors(path@),
        r@.len() >= 1,
{
    let all = path_components(path);
    let ghost comps = views(all@);
    let absolute = is_absolute_path(path);
    let least: usize = if absolute {
        1
    } else {
        0
    };
    let n: usize = all.len();
    assert(comps.len() == n);
    assert(absolute ==> comps[0] == "/"@ && n >= 1);
    let mut r: Vec<String> = Vec::new();
    let mut k: usize = n;
    let mut more = true;
    assert(ancestors(path@).take(0) =~= views(r@));
    while more
        invariant
            comps == views(all@),
            comps == components(path@),
            n == all@.len(),
            absolute == is_absolute(path@),
            least == shortest(path@),
            least <= n,
            more ==> least <= k <= n && r@.len() == n - k,
            !more ==> r@.len() == n - least + 1,
            views(r@) == ancestors(path@).take(r@.len() as int),
        decreases k + (if more {
            1int
        } else {
            0int
        }),
    {
        let ghost before = views(r@);
        let kept = copy_components(&all, least, k);
        let mut text = String::new();
        if absolute {
            text.append("/");
        }
        text.append(join_strs(&kept, "/").as_str());
        proof {
            if absolute {
                assert(comps.take(k as int).skip(1) =~= comps.subrange(1, k as int));
            } else {
                assert(comps.take(k as int) =~= comps.subrange(0, k as int));
            }
            assert(text@ =~= ancestor(path@, k as int));
        }
        let ghost t = text@;
        r.push(text);
        assert(views(r@) =~= before.push(t));
        assert(ancestors(path@).take(r@.len() as int) =~= before.push(ancestors(path@)[n - k]));
        if k > least {
            k = k - 1;
        } else {
            more = false;
            k = 0;
        }
    }
    assert(ancestors(path@).take(r@.len() as int) =~= ancestors(path@));
    r
}

fn copy_components(v: &Vec<String>, from: usize, to: usize) -> (r: Vec<String>)
    requires
        from <= to <= v@.len(),
    ensures
        views(r@) == views(v@).subrange(from as int, to as int),
{
    let mut r: Vec<String> = Vec::new();
    let mut i: usize = from;
    assert(views(r@) =~= views(v@).subrange(from as int, from as int));
    while i < to
        invariant
            from <= i <= to <= v@.len(),
            views(r@) == views(v@).subrange(from as int, i as int),
        decreases to - i,
    {
        let ghost before = views(r@);
        r.push(v[i].clone());
        assert(views(r@) =~= before.push(v@[i as int]@));
        assert(views(v@).subrange(from as int, i + 1) =~= before.push(views(v@)[i as int]));
        i = i + 1;
    }
    r
}

/// `canonical` with the names among the components behind it.
pub open spec fn reattached(canonical: Seq<char>, names: Seq<Seq<char>>) -> Seq<char>
    decreases names.len(),
{
    if names.len() == 0 {
        canonical
    } else if is_name(names.last()) {
        joined(reattached(canonical, names.drop_last()), names.last())
    } else {
        reattached(canonical, names.drop_last())
    }
}

/// Where a path leads, once its `missing` last components have been taken off and the rest has
/// been found at `canonical`.
pub open spec fn access_path(path: Seq<char>, missing: int, canonical: Seq<char>) -> Option<
    Seq<char>,
> {
    let all = components(path);
    lexically_normalized(reattached(canonical, all.skip(all.len() - missing)))
}

/// Where a path leads whose `found`-th candidate exists and has been resolved to `canonical`.
pub fn resolve_access(path: &str, found: usize, canonical: &str) -> (r: Result<String, String>)
    requires
        found < ancestors(path@).len(),
    ensures
        match access_path(path@, found as int, canonical@) {
            Some(p) => r matches Ok(t) && t@ == p,
            None => r matches Err(e) && e@ == PATH_ESCAPES@,
        },
{
    let all = path_components(path);
    let ghost comps = views(all@);
    assert(comps.len() == all@.len());
    let n: usize = all.len();
    let ghost rest = comps.skip(n - found);
    let mut target = canonical.to_string();
    let mut i: usize = n - found;
    assert(rest.take(0) =~= Seq::<Seq<char>>::empty());
    while i < n
        invariant
            comps == views(all@),
            n == all@.len(),
            found <= n,
            n - found <= i <= n,
            rest == comps.skip(n - found),
            target@ == reattached(canonical@, rest.take(i - (n - found))),
        decreases n - i,
    {
        let ghost at = i - (n - found);
        assert(rest.take(at + 1).drop_last() =~= rest.take(at));
        assert(rest.take(at + 1).last() == all@[i as int]@);
        let name = all[i].as_str();
        if !str_eq(name, "/") && !str_eq(name, ".") && !str_eq(name, "..") {
            target = join_path(target.as_str(), name);
        }
        i = i + 1;
    }
    assert(rest.take(found as int) =~= rest);
    match normalize_lexically(target.as_str()) {
        Some(p) => Ok(p),
        None => Err(PATH_ESCAPES.to_string()),
    }
}

/// What is said of a path of which no part exists.
pub fn unresolved_path(path: &str) -> (r: String)
    ensures
        r@ == "Unable to resolve path "@ + path@,
{
    let mut r = "Unable to resolve path ".to_string();
    r.append(path);
    r
}

} // verus!
