//! What tools may do without asking, and what they may never do.
use crate::assoc::Assoc;
use crate::paths::{
    insert_subtree, is_absolute, is_absolute_path, lexically_normalized, normalize_lexically,
    with_subtree,
};
use crate::security_rules::{regex_error, CompiledRegex};
use crate::settings_content::{
    path_list, rule_list, ExtendingVec, FullAccessSettingsContent, SandboxPermissionsContent,
    ToolPermissionMode, ToolPermissionsContent, ToolRegexRule, ToolRulesContent,
};
use crate::text::views;
use vstd::prelude::*;

verus! {

/// A pattern that is no regex, with the list that it stands in and the error.
#[derive(Clone, Debug)]
pub struct InvalidRegexPattern {
    pub pattern: String,
    pub rule_type: String,
    pub error: String,
}

#[derive(Debug)]
pub struct ToolRules {
    pub default: Option<ToolPermissionMode>,
    pub always_allow: Vec<CompiledRegex>,
    pub always_deny: Vec<CompiledRegex>,
    pub always_confirm: Vec<CompiledRegex>,
    /// Where this is not empty, calls of the tool are to be blocked.
    pub invalid_patterns: Vec<InvalidRegexPattern>,
}

impl Default for ToolRules {
    fn default() -> (r: Self)
        ensures
            r.default is None,
            r.always_allow@.len() == 0,
            r.always_deny@.len() == 0,
            r.always_confirm@.len() == 0,
            r.invalid_patterns@.len() == 0,
    {
        ToolRules {
            default: None,
            always_allow: Vec::new(),
            always_deny: Vec::new(),
            always_confirm: Vec::new(),
            invalid_patterns: Vec::new(),
        }
    }
}

#[derive(Debug)]
pub struct ToolPermissions {
    /// What is done with calls that no rule of the tool settles.
    pub default: ToolPermissionMode,
    pub tools: Assoc<ToolRules>,
}

impl Default for ToolPermissions {
    fn default() -> (r: Self)
        ensures
            r.default == ToolPermissionMode::Confirm,
            r.tools.entries@.len() == 0,
    {
        ToolPermissions { default: ToolPermissionMode::default(), tools: Assoc::new() }
    }
}

/// The invalid patterns of all tools.
pub open spec fn all_invalid(tools: Seq<(String, ToolRules)>) -> Seq<InvalidRegexPattern>
    decreases tools.len(),
{
    if tools.len() == 0 {
        Seq::empty()
    } else {
        all_invalid(tools.drop_last()) + tools.last().1.invalid_patterns@
    }
}

impl ToolPermissions {
    pub fn invalid_patterns(&self) -> (r: Vec<&InvalidRegexPattern>)
        ensures
            r@.len() == all_invalid(self.tools.entries@).len(),
            forall|i: int| 0 <= i < r@.len() ==> *(#[trigger] r@[i]) == all_invalid(
                self.tools.entries@,
            )[i],
    {
        let mut r: Vec<&InvalidRegexPattern> = Vec::new();
        let tools = &self.tools.entries;
        let mut i: usize = 0;
        assert(tools@.take(0) =~= Seq::<(String, ToolRules)>::empty());
        while i < tools.len()
            invariant
                tools@ == self.tools.entries@,
                i <= tools@.len(),
                r@.len() == all_invalid(tools@.take(i as int)).len(),
                forall|k: int|
                    0 <= k < r@.len() ==> *(#[trigger] r@[k]) == all_invalid(
                        tools@.take(i as int),
                    )[k],
            decreases tools@.len() - i,
        {
            let rules = &tools[i].1;
            let ghost before = all_invalid(tools@.take(i as int));
            assert(tools@.take(i + 1).drop_last() =~= tools@.take(i as int));
            assert(tools@.take(i + 1).last() == tools@[i as int]);
            let mut j: usize = 0;
            while j < rules.invalid_patterns.len()
                invariant
                    j <= rules.invalid_patterns@.len(),
                    r@.len() == before.len() + j,
                    forall|k: int|
                        0 <= k < r@.len() ==> *(#[trigger] r@[k]) == (before
                            + rules.invalid_patterns@)[k],
                decreases rules.invalid_patterns@.len() - j,
            {
                r.push(&rules.invalid_patterns[j]);
                j = j + 1;
            }
            i = i + 1;
        }
        assert(tools@.take(tools@.len() as int) =~= tools@);
        r
    }

    pub fn has_invalid_patterns(&self) -> (r: bool)
        ensures
            r == (all_invalid(self.tools.entries@).len() > 0),
    {
        self.invalid_patterns().len() > 0
    }
}

/// Why a rule cannot be used.
pub open spec fn rule_problem(rule: ToolRegexRule) -> Option<Seq<char>> {
    if rule.pattern@.len() == 0 {
        Some("empty regex patterns are not allowed"@)
    } else {
        regex_error(rule.pattern@, !is_case_sensitive(rule))
    }
}

pub open spec fn is_case_sensitive(rule: ToolRegexRule) -> bool {
    rule.case_sensitive matches Some(c) && c
}

/// The rules that can be used: their patterns, and whether the case of letters matters.
pub open spec fn usable(rules: Seq<ToolRegexRule>) -> Seq<(Seq<char>, bool)>
    decreases rules.len(),
{
    if rules.len() == 0 {
        Seq::empty()
    } else {
        let before = usable(rules.drop_last());
        if rule_problem(rules.last()) is None {
            before.push((rules.last().pattern@, is_case_sensitive(rules.last())))
        } else {
            before
        }
    }
}

/// The rules that cannot be used: pattern, list and error.
pub open spec fn unusable(
    rules: Seq<ToolRegexRule>,
    rule_type: Seq<char>,
) -> Seq<(Seq<char>, Seq<char>, Seq<char>)>
    decreases rules.len(),
{
    if rules.len() == 0 {
        Seq::empty()
    } else {
        let before = unusable(rules.drop_last(), rule_type);
        match rule_problem(rules.last()) {
            Some(e) => before.push((rules.last().pattern@, rule_type, e)),
            None => before,
        }
    }
}

pub open spec fn regex_views(v: Seq<CompiledRegex>) -> Seq<(Seq<char>, bool)> {
    v.map_values(|c: CompiledRegex| (c.pattern@, c.case_sensitive))
}

pub open spec fn invalid_views(v: Seq<InvalidRegexPattern>) -> Seq<
    (Seq<char>, Seq<char>, Seq<char>),
> {
    v.map_values(|p: InvalidRegexPattern| (p.pattern@, p.rule_type@, p.error@))
}

/// What becomes of a rule, given what was found out about its pattern.
pub fn settle_rule(
    rule: &ToolRegexRule,
    rule_type: &str,
    compiled: Result<CompiledRegex, String>,
) -> (r: Result<CompiledRegex, InvalidRegexPattern>)
    ensures
        match r {
            Ok(c) => rule.pattern@.len() > 0 && compiled == Ok::<CompiledRegex, String>(c),
            Err(p) => {
                &&& p.pattern@ == rule.pattern@
                &&& p.rule_type@ == rule_type@
                &&& if rule.pattern@.len() == 0 {
                    p.error@ == "empty regex patterns are not allowed"@
                } else {
                    compiled matches Err(e) && p.error@ == e@
                }
            },
        },
{
    let error = if rule.pattern.as_str().is_empty() {
        "empty regex patterns are not allowed".to_string()
    } else {
        match compiled {
            Ok(c) => {
                return Ok(c);
            },
            Err(e) => e,
        }
    };
    Err(
        InvalidRegexPattern {
            pattern: rule.pattern.clone(),
            rule_type: rule_type.to_string(),
            error,
        },
    )
}

pub fn compile_regex_rules(rules: &Vec<ToolRegexRule>, rule_type: &str) -> (r: (
    Vec<CompiledRegex>,
    Vec<InvalidRegexPattern>,
))
    ensures
        regex_views(r.0@) == usable(rules@),
        invalid_views(r.1@) == unusable(rules@, rule_type@),
{
    let mut compiled: Vec<CompiledRegex> = Vec::new();
    let mut errors: Vec<InvalidRegexPattern> = Vec::new();
    let mut i: usize = 0;
    assert(rules@.take(0) =~= Seq::<ToolRegexRule>::empty());
    assert(regex_views(compiled@) =~= Seq::<(Seq<char>, bool)>::empty());
    assert(invalid_views(errors@) =~= Seq::<(Seq<char>, Seq<char>, Seq<char>)>::empty());
    while i < rules.len()
        invariant
            i <= rules@.len(),
            regex_views(compiled@) == usable(rules@.take(i as int)),
            invalid_views(errors@) == unusable(rules@.take(i as int), rule_type@),
        decreases rules@.len() - i,
    {
        let ghost good = regex_views(compiled@);
        let ghost bad = invalid_views(errors@);
        let rule = &rules[i];
        assert(rules@.take(i + 1).drop_last() =~= rules@.take(i as int));
        assert(rules@.take(i + 1).last() == rule);
        let case_sensitive = match rule.case_sensitive {
            Some(c) => c,
            None => false,
        };
        let tried = CompiledRegex::try_new(rule.pattern.as_str(), case_sensitive);
        match settle_rule(rule, rule_type, tried) {
            Ok(c) => {
                let ghost v = (c.pattern@, c.case_sensitive);
                compiled.push(c);
                assert(regex_views(compiled@) =~= good.push(v));
            },
            Err(p) => {
                let ghost v = (p.pattern@, p.rule_type@, p.error@);
                errors.push(p);
                assert(invalid_views(errors@) =~= bad.push(v));
            },
        }
        i = i + 1;
    }
    assert(rules@.take(rules@.len() as int) =~= rules@);
    (compiled, errors)
}

/// Whether `rules` is what the settings of a tool come to.
pub open spec fn compiles_to(content: ToolRulesContent, rules: ToolRules) -> bool {
    &&& rules.default == content.default
    &&& regex_views(rules.always_allow@) == usable(rule_list(content.always_allow))
    &&& regex_views(rules.always_deny@) == usable(rule_list(content.always_deny))
    &&& regex_views(rules.always_confirm@) == usable(rule_list(content.always_confirm))
    &&& invalid_views(rules.invalid_patterns@) == unusable(
        rule_list(content.always_allow),
        "always_allow"@,
    ) + unusable(rule_list(content.always_deny), "always_deny"@) + unusable(
        rule_list(content.always_confirm),
        "always_confirm"@,
    )
}

fn compile_list(rules: &Option<ExtendingVec<ToolRegexRule>>, rule_type: &str) -> (r: (
    Vec<CompiledRegex>,
    Vec<InvalidRegexPattern>,
))
    ensures
        regex_views(r.0@) == usable(rule_list(*rules)),
        invalid_views(r.1@) == unusable(rule_list(*rules), rule_type@),
{
    match rules {
        Some(list) => compile_regex_rules(&list.0, rule_type),
        None => {
            let none: Vec<ToolRegexRule> = Vec::new();
            assert(none@ =~= rule_list(*rules));
            compile_regex_rules(&none, rule_type)
        },
    }
}

fn compile_tool_rules(content: &ToolRulesContent) -> (r: ToolRules)
    ensures
        compiles_to(*content, r),
{
    let (always_allow, mut invalid_patterns) = compile_list(&content.always_allow, "always_allow");
    let (always_deny, mut deny_errors) = compile_list(&content.always_deny, "always_deny");
    let (always_confirm, mut confirm_errors) = compile_list(
        &content.always_confirm,
        "always_confirm",
    );
    let ghost a = invalid_patterns@;
    let ghost d = deny_errors@;
    let ghost c = confirm_errors@;
    invalid_patterns.append(&mut deny_errors);
    invalid_patterns.append(&mut confirm_errors);
    assert(invalid_views(a + d + c) =~= invalid_views(a) + invalid_views(d) + invalid_views(c));
    ToolRules {
        default: content.default,
        always_allow,
        always_deny,
        always_confirm,
        invalid_patterns,
    }
}

/// Turns the settings on tools into rules: what is set for a tool is compiled, and what is not
/// set at all is confirmed.
pub fn compile_tool_permissions(content: Option<ToolPermissionsContent>) -> (r: ToolPermissions)
    ensures
        match content {
            Some(c) => {
                &&& r.default == match c.default {
                    Some(mode) => mode,
                    None => ToolPermissionMode::Confirm,
                }
                &&& r.tools.entries@.len() == c.tools.entries@.len()
                &&& forall|i: int|
                    0 <= i < r.tools.entries@.len() ==> {
                        &&& (#[trigger] r.tools.entries@[i]).0@ == c.tools.entries@[i].0@
                        &&& compiles_to(c.tools.entries@[i].1, r.tools.entries@[i].1)
                    }
            },
            None => r.default == ToolPermissionMode::Confirm && r.tools.entries@.len() == 0,
        },
{
    let content = match content {
        Some(c) => c,
        None => {
            return ToolPermissions::default();
        },
    };
    let mut entries: Vec<(String, ToolRules)> = Vec::new();
    let mut i: usize = 0;
    while i < content.tools.entries.len()
        invariant
            i <= content.tools.entries@.len(),
            entries@.len() == i,
            forall|k: int|
                0 <= k < i ==> {
                    &&& (#[trigger] entries@[k]).0@ == content.tools.entries@[k].0@
                    &&& compiles_to(content.tools.entries@[k].1, entries@[k].1)
                },
        decreases content.tools.entries@.len() - i,
    {
        let name = content.tools.entries[i].0.clone();
        let rules = compile_tool_rules(&content.tools.entries[i].1);
        entries.push((name, rules));
        i = i + 1;
    }
    ToolPermissions {
        default: match content.default {
            Some(mode) => mode,
            None => ToolPermissionMode::default(),
        },
        tools: Assoc { entries },
    }
}

// ---------------------------------------------------------------------------
// Paths that may be written, and roots that may be used
// ---------------------------------------------------------------------------

/// Lasting grants for commands that run in a sandbox. The paths are normalized, and none of them
/// covers another.
#[derive(Clone, Debug, PartialEq, Eq)]
pub struct SandboxPermissions {
    pub allow_network: bool,
    pub allow_fs_write_all: bool,
    pub allow_unsandboxed: bool,
    pub write_paths: Vec<String>,
}

impl Default for SandboxPermissions {
    fn default() -> (r: Self)
        ensures
            !r.allow_network,
            !r.allow_fs_write_all,
            !r.allow_unsandboxed,
            r.write_paths@.len() == 0,
    {
        SandboxPermissions {
            allow_network: false,
            allow_fs_write_all: false,
            allow_unsandboxed: false,
            write_paths: Vec::new(),
        }
    }
}

/// Access to what lies outside of the open projects.
#[derive(Clone, Debug, PartialEq, Eq)]
pub struct FullAccessSettings {
    pub enabled: bool,
    pub allowed_roots: Vec<String>,
    pub denied_roots: Vec<String>,
}

impl Default for FullAccessSettings {
    fn default() -> (r: Self)
        ensures
            !r.enabled,
            r.allowed_roots@.len() == 0,
            r.denied_roots@.len() == 0,
    {
        FullAccessSettings { enabled: false, allowed_roots: Vec::new(), denied_roots: Vec::new() }
    }
}

/// The paths, normalized and each under none of the others; a path that leads above its start
/// is dropped, and where `only_absolute` so is one that does not start at the root.
pub open spec fn subtrees(paths: Seq<Seq<char>>, only_absolute: bool) -> Seq<Seq<char>>
    decreases paths.len(),
{
    if paths.len() == 0 {
        Seq::empty()
    } else {
        let before = subtrees(paths.drop_last(), only_absolute);
        match lexically_normalized(paths.last()) {
            Some(path) if is_absolute(paths.last()) || !only_absolute => with_subtree(before, path),
            _ => before,
        }
    }
}

fn collect_subtrees(paths: &Option<ExtendingVec<String>>, only_absolute: bool) -> (r: Vec<String>)
    ensures
        views(r@) == subtrees(path_list(*paths), only_absolute),
{
    let mut r: Vec<String> = Vec::new();
    assert(views(r@) =~= Seq::<Seq<char>>::empty());
    match paths {
        Some(list) => {
            let list = &list.0;
            let mut i: usize = 0;
            assert(views(list@).take(0) =~= Seq::<Seq<char>>::empty());
            while i < list.len()
                invariant
                    i <= list@.len(),
                    views(r@) == subtrees(views(list@).take(i as int), only_absolute),
                decreases list@.len() - i,
            {
                assert(views(list@).take(i + 1).drop_last() =~= views(list@).take(i as int));
                assert(views(list@).take(i + 1).last() == list@[i as int]@);
                if !only_absolute || is_absolute_path(list[i].as_str()) {
                    match normalize_lexically(list[i].as_str()) {
                        Some(path) => {
                            insert_subtree(&mut r, path);
                        },
                        None => {},
                    }
                }
                i = i + 1;
            }
            assert(views(list@).take(list@.len() as int) =~= views(list@));
        },
        None => {},
    }
    r
}

/// The compiled paths never cover one another.
pub proof fn lemma_subtrees_are_minimal(paths: Seq<Seq<char>>, only_absolute: bool)
    ensures
        crate::paths::is_minimal(subtrees(paths, only_absolute)),
    decreases paths.len(),
{
    if paths.len() > 0 {
        lemma_subtrees_are_minimal(paths.drop_last(), only_absolute);
        let before = subtrees(paths.drop_last(), only_absolute);
        match lexically_normalized(paths.last()) {
            Some(path) => {
                crate::paths::lemma_with_subtree_is_minimal(before, path);
            },
            None => {},
        }
    }
}

pub open spec fn is_set(flag: Option<bool>) -> bool {
    flag matches Some(f) && f
}

fn flag_or_false(flag: Option<bool>) -> (r: bool)
    ensures
        r == is_set(flag),
{
    match flag {
        Some(f) => f,
        None => false,
    }
}

/// Turns the settings on full access into roots. Only absolute roots count.
pub fn compile_full_access_settings(content: Option<FullAccessSettingsContent>) -> (r:
    FullAccessSettings)
    ensures
        match content {
            Some(c) => {
                &&& r.enabled == is_set(c.enabled)
                &&& views(r.allowed_roots@) == subtrees(path_list(c.allowed_roots), true)
                &&& views(r.denied_roots@) == subtrees(path_list(c.denied_roots), true)
            },
            None => !r.enabled && r.allowed_roots@.len() == 0 && r.denied_roots@.len() == 0,
        },
{
    match content {
        Some(c) => FullAccessSettings {
            enabled: flag_or_false(c.enabled),
            allowed_roots: collect_subtrees(&c.allowed_roots, true),
            denied_roots: collect_subtrees(&c.denied_roots, true),
        },
        None => FullAccessSettings::default(),
    }
}

/// Turns the settings on the sandbox into grants.
pub fn compile_sandbox_permissions(content: Option<SandboxPermissionsContent>) -> (r:
    SandboxPermissions)
    ensures
        match content {
            Some(c) => {
                &&& r.allow_network == is_set(c.allow_network)
                &&& r.allow_fs_write_all == is_set(c.allow_fs_write_all)
                &&& r.allow_unsandboxed == is_set(c.allow_unsandboxed)
                &&& views(r.write_paths@) == subtrees(path_list(c.write_paths), false)
            },
            None => {
                &&& !r.allow_network
                &&& !r.allow_fs_write_all
                &&& !r.allow_unsandboxed
                &&& r.write_paths@.len() == 0
            },
        },
{
    match content {
        Some(c) => SandboxPermissions {
            allow_network: flag_or_false(c.allow_network),
            allow_fs_write_all: flag_or_false(c.allow_fs_write_all),
            allow_unsandboxed: flag_or_false(c.allow_unsandboxed),
            write_paths: collect_subtrees(&c.write_paths, false),
        },
        None => SandboxPermissions::default(),
    }
}

} // verus!
