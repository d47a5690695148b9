//! Patterns that commands are matched against, and the rules that no setting can override.
use crate::paths::{is_absolute, is_absolute_path, normalize_path, normalized_path};
use crate::text::{
    eq_ignore_case, eq_ignore_case_str, join, join_strs, starts_with, starts_with_str, str_eq,
    strip_prefix_str, trim, trim_str, views, words, words_str,
};
use vstd::prelude::*;

verus! {

/// Why `regex::RegexBuilder` refuses a pattern, as the text of its error; nothing where it
/// accepts the pattern.
pub uninterp spec fn regex_error(pattern: Seq<char>, case_insensitive: bool) -> Option<Seq<char>>;

/// Whether the regex that `regex::RegexBuilder` makes of a pattern matches somewhere in `input`.
pub uninterp spec fn regex_matches(
    pattern: Seq<char>,
    case_insensitive: bool,
    input: Seq<char>,
) -> bool;

/// `regex::RegexBuilder::build`: the text of the error with which a pattern is refused, if it
/// is. It depends on the pattern and the case flag alone.
#[verifier::external_body]
fn build_error(pattern: &str, case_insensitive: bool) -> (r: Option<String>)
    ensures
        match r {
            Some(e) => regex_error(pattern@, case_insensitive) == Some(e@),
            None => regex_error(pattern@, case_insensitive) is None,
        },
{
    regex::RegexBuilder::new(pattern)
        .case_insensitive(case_insensitive)
        .build()
        .err()
        .map(|e| e.to_string())
}

/// `regex::Regex::is_match` on the regex that is built from the pattern: whether it matches
/// somewhere in the input. A pattern that is refused matches nothing.
#[verifier::external_body]
fn search(pattern: &str, case_insensitive: bool, input: &str) -> (r: bool)
    ensures
        r == regex_matches(pattern@, case_insensitive, input@),
        r ==> regex_error(pattern@, case_insensitive) is None,
{
    regex::RegexBuilder::new(pattern)
        .case_insensitive(case_insensitive)
        .build()
        .is_ok_and(|regex| regex.is_match(input))
}

/// A pattern that has been found to be a regex.
#[derive(Debug)]
pub struct CompiledRegex {
    pub pattern: String,
    pub case_sensitive: bool,
}

impl CompiledRegex {
    /// Whether the pattern matches somewhere in `input`.
    pub open spec fn matches(&self, input: Seq<char>) -> bool {
        regex_matches(self.pattern@, !self.case_sensitive, input)
    }

    pub fn new(pattern: &str, case_sensitive: bool) -> (r: Option<Self>)
        ensures
            r is Some <==> regex_error(pattern@, !case_sensitive) is None,
            r matches Some(c) ==> c.pattern@ == pattern@ && c.case_sensitive == case_sensitive,
    {
        match Self::try_new(pattern, case_sensitive) {
            Ok(c) => Some(c),
            Err(_) => None,
        }
    }

    /// The pattern as a regex, or the text of the error.
    pub fn try_new(pattern: &str, case_sensitive: bool) -> (r: Result<Self, String>)
        ensures
            match r {
                Ok(c) => {
                    &&& regex_error(pattern@, !case_sensitive) is None
                    &&& c.pattern@ == pattern@
                    &&& c.case_sensitive == case_sensitive
                },
                Err(e) => regex_error(pattern@, !case_sensitive) == Some(e@),
            },
    {
        match build_error(pattern, !case_sensitive) {
            Some(e) => Err(e),
            None => Ok(CompiledRegex { pattern: pattern.to_string(), case_sensitive }),
        }
    }

    pub fn is_match(&self, input: &str) -> (r: bool)
        ensures
            r == self.matches(input@),
    {
        search(self.pattern.as_str(), !self.case_sensitive, input)
    }
}

pub const HARDCODED_SECURITY_DENIAL_MESSAGE: &'static str =
    "Blocked by built-in security rule. This operation is considered too harmful to be allowed, and cannot be overridden by settings.";

pub const FLAGS: &'static str = "(--[a-zA-Z0-9][-a-zA-Z0-9_]*(=[^\\s]*)?\\s+|-[a-zA-Z]+\\s+)*";

pub const TRAILING_FLAGS: &'static str =
    "(\\s+--[a-zA-Z0-9][-a-zA-Z0-9_]*(=[^\\s]*)?|\\s+-[a-zA-Z]+)*\\s*";

pub const DENIED_TARGET_COUNT: usize = 5;

/// The targets whose recursive deletion is denied: the root, the home directory (written in two
/// ways), the current directory and its parent.
pub open spec fn denied_target(i: int) -> Seq<char> {
    if i == 0 {
        "/\\*?"@
    } else if i == 1 {
        "~/?\\*?"@
    } else if i == 2 {
        "(\\$HOME|\\$\\{HOME\\})/?(\\*)?"@
    } else if i == 3 {
        "\\./?\\*?"@
    } else {
        "\\.\\./?\\*?"@
    }
}

/// The pattern of an `rm` of the `i`-th denied target, with flags before and behind it.
pub open spec fn denied_pattern(i: int) -> Seq<char> {
    "\\brm\\s+"@ + FLAGS@ + "(--\\s+)?"@ + denied_target(i) + TRAILING_FLAGS@ + "$"@
}

/// Rules that are always enforced.
pub struct HardcodedSecurityRules {
    pub terminal_deny: Vec<CompiledRegex>,
}

impl HardcodedSecurityRules {
    /// Whether these are the denied targets, whatever the case of the letters.
    pub open spec fn is_complete(&self) -> bool {
        &&& self.terminal_deny@.len() == DENIED_TARGET_COUNT
        &&& forall|i: int|
            0 <= i < DENIED_TARGET_COUNT ==> {
                &&& (#[trigger] self.terminal_deny@[i]).pattern@ == denied_pattern(i)
                &&& !self.terminal_deny@[i].case_sensitive
            }
    }
}

pub fn hardcoded_security_rules() -> (r: HardcodedSecurityRules)
    ensures
        r.is_complete(),
{
    let mut terminal_deny: Vec<CompiledRegex> = Vec::new();
    let mut i: usize = 0;
    while i < DENIED_TARGET_COUNT
        invariant
            i <= DENIED_TARGET_COUNT,
            terminal_deny@.len() == i,
            forall|k: int|
                0 <= k < i ==> {
                    &&& (#[trigger] terminal_deny@[k]).pattern@ == denied_pattern(k)
                    &&& !terminal_deny@[k].case_sensitive
                },
        decreases DENIED_TARGET_COUNT - i,
    {
        let target = if i == 0 {
            "/\\*?"
        } else if i == 1 {
            "~/?\\*?"
        } else if i == 2 {
            "(\\$HOME|\\$\\{HOME\\})/?(\\*)?"
        } else if i == 3 {
            "\\./?\\*?"
        } else {
            "\\.\\./?\\*?"
        };
        let mut pattern = "\\brm\\s+".to_string();
        pattern.append(FLAGS);
        pattern.append("(--\\s+)?");
        pattern.append(target);
        pattern.append(TRAILING_FLAGS);
        pattern.append("$");
        terminal_deny.push(CompiledRegex { pattern, case_sensitive: false });
        i = i + 1;
    }
    HardcodedSecurityRules { terminal_deny }
}

/// Whether one of the patterns matches.
pub open spec fn any_matches(patterns: Seq<CompiledRegex>, input: Seq<char>) -> bool {
    exists|i: int| 0 <= i < patterns.len() && (#[trigger] patterns[i]).matches(input)
}

fn any_pattern_matches(patterns: &Vec<CompiledRegex>, input: &str) -> (r: bool)
    ensures
        r == any_matches(patterns@, input@),
{
    let mut i: usize = 0;
    while i < patterns.len()
        invariant
            i <= patterns@.len(),
            forall|j: int| 0 <= j < i ==> !(#[trigger] patterns@[j]).matches(input@),
        decreases patterns@.len() - i,
    {
        if patterns[i].is_match(input) {
            return true;
        }
        i = i + 1;
    }
    false
}

/// Whether a command, or one of the single deletions that it stands for, matches a pattern.
pub open spec fn is_denied(command: Seq<char>, patterns: Seq<CompiledRegex>) -> bool {
    ||| any_matches(patterns, command)
    ||| exists|k: int|
        0 <= k < single_deletions(command).len() && any_matches(
            patterns,
            #[trigger] single_deletions(command)[k],
        )
}

pub fn matches_hardcoded_patterns(command: &str, patterns: &Vec<CompiledRegex>) -> (r: bool)
    ensures
        r == is_denied(command@, patterns@),
{
    if any_pattern_matches(patterns, command) {
        return true;
    }
    let expanded = expand_rm_to_single_path_commands(command);
    let mut i: usize = 0;
    while i < expanded.len()
        invariant
            i <= expanded@.len(),
            views(expanded@) == single_deletions(command@),
            forall|j: int|
                0 <= j < i ==> !any_matches(patterns@, #[trigger] single_deletions(command@)[j]),
        decreases expanded@.len() - i,
    {
        assert(single_deletions(command@)[i as int] == expanded@[i as int]@);
        if any_pattern_matches(patterns, expanded[i].as_str()) {
            return true;
        }
        i = i + 1;
    }
    assert(views(expanded@).len() == expanded@.len());
    false
}

/// The words of a deletion that are flags: those with a dash, up to and with a bare `--`.
pub open spec fn deletion_flags(args: Seq<Seq<char>>) -> Seq<Seq<char>>
    decreases args.len(),
{
    if args.len() == 0 {
        Seq::empty()
    } else if is_flag(args.drop_last(), args.last()) {
        deletion_flags(args.drop_last()).push(args.last())
    } else {
        deletion_flags(args.drop_last())
    }
}

/// The words of a deletion that are paths.
pub open spec fn deletion_paths(args: Seq<Seq<char>>) -> Seq<Seq<char>>
    decreases args.len(),
{
    if args.len() == 0 {
        Seq::empty()
    } else if is_flag(args.drop_last(), args.last()) {
        deletion_paths(args.drop_last())
    } else {
        deletion_paths(args.drop_last()).push(args.last())
    }
}

pub open spec fn is_flag(before: Seq<Seq<char>>, word: Seq<char>) -> bool {
    !before.contains("--"@) && starts_with(word, "-"@)
}

/// What a path of a deletion means: a path below the home directory or a plain path is
/// normalized, anything else with a variable stays.
pub open spec fn deletion_target(path: Seq<char>) -> Seq<char> {
    if starts_with(path, "$"@) {
        if starts_with(path, "${HOME}"@) {
            below_home("${HOME}"@, path)
        } else if starts_with(path, "$HOME"@) {
            below_home("$HOME"@, path)
        } else {
            path
        }
    } else if normalized_path(path).len() == 0 && !is_absolute(path) {
        "."@
    } else {
        normalized_path(path)
    }
}

pub open spec fn below_home(home: Seq<char>, path: Seq<char>) -> Seq<char> {
    let rest = path.skip(home.len() as int);
    if starts_with(rest, "/"@) {
        if normalized_path(rest) == "/"@ {
            home
        } else {
            home + normalized_path(rest)
        }
    } else {
        path
    }
}

/// The deletions of one path each that a command stands for, where it is a deletion.
pub open spec fn single_deletions(command: Seq<char>) -> Seq<Seq<char>> {
    let ws = words(trim(command));
    if ws.len() == 0 || !eq_ignore_case(ws[0], "rm"@) {
        Seq::empty()
    } else {
        let flags = deletion_flags(ws.skip(1));
        let flag_text = if flags.len() == 0 {
            Seq::empty()
        } else {
            join(flags, " "@) + " "@
        };
        Seq::new(
            deletion_paths(ws.skip(1)).len(),
            |i: int| "rm "@ + flag_text + deletion_target(deletion_paths(ws.skip(1))[i]),
        )
    }
}

fn target_below_home(home: &str, path: &str) -> (r: Option<String>)
    ensures
        r is Some <==> starts_with(path@, home@),
        r matches Some(t) ==> t@ == below_home(home@, path@),
{
    match strip_prefix_str(path, home) {
        Some(rest) => {
            if starts_with_str(rest.as_str(), "/") {
                let normalized = normalize_path(rest.as_str());
                if str_eq(normalized.as_str(), "/") {
                    Some(home.to_string())
                } else {
                    let mut r = home.to_string();
                    r.append(normalized.as_str());
                    Some(r)
                }
            } else {
                Some(path.to_string())
            }
        },
        None => None,
    }
}

fn target_of(path: &str) -> (r: String)
    ensures
        r@ == deletion_target(path@),
{
    if starts_with_str(path, "$") {
        match target_below_home("${HOME}", path) {
            Some(t) => t,
            None => match target_below_home("$HOME", path) {
                Some(t) => t,
                None => path.to_string(),
            },
        }
    } else {
        let normalized = normalize_path(path);
        if normalized.as_str().is_empty() && !is_absolute_path(path) {
            ".".to_string()
        } else {
            normalized
        }
    }
}

pub fn expand_rm_to_single_path_commands(command: &str) -> (r: Vec<String>)
    ensures
        views(r@) == single_deletions(command@),
{
    let ws = words_str(trim_str(command).as_str());
    let mut results: Vec<String> = Vec::new();
    assert(views(results@) =~= Seq::<Seq<char>>::empty());
    assert(views(ws@).len() == ws@.len());
    if ws.len() == 0 {
        return results;
    }
    assert(views(ws@)[0] == ws@[0]@);
    if !eq_ignore_case_str(ws[0].as_str(), "rm") {
        return results;
    }
    let ghost args = views(ws@).skip(1);
    let mut flags: Vec<String> = Vec::new();
    let mut paths: Vec<String> = Vec::new();
    let mut past_double_dash = false;
    let mut i: usize = 1;
    assert(args.take(0) =~= Seq::<Seq<char>>::empty());
    assert(views(flags@) =~= Seq::<Seq<char>>::empty());
    assert(views(paths@) =~= Seq::<Seq<char>>::empty());
    while i < ws.len()
        invariant
            args == views(ws@).skip(1),
            1 <= i <= ws@.len(),
            past_double_dash == args.take(i - 1).contains("--"@),
            views(flags@) == deletion_flags(args.take(i - 1)),
            views(paths@) == deletion_paths(args.take(i - 1)),
        decreases ws@.len() - i,
    {
        let ghost f = views(flags@);
        let ghost p = views(paths@);
        let ghost seen = args.take(i - 1);
        let word = ws[i].as_str();
        assert(args.take(i as int).drop_last() =~= seen);
        assert(args.take(i as int).last() == word@);
        assert(args.take(i as int) =~= seen.push(word@));
        let dashes = str_eq(word, "--");
        proof {
            let now = seen.push(word@);
            if seen.contains("--"@) {
                let k = choose|k: int| 0 <= k < seen.len() && seen[k] == "--"@;
                assert(now[k] == "--"@);
            }
            if word@ == "--"@ {
                assert(now[seen.len() as int] == "--"@);
            }
            if now.contains("--"@) && word@ != "--"@ {
                let k = choose|k: int| 0 <= k < now.len() && now[k] == "--"@;
                assert(seen[k] == "--"@);
            }
        }
        if !past_double_dash && starts_with_str(word, "-") {
            flags.push(ws[i].clone());
            assert(views(flags@) =~= f.push(word@));
        } else {
            paths.push(ws[i].clone());
            assert(views(paths@) =~= p.push(word@));
        }
        if dashes {
            past_double_dash = true;
        }
        i = i + 1;
    }
    assert(args.take(i - 1) =~= args);
    let mut flag_text = String::new();
    assert(views(flags@).len() == flags@.len());
    if flags.len() > 0 {
        flag_text = join_strs(&flags, " ");
        flag_text.append(" ");
    }
    let ghost all = single_deletions(command@);
    assert(views(paths@).len() == paths@.len());
    let mut k: usize = 0;
    while k < paths.len()
        invariant
            k <= paths@.len(),
            all.len() == paths@.len(),
            forall|j: int|
                0 <= j < all.len() ==> #[trigger] all[j] == "rm "@ + flag_text@ + deletion_target(
                    paths@[j]@,
                ),
            views(results@) == all.take(k as int),
        decreases paths@.len() - k,
    {
        let ghost before = views(results@);
        let mut single = "rm ".to_string();
        single.append(flag_text.as_str());
        single.append(target_of(paths[k].as_str()).as_str());
        results.push(single);
        assert(views(results@) =~= before.push(all[k as int]));
        assert(all.take(k + 1) =~= before.push(all[k as int]));
        k = k + 1;
    }
    assert(all.take(all.len() as int) =~= all);
    results
}

/// Whether one of the commands is denied.
pub open spec fn any_denied(commands: Seq<String>, patterns: Seq<CompiledRegex>) -> bool {
    exists|i: int| 0 <= i < commands.len() && is_denied((#[trigger] commands[i])@, patterns)
}

/// Why a call of a tool is denied whatever the settings say: it is a terminal call whose input,
/// or one of whose parts, is denied by `rules`.
pub fn check_security_rules(
    rules: &HardcodedSecurityRules,
    tool_name: &str,
    terminal_tool_name: &str,
    input: &str,
    extracted_commands: Option<&Vec<String>>,
) -> (r: Option<String>)
    ensures
        r is Some <==> tool_name@ == terminal_tool_name@ && (is_denied(
            input@,
            rules.terminal_deny@,
        ) || (extracted_commands matches Some(c) && any_denied(c@, rules.terminal_deny@))),
        r matches Some(m) ==> m@ == HARDCODED_SECURITY_DENIAL_MESSAGE@,
{
    if !str_eq(tool_name, terminal_tool_name) {
        return None;
    }
    if matches_hardcoded_patterns(input, &rules.terminal_deny) {
        return Some(HARDCODED_SECURITY_DENIAL_MESSAGE.to_string());
    }
    match extracted_commands {
        Some(commands) => {
            let mut i: usize = 0;
            while i < commands.len()
                invariant
                    i <= commands@.len(),
                    tool_name@ == terminal_tool_name@,
                    extracted_commands == Some(commands),
                    forall|j: int|
                        0 <= j < i ==> !is_denied(
                            (#[trigger] commands@[j])@,
                            rules.terminal_deny@,
                        ),
                decreases commands@.len() - i,
            {
                if matches_hardcoded_patterns(commands[i].as_str(), &rules.terminal_deny) {
                    return Some(HARDCODED_SECURITY_DENIAL_MESSAGE.to_string());
                }
                i = i + 1;
            }
        },
        None => {},
    }
    None
}

/// Why a call of a tool is denied whatever the settings say.
pub fn check_hardcoded_security_rules(
    tool_name: &str,
    terminal_tool_name: &str,
    input: &str,
    extracted_commands: Option<&Vec<String>>,
) -> (r: Option<String>)
    ensures
        r is Some <==> tool_name@ == terminal_tool_name@ && (always_denied(input@) || (
        extracted_commands matches Some(c) && any_always_denied(c@))),
        r matches Some(m) ==> m@ == HARDCODED_SECURITY_DENIAL_MESSAGE@,
{
    let rules = hardcoded_security_rules();
    proof {
        lemma_complete_rules(rules, input@);
        if extracted_commands is Some {
            let commands = extracted_commands->0@;
            assert forall|i: int| 0 <= i < commands.len() implies is_denied(
                (#[trigger] commands[i])@,
                rules.terminal_deny@,
            ) == always_denied(commands[i]@) by {
                lemma_complete_rules(rules, commands[i]@);
            }
        }
    }
    check_security_rules(&rules, tool_name, terminal_tool_name, input, extracted_commands)
}

/// Whether a text holds the deletion of a denied target.
pub open spec fn holds_denied_deletion(text: Seq<char>) -> bool {
    exists|i: int|
        0 <= i < DENIED_TARGET_COUNT && regex_matches(#[trigger] denied_pattern(i), true, text)
}

/// Whether a command is denied whatever the settings say: it, or one of the single deletions
/// that it stands for, deletes a denied target.
pub open spec fn always_denied(command: Seq<char>) -> bool {
    ||| holds_denied_deletion(command)
    ||| exists|k: int|
        0 <= k < single_deletions(command).len() && holds_denied_deletion(
            #[trigger] single_deletions(command)[k],
        )
}

pub open spec fn any_always_denied(commands: Seq<String>) -> bool {
    exists|i: int| 0 <= i < commands.len() && always_denied((#[trigger] commands[i])@)
}

proof fn lemma_complete_rules(rules: HardcodedSecurityRules, command: Seq<char>)
    requires
        rules.is_complete(),
    ensures
        is_denied(command, rules.terminal_deny@) == always_denied(command),
{
    let patterns = rules.terminal_deny@;
    assert forall|text: Seq<char>| #[trigger] any_matches(patterns, text) == holds_denied_deletion(
        text,
    ) by {
        if any_matches(patterns, text) {
            let i = choose|i: int| 0 <= i < patterns.len() && (#[trigger] patterns[i]).matches(text);
            assert(regex_matches(denied_pattern(i), true, text));
        }
        if holds_denied_deletion(text) {
            let i = choose|i: int|
                0 <= i < DENIED_TARGET_COUNT && regex_matches(
                    #[trigger] denied_pattern(i),
                    true,
                    text,
                );
            assert(patterns[i].matches(text));
        }
    }
    let singles = single_deletions(command);
    if exists|k: int| 0 <= k < singles.len() && any_matches(patterns, #[trigger] singles[k]) {
        let k = choose|k: int| 0 <= k < singles.len() && any_matches(patterns, #[trigger] singles[k]);
        assert(holds_denied_deletion(singles[k]));
    }
    if exists|k: int| 0 <= k < singles.len() && holds_denied_deletion(#[trigger] singles[k]) {
        let k = choose|k: int| 0 <= k < singles.len() && holds_denied_deletion(#[trigger] singles[k]);
        assert(any_matches(patterns, singles[k]));
    }
}

/// The expansion of a deletion loses no path: each of its words is a flag or a path, and each
/// path is deleted once.
pub proof fn lemma_expansion_keeps_every_path(command: Seq<char>)
    ensures
        ({
            let ws = words(trim(command));
            ws.len() > 0 && eq_ignore_case(ws[0], "rm"@) ==> single_deletions(command).len()
                == deletion_paths(ws.skip(1)).len() && deletion_paths(ws.skip(1)).len()
                + deletion_flags(ws.skip(1)).len() == ws.len() - 1
        }),
{
    let ws = words(trim(command));
    if ws.len() > 0 {
        lemma_flags_and_paths(ws.skip(1));
    }
}

proof fn lemma_flags_and_paths(args: Seq<Seq<char>>)
    ensures
        deletion_paths(args).len() + deletion_flags(args).len() == args.len(),
    decreases args.len(),
{
    if args.len() > 0 {
        lemma_flags_and_paths(args.drop_last());
    }
}

} // verus!
