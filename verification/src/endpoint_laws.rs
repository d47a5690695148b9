//! What is sent to a local server, and what is run.
use crate::json::entry;
use crate::open_ai_compatible::{
    local_parameters, normalized_api_url, with_default, written_object,
};
use crate::rag::without_trailing_slashes;
use crate::text::{ascii_lower, ends_with, is_ws, trim};
use crate::tools::computer_use::{key_named, KeyName};
use crate::tools::run_code::{interpreter_for, time_limit, RunCodeToolInput};
use vstd::prelude::*;

verus! {

/// Whether a text begins and ends with something, and not with a slash.
pub open spec fn is_plain_base(base: Seq<char>) -> bool {
    &&& base.len() > 0
    &&& !is_ws(base[0])
    &&& !is_ws(base.last())
    &&& base.last() != '/'
}

/// However the URL of a server is given, as its base, with the version, with a slash at its end or
/// with the path of an endpoint, it comes to the same.
pub proof fn lemma_api_url_is_the_base_with_its_version(base: Seq<char>)
    requires
        is_plain_base(base),
        !ends_with(base, "/chat/completions"@),
        !ends_with(base, "/completions"@),
        !ends_with(base, "/embeddings"@),
        !ends_with(base, "/v1"@),
    ensures
        normalized_api_url(base) == base + "/v1"@,
        normalized_api_url(base + "/"@) == base + "/v1"@,
        normalized_api_url(base + "/v1"@) == base + "/v1"@,
        normalized_api_url(base + "/v1/"@) == base + "/v1"@,
        normalized_api_url(base + "/v1/chat/completions"@) == base + "/v1"@,
        normalized_api_url(base + "/v1/embeddings"@) == base + "/v1"@,
{
    reveal_strlit("/");
    reveal_strlit("/v1");
    reveal_strlit("/v1/");
    reveal_strlit("/v1/chat/completions");
    reveal_strlit("/v1/embeddings");
    reveal_strlit("/chat/completions");
    reveal_strlit("/completions");
    reveal_strlit("/embeddings");
    let v = base + "/v1"@;
    lemma_plain_is_kept(base);
    assert(v.last() == '1');
    lemma_plain_is_kept(v);
    lemma_no_endpoint_behind_version(base);
    let slash = base + "/"@;
    assert(slash.last() == '/');
    assert(slash.drop_last() =~= base);
    lemma_ends(slash);
    assert(without_trailing_slashes(slash) == base) by {
        reveal_with_fuel(without_trailing_slashes, 2);
    }
    let vs = base + "/v1/"@;
    assert(vs.last() == '/');
    assert(vs.drop_last() =~= v);
    lemma_ends(vs);
    assert(without_trailing_slashes(vs) == v) by {
        reveal_with_fuel(without_trailing_slashes, 2);
    }
    let chat = base + "/v1/chat/completions"@;
    assert(chat.last() == 's');
    lemma_plain_is_kept(chat);
    assert(chat.skip(chat.len() - 17) =~= "/chat/completions"@);
    assert(chat.take(chat.len() - 17) =~= v);
    let embed = base + "/v1/embeddings"@;
    assert(embed.last() == 's');
    lemma_plain_is_kept(embed);
    assert(embed.skip(embed.len() - 11) =~= "/embeddings"@);
    assert(embed.take(embed.len() - 11) =~= v);
    assert(embed[embed.len() - 2] == 'g');
    assert(!ends_with(embed, "/chat/completions"@)) by {
        if embed.len() >= 17 {
            let t = embed.skip(embed.len() - 17);
            assert(t[15] == 'g');
            assert("/chat/completions"@[15] == 'n');
        }
    }
    assert(!ends_with(embed, "/completions"@)) by {
        if embed.len() >= 12 {
            let t = embed.skip(embed.len() - 12);
            assert(t[10] == 'g');
            assert("/completions"@[10] == 'n');
        }
    }
    assert(v.skip(v.len() - 3) =~= "/v1"@);
}

proof fn lemma_no_endpoint_behind_version(base: Seq<char>)
    ensures
        !ends_with(base + "/v1"@, "/chat/completions"@),
        !ends_with(base + "/v1"@, "/completions"@),
        !ends_with(base + "/v1"@, "/embeddings"@),
{
    reveal_strlit("/v1");
    reveal_strlit("/chat/completions");
    reveal_strlit("/completions");
    reveal_strlit("/embeddings");
    let v = base + "/v1"@;
    assert(v.last() == '1');
    if v.len() >= 17 {
        assert(v.skip(v.len() - 17)[16] == '1');
    }
    if v.len() >= 12 {
        assert(v.skip(v.len() - 12)[11] == '1');
    }
    if v.len() >= 11 {
        assert(v.skip(v.len() - 11)[10] == '1');
    }
}

proof fn lemma_ends(s: Seq<char>)
    requires
        s.len() > 0,
        !is_ws(s[0]),
        !is_ws(s.last()),
    ensures
        trim(s) == s,
{
    crate::recall_laws::lemma_solid_is_trimmed(s);
}

proof fn lemma_plain_is_kept(s: Seq<char>)
    requires
        is_plain_base(s),
    ensures
        trim(s) == s,
        without_trailing_slashes(s) == s,
{
    crate::recall_laws::lemma_solid_is_trimmed(s);
}

/// A schema has properties and a type once it is completed: those that it had, and else none and an
/// object. What else it holds stays as it was.
pub proof fn lemma_schema_is_completed(entries: Seq<(Seq<char>, Seq<char>)>, schema: Seq<char>)
    requires
        crate::json::json_entries(schema) == Some(entries),
    ensures
        exists|full: Seq<(Seq<char>, Seq<char>)>|
            {
                &&& local_parameters(schema).0 == #[trigger] written_object(full)
                &&& entries.is_prefix_of(full)
                &&& full.len() <= entries.len() + 2
                &&& entry(full, "properties"@, 0) == match entry(entries, "properties"@, 0) {
                    Some(v) => Some(v),
                    None => Some("{}"@),
                }
                &&& entry(full, "type"@, 0) == match entry(entries, "type"@, 0) {
                    Some(v) => Some(v),
                    None => Some("\"object\""@),
                }
            },
{
    reveal_strlit("properties");
    reveal_strlit("type");
    let mid = with_default(entries, "properties"@, "{}"@);
    let full = with_default(mid, "type"@, "\"object\""@);
    assert("properties"@.len() != "type"@.len());
    lemma_default(entries, "properties"@, "{}"@, "type"@);
    lemma_default(mid, "type"@, "\"object\""@, "properties"@);
    assert(entries =~= full.take(entries.len() as int));
    assert(local_parameters(schema).0 == written_object(full));
}

proof fn lemma_default(
    entries: Seq<(Seq<char>, Seq<char>)>,
    key: Seq<char>,
    value: Seq<char>,
    other: Seq<char>,
)
    requires
        key != other,
    ensures
        entry(with_default(entries, key, value), key, 0) == match entry(entries, key, 0) {
            Some(v) => Some(v),
            None => Some(value),
        },
        entry(with_default(entries, key, value), other, 0) == entry(entries, other, 0),
{
    if entry(entries, key, 0) is None {
        lemma_entry_of_more(entries, (key, value), key, 0);
        lemma_entry_of_more(entries, (key, value), other, 0);
    }
}

proof fn lemma_entry_of_more(
    entries: Seq<(Seq<char>, Seq<char>)>,
    last: (Seq<char>, Seq<char>),
    key: Seq<char>,
    i: int,
)
    requires
        0 <= i <= entries.len(),
    ensures
        entry(entries.push(last), key, i) == match entry(entries, key, i) {
            Some(v) => Some(v),
            None => if last.0 == key {
                Some(last.1)
            } else {
                None
            },
        },
    decreases entries.len() - i,
{
    let more = entries.push(last);
    if i < entries.len() {
        assert(more[i] == entries[i]);
        if entries[i].0 != key {
            lemma_entry_of_more(entries, last, key, i + 1);
        }
    } else {
        assert(more[i] == last);
        assert(entry(more, key, i + 1) is None);
    }
}

/// Whether code is run by this program, out of a file with this ending.
pub open spec fn runs_as(
    interpreter: Option<(Seq<char>, Seq<Seq<char>>, Seq<char>)>,
    program: Seq<char>,
    ending: Seq<char>,
) -> bool {
    interpreter matches Some(i) && i.0 == program && i.2 == ending
}

/// Code is run by what its language names, whatever the case of its letters and the blanks around it.
pub proof fn lemma_language_names_its_interpreter(language: Seq<char>, windows: bool)
    ensures
        ({
            let name = ascii_lower(trim(language));
            let r = interpreter_for(language, windows);
            &&& name == "python"@ || name == "python3"@ ==> runs_as(r, "python"@, ".py"@)
            &&& name == "node"@ || name == "javascript"@ || name == "js"@ ==> runs_as(
                r,
                "node"@,
                ".js"@,
            )
            &&& name == "bash"@ || name == "shell"@ ==> runs_as(r, "bash"@, ".sh"@)
            &&& name == "powershell"@ || name == "pwsh"@ ==> runs_as(
                r,
                if windows {
                    "powershell"@
                } else {
                    "pwsh"@
                },
                ".ps1"@,
            )
        }),
        forall|other: Seq<char>| #[trigger]
            ascii_lower(trim(other)) == ascii_lower(trim(language)) ==> interpreter_for(
                other,
                windows,
            ) == interpreter_for(language, windows),
{
    reveal_strlit("python");
    reveal_strlit("python3");
    reveal_strlit("node");
    reveal_strlit("javascript");
    reveal_strlit("js");
    reveal_strlit("bash");
    reveal_strlit("shell");
    reveal_strlit("powershell");
    reveal_strlit("pwsh");
    let name = ascii_lower(trim(language));
    if name.len() > 0 {
        assert(name[0] == name[0]);
    }
    assert("node"@[0] == 'n' && "bash"@[0] == 'b' && "pwsh"@[0] == 'p');
    assert("python"@[0] == 'p' && "python3"@[0] == 'p');
    assert("javascript"@[0] == 'j' && "powershell"@[0] == 'p' && "shell"@[0] == 's');
}

/// Code runs as long as was asked, but never longer than half an hour.
pub proof fn lemma_time_limit_is_what_was_asked(input: RunCodeToolInput)
    ensures
        time_limit(input) <= 1_800_000,
        input.timeout_ms matches Some(ms) && ms <= 1_800_000 ==> time_limit(input)
            == input.timeout_ms->0,
{
}

/// A key with one letter is that letter, made small; it makes no difference in which case a name is
/// written.
pub proof fn lemma_letter_is_its_own_key(c: char, name: Seq<char>)
    ensures
        key_named(seq![c]) == Some(KeyName::Unicode(ascii_lower(seq![c])[0])),
        key_named(ascii_lower(name)) == key_named(name),
{
    reveal_strlit("enter");
    reveal_strlit("return");
    reveal_strlit("escape");
    reveal_strlit("esc");
    reveal_strlit("tab");
    reveal_strlit("space");
    reveal_strlit("backspace");
    reveal_strlit("delete");
    reveal_strlit("up");
    reveal_strlit("down");
    reveal_strlit("left");
    reveal_strlit("right");
    assert(ascii_lower(ascii_lower(name)) =~= ascii_lower(name));
}

} // verus!
