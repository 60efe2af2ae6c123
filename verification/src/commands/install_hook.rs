//! `install-hook`: add the session-start hook that runs `next` to the agent's
//! project settings, leaving every other setting as it was.
use vstd::prelude::*;
use crate::error::Error;
use crate::session::{entry_lookup, parse_json, json_parse, JsonValue};
use crate::text::{owned, push_str};

verus! {

/// The shell command the hook runs: `next` when the project has a saga.
pub open spec fn hook_command_text() -> Seq<char> {
    "if [ -f .avoid-compaction/saga.toml ]; then avoid-compaction next 2>/dev/null || cargo run --quiet -- next; fi"@
}

/// The hook command.
pub fn hook_command() -> (res: String)
    ensures
        res@ == hook_command_text(),
{
    owned(
        "if [ -f .avoid-compaction/saga.toml ]; then avoid-compaction next 2>/dev/null || cargo run --quiet -- next; fi",
    )
}

/// A string value with text `t`.
pub open spec fn is_str(v: JsonValue, t: Seq<char>) -> bool {
    v matches JsonValue::Str(s) && s@ == t
}

/// The hook itself: of type `command`, running the hook command.
pub open spec fn is_command_hook(v: JsonValue) -> bool {
    match v {
        JsonValue::Object(h) => {
            &&& h@.len() == 2
            &&& h@[0].0@ == "type"@
            &&& is_str(h@[0].1, "command"@)
            &&& h@[1].0@ == "command"@
            &&& is_str(h@[1].1, hook_command_text())
        },
        _ => false,
    }
}

/// The matcher entry: an empty matcher and the one command hook.
pub open spec fn is_matcher_entry(v: JsonValue) -> bool {
    match v {
        JsonValue::Object(e) => {
            &&& e@.len() == 2
            &&& e@[0].0@ == "matcher"@
            &&& is_str(e@[0].1, ""@)
            &&& e@[1].0@ == "hooks"@
            &&& match e@[1].1 {
                JsonValue::Array(hs) => hs@.len() == 1 && is_command_hook(hs@[0]),
                _ => false,
            }
        },
        _ => false,
    }
}

/// The session-start hook: a list of one matcher entry.
pub open spec fn is_session_start_hook(v: JsonValue) -> bool {
    match v {
        JsonValue::Array(a) => a@.len() == 1 && is_matcher_entry(a@[0]),
        _ => false,
    }
}

/// Builds the session-start hook.
pub fn session_start_hook() -> (res: JsonValue)
    ensures
        is_session_start_hook(res),
{
    let mut hook: Vec<(String, JsonValue)> = Vec::new();
    hook.push((owned("type"), JsonValue::Str(owned("command"))));
    hook.push((owned("command"), JsonValue::Str(hook_command())));
    let mut hooks: Vec<JsonValue> = Vec::new();
    hooks.push(JsonValue::Object(hook));
    let mut matcher: Vec<(String, JsonValue)> = Vec::new();
    matcher.push((owned("matcher"), JsonValue::Str(String::new())));
    matcher.push((owned("hooks"), JsonValue::Array(hooks)));
    proof {
        reveal_strlit("");
        assert(""@ =~= Seq::<char>::empty());
    }
    let mut outer: Vec<JsonValue> = Vec::new();
    outer.push(JsonValue::Object(matcher));
    let res = JsonValue::Array(outer);
    proof {
        assert(is_command_hook(hooks@[0]));
        assert(is_matcher_entry(outer@[0]));
    }
    res
}

/// The `hooks` setting.
pub open spec fn hooks_of(settings: Seq<(String, JsonValue)>) -> Option<JsonValue> {
    entry_lookup(settings, "hooks"@)
}

/// The hooks under `hooks`, empty when there is no such setting.
pub open spec fn hook_entries(settings: Seq<(String, JsonValue)>) -> Seq<(String, JsonValue)> {
    match hooks_of(settings) {
        Some(JsonValue::Object(h)) => h@,
        _ => Seq::empty(),
    }
}

/// The settings already hold a session-start hook.
pub open spec fn configured(settings: Seq<(String, JsonValue)>) -> bool {
    hooks_of(settings) matches Some(JsonValue::Object(h)) && entry_lookup(h@, "SessionStart"@) is Some
}

/// The settings hold a `hooks` setting that is not an object.
pub open spec fn hooks_malformed(settings: Seq<(String, JsonValue)>) -> bool {
    hooks_of(settings) matches Some(v) && !(v is Object)
}

/// `new` is `old` with the session-start hook added under `hooks`, and
/// every other setting, and every other hook, as it was.
pub open spec fn installed(old: Seq<(String, JsonValue)>, new: Seq<(String, JsonValue)>) -> bool {
    &&& hooks_of(new) matches Some(JsonValue::Object(h)) && {
        &&& entry_lookup(h@, "SessionStart"@) matches Some(v) && is_session_start_hook(v)
        &&& forall|k: Seq<char>|
            k != "SessionStart"@ ==> #[trigger] entry_lookup(h@, k) == entry_lookup(
                hook_entries(old),
                k,
            )
    }
    &&& forall|k: Seq<char>| k != "hooks"@ ==> #[trigger] entry_lookup(new, k) == entry_lookup(old, k)
}

/// What installing answers for `settings`: refused when `hooks` is not an
/// object, nothing to do when the hook is there, else the new settings.
pub open spec fn install_answer(
    settings: Seq<(String, JsonValue)>,
    res: Result<Option<Vec<(String, JsonValue)>>, Error>,
) -> bool {
    &&& res is Err <==> hooks_malformed(settings)
    &&& res matches Err(e) ==> (e matches Error::Other(m) && m@ == "hooks is not an object"@)
    &&& (res matches Ok(None)) <==> (!hooks_malformed(settings) && configured(settings))
    &&& res matches Ok(Some(new)) ==> installed(settings, new@)
}

proof fn lemma_lookup_push(s: Seq<(String, JsonValue)>, e: (String, JsonValue), key: Seq<char>)
    ensures
        entry_lookup(s, key) is Some ==> entry_lookup(s.push(e), key) == entry_lookup(s, key),
        entry_lookup(s, key) is None && e.0@ == key ==> entry_lookup(s.push(e), key) == Some(e.1),
        entry_lookup(s, key) is None && e.0@ != key ==> entry_lookup(s.push(e), key) is None,
    decreases s.len(),
{
    if s.len() > 0 {
        assert(s.push(e)[0] == s[0]);
        assert(s.push(e).drop_first() =~= s.drop_first().push(e));
        lemma_lookup_push(s.drop_first(), e, key);
    } else {
        assert(s.push(e)[0] == e);
        assert(s.push(e).drop_first() =~= Seq::<(String, JsonValue)>::empty());
        assert(entry_lookup(s.push(e).drop_first(), key) is None);
    }
}

proof fn lemma_lookup_update(
    s: Seq<(String, JsonValue)>,
    i: int,
    e: (String, JsonValue),
    key: Seq<char>,
)
    requires
        0 <= i < s.len(),
        e.0@ == s[i].0@,
        forall|j: int| 0 <= j < i ==> #[trigger] s[j].0@ != s[i].0@,
    ensures
        entry_lookup(s.update(i, e), key) == if key == e.0@ {
            Some(e.1)
        } else {
            entry_lookup(s, key)
        },
    decreases s.len(),
{
    if i > 0 {
        assert(s.update(i, e).drop_first() =~= s.drop_first().update(i - 1, e));
        assert forall|j: int| 0 <= j < i - 1 implies #[trigger] s.drop_first()[j].0@ != s.drop_first()[
            i - 1
        ].0@ by {
            assert(s[j + 1].0@ != s[i].0@);
        }
        lemma_lookup_update(s.drop_first(), i - 1, e, key);
    } else {
        assert(s.update(i, e).drop_first() =~= s.drop_first());
    }
}

/// The index of the first entry with key `key`.
pub fn find_key(entries: &Vec<(String, JsonValue)>, key: &str) -> (res: Option<usize>)
    ensures
        match res {
            Some(i) => i < entries.len() && entries@[i as int].0@ == key@ && forall|j: int|
                0 <= j < i ==> #[trigger] entries@[j].0@ != key@,
            None => entry_lookup(entries@, key@) is None,
        },
        res matches Some(i) ==> entry_lookup(entries@, key@) == Some(entries@[i as int].1),
{
    let k = owned(key);
    let mut i: usize = 0;
    assert(entries@.skip(0) =~= entries@);
    while i < entries.len()
        invariant
            i <= entries.len(),
            k@ == key@,
            forall|j: int| 0 <= j < i ==> #[trigger] entries@[j].0@ != key@,
            entry_lookup(entries@, key@) == entry_lookup(entries@.skip(i as int), key@),
        decreases entries.len() - i,
    {
        let ghost rest = entries@.skip(i as int);
        assert(rest[0] == entries@[i as int]);
        if entries[i].0 == k {
            return Some(i);
        }
        assert(rest.drop_first() =~= entries@.skip(i + 1));
        i = i + 1;
    }
    None
}

/// Reads the settings file's text (`None` when there is no file) as the
/// object of settings: empty without a file; an error when the text is not
/// JSON or not an object.
pub fn load_or_empty(content: Option<&str>) -> (res: Result<Vec<(String, JsonValue)>, Error>)
    ensures
        content is None ==> (res matches Ok(m) && m@.len() == 0),
        content matches Some(t) ==> {
            &&& res is Ok <==> (json_parse(t@) matches Some(JsonValue::Object(_)))
            &&& res matches Ok(m) ==> json_parse(t@) == Some(JsonValue::Object(m))
            &&& json_parse(t@) is None ==> (res matches Err(Error::Other(m)) && "JSON parse error: "@.is_prefix_of(m@))
            &&& (json_parse(t@) matches Some(v) && !(v is Object)) ==> (res matches Err(Error::Other(m))
                && m@ == "settings.json is not an object"@)
        },
{
    match content {
        None => Ok(Vec::new()),
        Some(t) => match parse_json(t) {
            Ok(JsonValue::Object(m)) => Ok(m),
            Ok(_) => Err(Error::Other(owned("settings.json is not an object"))),
            Err(e) => {
                let mut m = String::new();
                push_str(&mut m, "JSON parse error: ");
                push_str(&mut m, e.as_str());
                assert("JSON parse error: "@ =~= m@.subrange(0, "JSON parse error: "@.len() as int));
                Err(Error::Other(m))
            },
        },
    }
}

/// Installs the session-start hook into the settings object: a `hooks`
/// object is created when missing; an existing session-start hook is left
/// alone (`Ok(None)`, nothing to write); a `hooks` setting that is not an
/// object is refused.
pub fn run(settings: Vec<(String, JsonValue)>) -> (res: Result<Option<Vec<(String, JsonValue)>>, Error>)
    ensures
        install_answer(settings@, res),
{
    let mut settings = settings;
    let ghost old_s = settings@;
    let hook = session_start_hook();
    match find_key(&settings, "hooks") {
        None => {
            let mut hooks: Vec<(String, JsonValue)> = Vec::new();
            let ghost empty = hooks@;
            let entry = (owned("SessionStart"), hook);
            hooks.push(entry);
            proof {
                assert(empty =~= Seq::<(String, JsonValue)>::empty());
                assert forall|k: Seq<char>| true implies #[trigger] entry_lookup(hooks@, k) == (if k
                    == "SessionStart"@ {
                    Some(entry.1)
                } else {
                    None::<JsonValue>
                }) by {
                    lemma_lookup_push(empty, entry, k);
                }
            }
            let new_entry = (owned("hooks"), JsonValue::Object(hooks));
            settings.push(new_entry);
            proof {
                assert forall|k: Seq<char>| true implies #[trigger] entry_lookup(settings@, k) == (
                match entry_lookup(old_s, k) {
                    Some(v) => Some(v),
                    None => if k == "hooks"@ {
                        Some(new_entry.1)
                    } else {
                        None
                    },
                }) by {
                    lemma_lookup_push(old_s, new_entry, k);
                }
                let l = entry_lookup(settings@, "hooks"@);
                assert(l == Some(new_entry.1));
            }
            Ok(Some(settings))
        },
        Some(i) => {
            let (k, v) = settings.remove(i);
            match v {
                JsonValue::Object(h) => {
                    let mut h = h;
                    let ghost old_h = h@;
                    if find_key(&h, "SessionStart").is_some() {
                        return Ok(None);
                    }
                    let entry = (owned("SessionStart"), hook);
                    h.push(entry);
                    proof {
                        assert forall|key: Seq<char>| true implies #[trigger] entry_lookup(h@, key)
                            == (match entry_lookup(old_h, key) {
                            Some(v) => Some(v),
                            None => if key == "SessionStart"@ {
                                Some(entry.1)
                            } else {
                                None
                            },
                        }) by {
                            lemma_lookup_push(old_h, entry, key);
                        }
                    }
                    let new_entry = (k, JsonValue::Object(h));
                    settings.insert(i, new_entry);
                    proof {
                        assert(settings@ =~= old_s.update(i as int, new_entry));
                        assert forall|key: Seq<char>| true implies #[trigger] entry_lookup(
                            settings@,
                            key,
                        ) == (if key == "hooks"@ {
                            Some(new_entry.1)
                        } else {
                            entry_lookup(old_s, key)
                        }) by {
                            lemma_lookup_update(old_s, i as int, new_entry, key);
                        }
                    }
                    Ok(Some(settings))
                },
                _ => Err(Error::Other(owned("hooks is not an object"))),
            }
        },
    }
}

/// Installing twice changes nothing the second time: settings into which
/// the hook was installed are answered with "already configured".
pub proof fn install_is_idempotent(
    settings: Seq<(String, JsonValue)>,
    new: Vec<(String, JsonValue)>,
    again: Result<Option<Vec<(String, JsonValue)>>, Error>,
)
    requires
        install_answer(settings, Ok(Some(new))),
        install_answer(new@, again),
    ensures
        again matches Ok(None),
{
}

} // verus!
