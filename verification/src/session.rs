//! Agent session logs: the project directory name derived from a working
//! directory, reading conversation text out of JSONL records, and counting
//! and appending snapshot lines.
use vstd::prelude::*;
use crate::order::{keys_ascending, sort_by_key, with_key};
use crate::text::{
    chars_of, ends_with, is_blank, join, join_all, lemma_lines_hold_no_newline,
    lemma_lines_add, lemma_lines_count_with_newlines, lemma_lines_of_with_newlines,
    lemma_with_newlines_add, line_round_trips, lines, lines_of, no_newline,
    owned, push_char, push_range, push_str, trim, trimmed, views, with_newlines,
};

verus! {

broadcast use vstd::seq_lib::group_to_multiset_ensures;

// ---------------------------------------------------------------------------
// Project directory names
// ---------------------------------------------------------------------------
/// `s` with every `/` replaced by `-`.
pub open spec fn slashes_to_dashes(s: Seq<char>) -> Seq<char> {
    s.map_values(|c: char| if c == '/' { '-' } else { c })
}

/// `s` without its trailing slashes.
pub open spec fn trim_slashes(s: Seq<char>) -> Seq<char>
    decreases s.len(),
{
    if s.len() > 0 && s.last() == '/' {
        trim_slashes(s.drop_last())
    } else {
        s
    }
}

/// The projects directory name of a path: slashes become dashes, and the
/// dashes that trailing slashes would give are dropped, unless the path is a
/// single character. A dash of the path's own, at its end, stays.
pub open spec fn mangled(path: Seq<char>) -> Seq<char> {
    if path.len() > 1 {
        slashes_to_dashes(trim_slashes(path))
    } else {
        slashes_to_dashes(path)
    }
}

proof fn lemma_trim_slashes_at(s: Seq<char>, j: int)
    requires
        0 <= j <= s.len(),
        forall|k: int| j <= k < s.len() ==> #[trigger] s[k] == '/',
        j == 0 || s[j - 1] != '/',
    ensures
        trim_slashes(s) == s.take(j),
    decreases s.len() - j,
{
    if j == s.len() {
        assert(s.take(j) =~= s);
    } else {
        lemma_trim_slashes_at(s.drop_last(), j);
        assert(s.drop_last().take(j) =~= s.take(j));
    }
}

/// Converts a path to its projects directory name: `/` becomes `-`, and for
/// a path longer than one character the trailing slashes are dropped first,
/// so only the dashes they would give are stripped.
pub fn mangle_path(path: &str) -> (res: String)
    ensures
        res@ == mangled(path@),
{
    let cs = chars_of(path);
    let n = cs.len();
    let mut end = n;
    if n > 1 {
        while end > 0 && cs[end - 1] == '/'
            invariant
                end <= n == cs.len(),
                forall|k: int| end <= k < n ==> #[trigger] cs@[k] == '/',
            decreases end,
        {
            end = end - 1;
        }
        proof {
            lemma_trim_slashes_at(cs@, end as int);
        }
    }
    let mut name: Vec<char> = Vec::new();
    let mut i: usize = 0;
    while i < end
        invariant
            end <= n == cs.len(),
            i <= end,
            name@ == slashes_to_dashes(cs@.take(end as int)).take(i as int),
        decreases end - i,
    {
        let c = cs[i];
        name.push(if c == '/' { '-' } else { c });
        i = i + 1;
        assert(name@ =~= slashes_to_dashes(cs@.take(end as int)).take(i as int));
    }
    let mut res = String::new();
    push_range(&mut res, &name, 0, end);
    assert(cs@ == path@);
    assert(res@ =~= mangled(path@));
    res
}

/// The name of the agent's projects directory for a working directory, given
/// the directory's canonical path (e.g. `/Users/mike/proj` gives
/// `-Users-mike-proj`).
pub fn projects_dir_name(cwd: &str) -> (res: String)
    ensures
        res@ == mangled(cwd@),
{
    mangle_path(cwd)
}

/// The name of the agent's projects directory for a working directory as
/// given, without making its path canonical first (the name under which
/// older session logs may have been filed).
pub fn projects_dir_name_raw(cwd: &str) -> (res: String)
    ensures
        res@ == mangled(cwd@),
{
    mangle_path(cwd)
}

/// A projects directory name never holds a slash.
pub proof fn mangled_has_no_slash(path: Seq<char>)
    ensures
        forall|i: int| 0 <= i < mangled(path).len() ==> #[trigger] mangled(path)[i] != '/',
{
}

/// A trailing slash does not change the name: `path` and `path/` give the
/// same projects directory name, for every path but the empty one and `/`.
pub proof fn trailing_slash_ignored(path: Seq<char>)
    requires
        path.len() > 1 || (path.len() == 1 && path[0] != '/'),
    ensures
        mangled(path.push('/')) == mangled(path),
{
    let p = path.push('/');
    assert(p.drop_last() =~= path);
    if path.len() == 1 {
        assert(trim_slashes(path) == path);
    }
}

// ---------------------------------------------------------------------------
// JSON values
// ---------------------------------------------------------------------------
/// A JSON value as the session log holds it; numbers keep their text.
#[derive(Debug)]
pub enum JsonValue {
    Null,
    Bool(bool),
    Number(String),
    Str(String),
    Array(Vec<JsonValue>),
    Object(Vec<(String, JsonValue)>),
}

/// What serde_json's `from_str` parses `text` into: `None` when `text` is not
/// one JSON value.
pub uninterp spec fn json_parse(text: Seq<char>) -> Option<JsonValue>;

/// serde_json's dynamically typed value, carried through opaquely.
#[verifier::external_type_specification]
#[verifier::external_body]
pub struct ExSerdeValue(serde_json::Value);

/// Converts a serde_json value into the library's `JsonValue`, variant for
/// variant (number text as serde_json's `Display` writes it).
#[verifier::external_body]
fn json_from_serde(v: serde_json::Value) -> JsonValue {
    match v {
        serde_json::Value::Null => JsonValue::Null,
        serde_json::Value::Bool(b) => JsonValue::Bool(b),
        serde_json::Value::Number(n) => JsonValue::Number(n.to_string()),
        serde_json::Value::String(s) => JsonValue::Str(s),
        serde_json::Value::Array(a) => JsonValue::Array(a.into_iter().map(json_from_serde).collect()),
        serde_json::Value::Object(o) => JsonValue::Object(
            o.into_iter().map(|(k, v)| (k, json_from_serde(v))).collect(),
        ),
    }
}

/// Parses one JSON value (serde_json's `from_str::<Value>`). The contract
/// names the outcome `json_parse(text)`; on failure the error is serde_json's
/// message, of which nothing is stated.
#[verifier::external_body]
pub fn parse_json(text: &str) -> (res: Result<JsonValue, String>)
    ensures
        res is Ok <==> json_parse(text@) is Some,
        res matches Ok(v) ==> json_parse(text@) == Some(v),
{
    match serde_json::from_str::<serde_json::Value>(text) {
        Ok(v) => Ok(json_from_serde(v)),
        Err(e) => Err(e.to_string()),
    }
}

/// The value under `key` in a list of object entries (the first such entry).
pub open spec fn entry_lookup(entries: Seq<(String, JsonValue)>, key: Seq<char>) -> Option<
    JsonValue,
>
    decreases entries.len(),
{
    if entries.len() == 0 {
        None
    } else if entries[0].0@ == key {
        Some(entries[0].1)
    } else {
        entry_lookup(entries.drop_first(), key)
    }
}

/// `v[key]` for an object `v`, `None` for anything else (`Value::get`).
pub open spec fn field(v: JsonValue, key: Seq<char>) -> Option<JsonValue> {
    match v {
        JsonValue::Object(entries) => entry_lookup(entries@, key),
        _ => None,
    }
}

/// The text of a string value (`Value::as_str`).
pub open spec fn str_of(v: Option<JsonValue>) -> Option<Seq<char>> {
    match v {
        Some(JsonValue::Str(s)) => Some(s@),
        _ => None,
    }
}

/// The value under `key`, if there is one.
pub fn get<'a>(v: &'a JsonValue, key: &str) -> (res: Option<&'a JsonValue>)
    ensures
        match res {
            Some(r) => field(*v, key@) == Some(*r),
            None => field(*v, key@) is None,
        },
{
    match v {
        JsonValue::Object(entries) => {
            let k = owned(key);
            let mut i: usize = 0;
            assert(entries@.skip(0) =~= entries@);
            while i < entries.len()
                invariant
                    i <= entries.len(),
                    k@ == key@,
                    field(*v, key@) == entry_lookup(entries@.skip(i as int), key@),
                decreases entries.len() - i,
            {
                let ghost rest = entries@.skip(i as int);
                assert(rest[0] == entries@[i as int]);
                if entries[i].0 == k {
                    return Some(&entries[i].1);
                }
                assert(rest.drop_first() =~= entries@.skip(i + 1));
                i = i + 1;
            }
            None
        },
        _ => None,
    }
}

/// The value a reference points to, if there is one.
pub open spec fn opt_value(v: Option<&JsonValue>) -> Option<JsonValue> {
    match v {
        Some(x) => Some(*x),
        None => None,
    }
}

/// The text of `v` when it is a string.
pub fn as_str(v: Option<&JsonValue>) -> (res: Option<&String>)
    ensures
        match res {
            Some(s) => str_of(opt_value(v)) == Some(s@),
            None => str_of(opt_value(v)) is None,
        },
{
    match v {
        Some(JsonValue::Str(s)) => Some(s),
        _ => None,
    }
}

/// Whether `a` and `b` hold the same text.
pub fn text_eq(a: &str, b: &str) -> (r: bool)
    ensures
        r == (a@ == b@),
{
    owned(a) == owned(b)
}

// ---------------------------------------------------------------------------
// Conversation text
// ---------------------------------------------------------------------------
/// The non-empty trimmed `text` fields of `items`, in order.
pub open spec fn text_parts(items: Seq<JsonValue>) -> Seq<Seq<char>>
    decreases items.len(),
{
    if items.len() == 0 {
        Seq::empty()
    } else {
        let rest = text_parts(items.drop_last());
        match str_of(field(items.last(), "text"@)) {
            Some(t) => if trim(t).len() > 0 {
                rest.push(trim(t))
            } else {
                rest
            },
            None => rest,
        }
    }
}

/// The text of a message: its `content` trimmed when that is a string, the
/// non-empty trimmed `text` parts joined by newlines when it is an array,
/// and nothing otherwise.
pub open spec fn text_content(msg: JsonValue) -> Seq<char> {
    match field(msg, "content"@) {
        Some(JsonValue::Str(s)) => trim(s@),
        Some(JsonValue::Array(items)) => join(text_parts(items@), "\n"@),
        _ => Seq::empty(),
    }
}

/// The pieces an assistant content item contributes: its trimmed text for a
/// non-empty `text` block, `[tool: name]` for a `tool_use` block.
pub open spec fn block_parts(item: JsonValue) -> Seq<Seq<char>> {
    let ty = str_of(field(item, "type"@));
    let text_part: Seq<Seq<char>> = if ty == Some("text"@) {
        match str_of(field(item, "text"@)) {
            Some(t) => if trim(t).len() > 0 {
                seq![trim(t)]
            } else {
                Seq::empty()
            },
            None => Seq::empty(),
        }
    } else {
        Seq::empty()
    };
    let tool_part: Seq<Seq<char>> = if ty == Some("tool_use"@) {
        match str_of(field(item, "name"@)) {
            Some(name) => seq!["[tool: "@ + name + "]"@],
            None => Seq::empty(),
        }
    } else {
        Seq::empty()
    };
    text_part + tool_part
}

/// The pieces of all assistant content items, in order.
pub open spec fn blocks_parts(items: Seq<JsonValue>) -> Seq<Seq<char>>
    decreases items.len(),
{
    if items.len() == 0 {
        Seq::empty()
    } else {
        blocks_parts(items.drop_last()) + block_parts(items.last())
    }
}

/// The text of an assistant message: its text blocks and tool calls joined by
/// newlines, or nothing when its content is not an array.
pub open spec fn assistant_text(msg: JsonValue) -> Seq<char> {
    match field(msg, "content"@) {
        Some(JsonValue::Array(items)) => join(blocks_parts(items@), "\n"@),
        _ => Seq::empty(),
    }
}

/// Extracts the text content of a message (a string, or an array of text blocks).
pub fn extract_text_content(msg: &JsonValue) -> (res: String)
    ensures
        res@ == text_content(*msg),
{
    let content = get(msg, "content");
    match content {
        Some(JsonValue::Str(s)) => trimmed(s.as_str()),
        Some(JsonValue::Array(items)) => {
            let mut parts: Vec<String> = Vec::new();
            let mut i: usize = 0;
            while i < items.len()
                invariant
                    i <= items.len(),
                    views(parts@) == text_parts(items@.take(i as int)),
                decreases items.len() - i,
            {
                let ghost before = parts@;
                let item = &items[i];
                proof {
                    assert(items@.take(i + 1).drop_last() =~= items@.take(i as int));
                    assert(items@.take(i + 1).last() == *item);
                }
                if let Some(text) = as_str(get(item, "text")) {
                    let t = trimmed(text.as_str());
                    if !is_blank(text.as_str()) {
                        parts.push(t);
                        assert(views(parts@) =~= views(before).push(t@));
                    }
                }
                i = i + 1;
            }
            assert(items@.take(items.len() as int) =~= items@);
            join_all(&parts, "\n")
        },
        _ => String::new(),
    }
}

/// Extracts the text blocks and tool calls of an assistant message.
pub fn extract_assistant_blocks(msg: &JsonValue) -> (res: String)
    ensures
        res@ == assistant_text(*msg),
{
    match get(msg, "content") {
        Some(JsonValue::Array(items)) => {
            let mut parts: Vec<String> = Vec::new();
            let mut i: usize = 0;
            while i < items.len()
                invariant
                    i <= items.len(),
                    views(parts@) == blocks_parts(items@.take(i as int)),
                decreases items.len() - i,
            {
                let ghost before = views(parts@);
                let item = &items[i];
                proof {
                    assert(items@.take(i + 1).drop_last() =~= items@.take(i as int));
                    assert(items@.take(i + 1).last() == *item);
                }
                let ty = as_str(get(item, "type"));
                let is_text = match ty {
                    Some(t) => text_eq(t.as_str(), "text"),
                    None => false,
                };
                let is_tool = match ty {
                    Some(t) => text_eq(t.as_str(), "tool_use"),
                    None => false,
                };
                if is_text {
                    if let Some(text) = as_str(get(item, "text")) {
                        let t = trimmed(text.as_str());
                        if !is_blank(text.as_str()) {
                            parts.push(t);
                        }
                    }
                }
                if is_tool {
                    if let Some(name) = as_str(get(item, "name")) {
                        let mut p = String::new();
                        push_str(&mut p, "[tool: ");
                        push_str(&mut p, name.as_str());
                        push_str(&mut p, "]");
                        parts.push(p);
                    }
                }
                proof {
                    let bp = block_parts(*item);
                    assert(views(parts@) =~= before + bp);
                }
                i = i + 1;
            }
            assert(items@.take(items.len() as int) =~= items@);
            join_all(&parts, "\n")
        },
        _ => String::new(),
    }
}

/// What one record of the session log contributes to the conversation:
/// `[ts] USER:` or `[ts] ASSISTANT:` with its text and a blank line, for user
/// and assistant records with non-empty text; nothing for anything else.
/// A record without a string `timestamp` shows `?`.
pub open spec fn record_text(v: JsonValue) -> Seq<char> {
    let ts = match str_of(field(v, "timestamp"@)) {
        Some(t) => t,
        None => "?"@,
    };
    match str_of(field(v, "type"@)) {
        Some(ty) => if ty == "user"@ {
            match field(v, "message"@) {
                Some(msg) => {
                    let text = text_content(msg);
                    if text.len() > 0 {
                        "["@ + ts + "] USER:\n"@ + text + "\n\n"@
                    } else {
                        Seq::empty()
                    }
                },
                None => Seq::empty(),
            }
        } else if ty == "assistant"@ {
            match field(v, "message"@) {
                Some(msg) => {
                    let text = assistant_text(msg);
                    if text.len() > 0 {
                        "["@ + ts + "] ASSISTANT:\n"@ + text + "\n\n"@
                    } else {
                        Seq::empty()
                    }
                },
                None => Seq::empty(),
            }
        } else {
            Seq::empty()
        },
        None => Seq::empty(),
    }
}

/// What a line of the log contributes: nothing when it is not JSON.
pub open spec fn line_text(parsed: Option<JsonValue>) -> Seq<char> {
    match parsed {
        Some(v) => record_text(v),
        None => Seq::empty(),
    }
}

/// The conversation text of the log lines, in order.
pub open spec fn conversation(log_lines: Seq<Seq<char>>) -> Seq<char>
    decreases log_lines.len(),
{
    if log_lines.len() == 0 {
        Seq::empty()
    } else {
        conversation(log_lines.drop_last()) + line_text(json_parse(log_lines.last()))
    }
}

/// A record's part of the conversation is headed by its own timestamp: a
/// user record whose message has text shows `[t] USER:` followed by that
/// text, an assistant record likewise with `ASSISTANT:`, where `t` is the
/// record's `timestamp` string; `?` stands in only when the record has no
/// string timestamp. Any record that shows something is headed so.
pub proof fn record_shows_its_timestamp(v: JsonValue)
    ensures
        ({
            let ts = match str_of(field(v, "timestamp"@)) {
                Some(t) => t,
                None => "?"@,
            };
            &&& record_text(v).len() > 0 ==> ("["@ + ts + "] "@).is_prefix_of(record_text(v))
            &&& match field(v, "message"@) {
                Some(m) => {
                    &&& (str_of(field(v, "type"@)) == Some("user"@) && text_content(m).len() > 0)
                        ==> ("["@ + ts + "] USER:\n"@ + text_content(m)).is_prefix_of(
                        record_text(v),
                    )
                    &&& (str_of(field(v, "type"@)) == Some("assistant"@) && assistant_text(m).len()
                        > 0) ==> ("["@ + ts + "] ASSISTANT:\n"@ + assistant_text(m)).is_prefix_of(
                        record_text(v),
                    )
                },
                None => true,
            }
        }),
{
    reveal_strlit("user");
    reveal_strlit("assistant");
    reveal_strlit("] ");
    reveal_strlit("] USER:\n");
    reveal_strlit("] ASSISTANT:\n");
    let ts = match str_of(field(v, "timestamp"@)) {
        Some(t) => t,
        None => "?"@,
    };
    let r = record_text(v);
    if r.len() > 0 {
        let p = "["@ + ts + "] "@;
        assert(p.len() <= r.len());
        assert(r.subrange(0, p.len() as int) =~= p);
    }
    if let Some(m) = field(v, "message"@) {
        if str_of(field(v, "type"@)) == Some("user"@) && text_content(m).len() > 0 {
            let p = "["@ + ts + "] USER:\n"@ + text_content(m);
            assert(r.subrange(0, p.len() as int) =~= p);
        }
        if str_of(field(v, "type"@)) == Some("assistant"@) && assistant_text(m).len() > 0 {
            assert("user"@.len() != "assistant"@.len());
            assert(r == "["@ + ts + "] ASSISTANT:\n"@ + assistant_text(m) + "\n\n"@);
            let p = "["@ + ts + "] ASSISTANT:\n"@ + assistant_text(m);
            assert(r.subrange(0, p.len() as int) =~= p);
        }
    }
}

/// Every line of the log is read, in order: the conversation of two runs of
/// lines is the conversation of the first followed by that of the second,
/// and one line contributes what its record shows (nothing when it is not
/// JSON).
pub proof fn conversation_reads_every_line(a: Seq<Seq<char>>, b: Seq<Seq<char>>)
    ensures
        conversation(a + b) == conversation(a) + conversation(b),
        forall|l: Seq<char>| #[trigger] conversation(seq![l]) == line_text(json_parse(l)),
    decreases b.len(),
{
    assert forall|l: Seq<char>| #[trigger] conversation(seq![l]) == line_text(json_parse(l)) by {
        assert(seq![l].drop_last() =~= Seq::<Seq<char>>::empty());
        assert(conversation(Seq::<Seq<char>>::empty()) =~= Seq::<char>::empty());
        assert(conversation(seq![l]) =~= line_text(json_parse(l)));
    }
    if b.len() == 0 {
        assert(a + b =~= a);
        assert(conversation(a) + conversation(b) =~= conversation(a));
    } else {
        assert((a + b).drop_last() =~= a + b.drop_last());
        conversation_reads_every_line(a, b.drop_last());
        assert(conversation(a + b) =~= conversation(a) + conversation(b));
    }
}

/// The conversation text one parsed record contributes.
pub fn record_conversation(v: &JsonValue) -> (res: String)
    ensures
        res@ == record_text(*v),
{
    proof {
        reveal_strlit("user");
        reveal_strlit("assistant");
    }
    let mut out = String::new();
    let ts_val = as_str(get(v, "timestamp"));
    let ty = as_str(get(v, "type"));
    match ty {
        Some(ty) => {
            let is_user = text_eq(ty.as_str(), "user");
            let is_assistant = text_eq(ty.as_str(), "assistant");
            if is_user || is_assistant {
                if let Some(msg) = get(v, "message") {
                    let text = if is_user {
                        extract_text_content(msg)
                    } else {
                        extract_assistant_blocks(msg)
                    };
                    if !text.as_str().is_empty() {
                        push_str(&mut out, "[");
                        match ts_val {
                            Some(t) => push_str(&mut out, t.as_str()),
                            None => push_str(&mut out, "?"),
                        }
                        if is_user {
                            push_str(&mut out, "] USER:\n");
                        } else {
                            push_str(&mut out, "] ASSISTANT:\n");
                        }
                        push_str(&mut out, text.as_str());
                        push_str(&mut out, "\n\n");
                        assert(out@ =~= record_text(*v));
                    } else {
                        assert(out@ =~= record_text(*v));
                    }
                } else {
                    assert(out@ =~= record_text(*v));
                }
            } else {
                assert(out@ =~= record_text(*v));
            }
        },
        None => {},
    }
    assert(out@ =~= record_text(*v));
    out
}

/// Extracts the human-readable conversation from the text of a session log
/// (one JSON record per line): user messages, assistant text and tool calls.
pub fn extract_conversation(content: &str) -> (res: String)
    ensures
        res@ == conversation(lines(content@)),
{
    let all = lines_of(content);
    let mut out = String::new();
    let mut i: usize = 0;
    while i < all.len()
        invariant
            i <= all.len(),
            views(all@) == lines(content@),
            out@ == conversation(views(all@).take(i as int)),
        decreases all.len() - i,
    {
        let ghost before = out@;
        proof {
            let t = views(all@).take(i + 1);
            assert(t.drop_last() =~= views(all@).take(i as int));
            assert(t.last() == all@[i as int]@);
        }
        match parse_json(all[i].as_str()) {
            Ok(v) => {
                let piece = record_conversation(&v);
                push_str(&mut out, piece.as_str());
            },
            Err(_) => {},
        }
        assert(out@ =~= before + line_text(json_parse(all@[i as int]@)));
        i = i + 1;
    }
    assert(views(all@).take(all.len() as int) =~= views(all@));
    out
}

// ---------------------------------------------------------------------------
// Snapshots
// ---------------------------------------------------------------------------
/// A parsed record of a session log.
pub struct SessionRecord {
    pub record_type: String,
    pub timestamp: Option<String>,
    pub content: String,
}

/// Line counts of two snapshots of one session.
pub struct DiffResult {
    pub old_lines: usize,
    pub new_lines: usize,
    pub added: usize,
}

/// Compares two snapshots of one session by their line counts: `added` is how
/// many more lines the newer one has (zero when it has fewer).
pub fn diff_snapshots(older: &str, newer: &str) -> (res: DiffResult)
    ensures
        res.old_lines == lines(older@).len(),
        res.new_lines == lines(newer@).len(),
        res.added == if res.new_lines > res.old_lines {
            res.new_lines - res.old_lines
        } else {
            0
        },
{
    let old_count = lines_of(older).len();
    let new_count = lines_of(newer).len();
    DiffResult {
        old_lines: old_count,
        new_lines: new_count,
        added: new_count.saturating_sub(old_count),
    }
}

/// The text of the source's lines after the first `existing`, each with its
/// newline; nothing when the snapshot has as many lines already.
pub open spec fn missing_lines(source: Seq<char>, existing: nat) -> Seq<char> {
    if existing < lines(source).len() {
        with_newlines(lines(source).skip(existing as int))
    } else {
        Seq::empty()
    }
}

/// What a snapshot that already has `existing` lines still lacks of the
/// source log: how many lines, and their text, each with its newline.
pub fn lines_to_append(source: &str, existing: usize) -> (res: (usize, String))
    ensures
        res.0 == if lines(source@).len() > existing {
            lines(source@).len() - existing
        } else {
            0
        },
        res.1@ == missing_lines(source@, existing as nat),
{
    let all = lines_of(source);
    let count = all.len().saturating_sub(existing);
    let mut out = String::new();
    if existing >= all.len() {
        return (count, out);
    }
    let mut i: usize = existing;
    while i < all.len()
        invariant
            existing <= i <= all.len(),
            views(all@) == lines(source@),
            out@ == with_newlines(views(all@).subrange(existing as int, i as int)),
        decreases all.len() - i,
    {
        let ghost before = out@;
        push_str(&mut out, all[i].as_str());
        push_str(&mut out, "\n");
        proof {
            let t = views(all@).subrange(existing as int, i + 1);
            assert(t.drop_last() =~= views(all@).subrange(existing as int, i as int));
            assert(t.last() == all@[i as int]@);
        }
        i = i + 1;
    }
    assert(views(all@).subrange(existing as int, all.len() as int) =~= lines(source@).skip(
        existing as int,
    ));
    (count, out)
}

/// A snapshot catches up with its source: when the snapshot holds the first
/// `n` lines of the source log, each with its newline, its line count is `n`,
/// appending the lines still missing gives every line of the source, and
/// counting again finds all of them, so nothing more is missing. (A source
/// line ending in `\r` does not read back unchanged, so such sources are left
/// out.)
pub proof fn snapshot_catches_up(source: Seq<char>, n: nat)
    requires
        n <= lines(source).len(),
        forall|i: int| 0 <= i < lines(source).len() ==> !(#[trigger] lines(source)[i].len() > 0
            && lines(source)[i].last() == '\r'),
    ensures
        lines(with_newlines(lines(source).take(n as int))).len() == n,
        with_newlines(lines(source).take(n as int)) + missing_lines(source, n) == with_newlines(
            lines(source),
        ),
        lines(with_newlines(lines(source))).len() == lines(source).len(),
{
    let ls = lines(source);
    lemma_lines_hold_no_newline(source);
    assert forall|i: int| 0 <= i < ls.len() implies line_round_trips(#[trigger] ls[i]) by {
        assert forall|j: int| 0 <= j < ls[i].len() implies #[trigger] ls[i][j] != '\n' by {
            assert(lines(source)[i][j] != '\n');
        }
    }
    let head = ls.take(n as int);
    let tail = ls.skip(n as int);
    assert forall|i: int| 0 <= i < head.len() implies line_round_trips(#[trigger] head[i]) by {
        assert(head[i] == ls[i]);
    }
    lemma_lines_of_with_newlines(head);
    lemma_lines_of_with_newlines(ls);
    assert(ls =~= head + tail);
    lemma_with_newlines_add(head, tail);
    if n == ls.len() {
        assert(tail =~= Seq::<Seq<char>>::empty());
        assert(with_newlines(head) + missing_lines(source, n) =~= with_newlines(ls));
    }
}

/// Appending the missing lines twice appends nothing the second time: once a
/// snapshot that was empty or ended with a newline has the lines it lacked
/// appended, counting its lines finds at least as many as the source has, so
/// nothing is missing any more (no line, no text). This holds for every
/// source, whatever its line endings.
pub proof fn second_append_adds_nothing(source: Seq<char>, snapshot: Seq<char>)
    requires
        snapshot.len() == 0 || snapshot.last() == '\n',
    ensures
        lines(snapshot + missing_lines(source, lines(snapshot).len())).len() >= lines(
            source,
        ).len(),
        missing_lines(source, lines(snapshot + missing_lines(source, lines(snapshot).len())).len())
            == Seq::<char>::empty(),
{
    let ls = lines(source);
    let e = lines(snapshot).len();
    let m = missing_lines(source, e);
    lemma_lines_add(snapshot, m);
    if e < ls.len() {
        lemma_lines_hold_no_newline(source);
        let tail = ls.skip(e as int);
        assert forall|i: int| 0 <= i < tail.len() implies no_newline(#[trigger] tail[i]) by {
            assert forall|j: int| 0 <= j < tail[i].len() implies #[trigger] tail[i][j] != '\n' by {
                assert(tail[i] == ls[e + i]);
                assert(lines(source)[e + i][j] != '\n');
            }
        }
        lemma_lines_count_with_newlines(tail);
    } else {
        assert(lines(m) =~= Seq::<Seq<char>>::empty());
    }
}

// ---------------------------------------------------------------------------
// File names
// ---------------------------------------------------------------------------
/// Index of the last `.` in `s`, if any.
pub open spec fn last_dot(s: Seq<char>) -> Option<int>
    decreases s.len(),
{
    if s.len() == 0 {
        None
    } else if s.last() == '.' {
        Some(s.len() - 1)
    } else {
        last_dot(s.drop_last())
    }
}

/// The extension of a file name: the text after its last dot, unless that
/// dot starts the name (as `Path::extension` reads it, but for the name `..`,
/// which has none there and an empty one here).
pub open spec fn extension(name: Seq<char>) -> Option<Seq<char>> {
    match last_dot(name) {
        Some(i) => if i > 0 {
            Some(name.skip(i + 1))
        } else {
            None
        },
        None => None,
    }
}

proof fn lemma_last_dot_at(s: Seq<char>, j: int)
    requires
        0 <= j <= s.len(),
        forall|k: int| j <= k < s.len() ==> #[trigger] s[k] != '.',
        j > 0 ==> s[j - 1] == '.',
    ensures
        last_dot(s) == if j > 0 {
            Some(j - 1)
        } else {
            None::<int>
        },
    decreases s.len() - j,
{
    if j < s.len() {
        lemma_last_dot_at(s.drop_last(), j);
    }
}

/// Whether a file name has the extension `ext`.
pub fn has_extension(name: &str, ext: &str) -> (r: bool)
    ensures
        r == (extension(name@) == Some(ext@)),
{
    let cs = chars_of(name);
    let mut j = cs.len();
    while j > 0 && cs[j - 1] != '.'
        invariant
            j <= cs.len(),
            cs@ == name@,
            forall|k: int| j <= k < cs.len() ==> #[trigger] cs@[k] != '.',
        decreases j,
    {
        j = j - 1;
    }
    proof {
        lemma_last_dot_at(cs@, j as int);
    }
    if j <= 1 {
        return false;
    }
    let mut tail = String::new();
    push_range(&mut tail, &cs, j, cs.len());
    assert(tail@ =~= name@.skip(j as int));
    text_eq(tail.as_str(), ext)
}

/// Whether a file name is a session log (`*.jsonl`).
pub fn is_session_log(name: &str) -> (r: bool)
    ensures
        r == (extension(name@) == Some("jsonl"@)),
{
    has_extension(name, "jsonl")
}

/// Whether a file name is an older saved transcript (`*-transcript.txt`).
pub fn is_legacy_transcript(name: &str) -> (r: bool)
    ensures
        r == "-transcript.txt"@.is_suffix_of(name@),
{
    ends_with(name, "-transcript.txt")
}


/// A directory entry (modification time, name) that is a session snapshot.
pub open spec fn is_snapshot_entry(e: (u128, String)) -> bool {
    extension(e.1@) == Some("jsonl"@)
}

/// Orders session logs among directory entries (modification time, name):
/// only `*.jsonl` files, oldest first; logs with the same time keep the
/// order in which they were listed.
pub fn order_session_files(entries: Vec<(u128, String)>) -> (res: Vec<(u128, String)>)
    ensures
        res@.to_multiset() == entries@.filter(|e: (u128, String)| is_snapshot_entry(e)).to_multiset(),
        keys_ascending(res@),
        forall|k: u128| #[trigger] with_key(res@, k) == with_key(
            entries@.filter(|e: (u128, String)| is_snapshot_entry(e)),
            k,
        ),
{
    let mut logs: Vec<(u128, String)> = Vec::new();
    let mut rest = entries;
    let ghost given = rest@;
    let ghost pred = |e: (u128, String)| is_snapshot_entry(e);
    let mut i: usize = 0;
    assert(given.len() == rest.len());
    assert(given.take(0).filter(pred) =~= Seq::<(u128, String)>::empty());
    while rest.len() > 0
        invariant
            given.len() <= usize::MAX,
            i + rest.len() == given.len(),
            rest@ == given.skip(i as int),
            logs@ == given.take(i as int).filter(pred),
            pred == (|e: (u128, String)| is_snapshot_entry(e)),
        decreases rest.len(),
    {
        let e = rest.remove(0);
        proof {
            assert(e == given[i as int]);
            assert(rest@ =~= given.skip(i + 1));
            assert(given.take(i + 1).drop_last() =~= given.take(i as int));
            reveal_with_fuel(Seq::filter, 1);
        }
        if is_session_log(e.1.as_str()) {
            logs.push(e);
        }
        i = i + 1;
    }
    assert(given.take(i as int) =~= given);
    sort_by_key(logs)
}

} // verus!
