//! Character-level text handling: building strings, splitting lines,
//! trimming whitespace, joining and decimal numbers.
use vstd::prelude::*;

verus! {

/// Appends one character to a string (`String::push`).
#[verifier::external_body]
pub(crate) fn push_char(s: &mut String, c: char)
    ensures
        final(s)@ == old(s)@.push(c),
{
    s.push(c);
}

/// Appends a string slice to a string.
pub(crate) fn push_str(s: &mut String, t: &str)
    ensures
        final(s)@ == old(s)@ + t@,
{
    s.append(t);
}

/// The characters of a string slice, in order.
pub fn chars_of(s: &str) -> (res: Vec<char>)
    ensures
        res@ == s@,
{
    let mut res: Vec<char> = Vec::new();
    for c in it: s.chars()
        invariant
            res@ == it.seq().take(it.index() as int),
    {
        res.push(c);
    }
    res
}

/// Appends the characters `cs[from..to]` to `out`.
pub fn push_range(out: &mut String, cs: &Vec<char>, from: usize, to: usize)
    requires
        from <= to <= cs.len(),
    ensures
        final(out)@ == old(out)@ + cs@.subrange(from as int, to as int),
{
    let mut i = from;
    while i < to
        invariant
            from <= i <= to <= cs.len(),
            out@ == old(out)@ + cs@.subrange(from as int, i as int),
        decreases to - i,
    {
        push_char(out, cs[i]);
        i = i + 1;
        assert(cs@.subrange(from as int, i as int) =~= cs@.subrange(from as int, i - 1).push(
            cs@[i - 1],
        ));
    }
}

/// A new string holding the characters `cs[from..to]`.
pub fn string_of_range(cs: &Vec<char>, from: usize, to: usize) -> (res: String)
    requires
        from <= to <= cs.len(),
    ensures
        res@ == cs@.subrange(from as int, to as int),
{
    let mut res = String::new();
    push_range(&mut res, cs, from, to);
    assert(res@ =~= cs@.subrange(from as int, to as int));
    res
}

/// A copy of a string slice as an owned string.
pub fn owned(s: &str) -> (res: String)
    ensures
        res@ == s@,
{
    let mut res = String::new();
    push_str(&mut res, s);
    assert(res@ =~= s@);
    res
}

// ---------------------------------------------------------------------------
// Whitespace and trimming
// ---------------------------------------------------------------------------
/// A character with the Unicode `White_Space` property.
pub open spec fn is_ws(c: char) -> bool {
    let u = c as u32;
    ||| 0x09 <= u <= 0x0D
    ||| u == 0x20
    ||| u == 0x85
    ||| u == 0xA0
    ||| u == 0x1680
    ||| 0x2000 <= u <= 0x200A
    ||| u == 0x2028
    ||| u == 0x2029
    ||| u == 0x202F
    ||| u == 0x205F
    ||| u == 0x3000
}

/// Whether `c` is Unicode whitespace.
pub fn is_whitespace(c: char) -> (r: bool)
    ensures
        r == is_ws(c),
{
    let u = c as u32;
    (0x09 <= u && u <= 0x0D) || u == 0x20 || u == 0x85 || u == 0xA0 || u == 0x1680 || (0x2000
        <= u && u <= 0x200A) || u == 0x2028 || u == 0x2029 || u == 0x202F || u == 0x205F || u
        == 0x3000
}

/// `s` without its leading whitespace.
pub open spec fn trim_start(s: Seq<char>) -> Seq<char>
    decreases s.len(),
{
    if s.len() > 0 && is_ws(s[0]) {
        trim_start(s.drop_first())
    } else {
        s
    }
}

/// `s` without its trailing whitespace.
pub open spec fn trim_end(s: Seq<char>) -> Seq<char>
    decreases s.len(),
{
    if s.len() > 0 && is_ws(s.last()) {
        trim_end(s.drop_last())
    } else {
        s
    }
}

/// `s` without leading and trailing whitespace, as `str::trim` gives it.
pub open spec fn trim(s: Seq<char>) -> Seq<char> {
    trim_end(trim_start(s))
}

proof fn lemma_trim_start_at(s: Seq<char>, i: int)
    requires
        0 <= i <= s.len(),
        forall|k: int| 0 <= k < i ==> is_ws(#[trigger] s[k]),
        i == s.len() || !is_ws(s[i]),
    ensures
        trim_start(s) == s.skip(i),
    decreases i,
{
    if i == 0 {
        assert(s.skip(0) =~= s);
    } else {
        lemma_trim_start_at(s.drop_first(), i - 1);
        assert(s.drop_first().skip(i - 1) =~= s.skip(i));
    }
}

proof fn lemma_trim_end_at(s: Seq<char>, j: int)
    requires
        0 <= j <= s.len(),
        forall|k: int| j <= k < s.len() ==> is_ws(#[trigger] s[k]),
        j == 0 || !is_ws(s[j - 1]),
    ensures
        trim_end(s) == s.take(j),
    decreases s.len() - j,
{
    if j == s.len() {
        assert(s.take(j) =~= s);
    } else {
        lemma_trim_end_at(s.drop_last(), j);
        assert(s.drop_last().take(j) =~= s.take(j));
    }
}

/// The bounds `(start, end)` of `cs` with surrounding whitespace removed.
pub fn trim_bounds(cs: &Vec<char>) -> (r: (usize, usize))
    ensures
        r.0 <= r.1 <= cs.len(),
        cs@.subrange(r.0 as int, r.1 as int) == trim(cs@),
{
    let n = cs.len();
    let mut i: usize = 0;
    while i < n && is_whitespace(cs[i])
        invariant
            i <= n == cs.len(),
            forall|k: int| 0 <= k < i ==> is_ws(#[trigger] cs@[k]),
        decreases n - i,
    {
        i = i + 1;
    }
    proof {
        lemma_trim_start_at(cs@, i as int);
    }
    let mut j: usize = n;
    while j > i && is_whitespace(cs[j - 1])
        invariant
            i <= j <= n == cs.len(),
            forall|k: int| j <= k < n ==> is_ws(#[trigger] cs@[k]),
        decreases j,
    {
        j = j - 1;
    }
    proof {
        let t = cs@.skip(i as int);
        assert forall|k: int| j - i <= k < t.len() implies is_ws(#[trigger] t[k]) by {
            assert(t[k] == cs@[k + i]);
        }
        if j > i {
            assert(t[j - i - 1] == cs@[j - 1]);
        }
        lemma_trim_end_at(t, j - i);
        assert(t.take(j - i) =~= cs@.subrange(i as int, j as int));
    }
    (i, j)
}

/// `s` with surrounding whitespace removed (`str::trim`).
pub fn trimmed(s: &str) -> (res: String)
    ensures
        res@ == trim(s@),
{
    let cs = chars_of(s);
    let (a, b) = trim_bounds(&cs);
    string_of_range(&cs, a, b)
}

/// Whether `s` consists of whitespace only (`s.trim().is_empty()`).
pub fn is_blank(s: &str) -> (r: bool)
    ensures
        r == (trim(s@).len() == 0),
{
    let cs = chars_of(s);
    let (a, b) = trim_bounds(&cs);
    a == b
}

// ---------------------------------------------------------------------------
// Lines
// ---------------------------------------------------------------------------
/// Index of the first newline in `s`, or `s.len()` when there is none.
pub open spec fn first_newline(s: Seq<char>) -> nat
    decreases s.len(),
{
    if s.len() == 0 {
        0
    } else if s[0] == '\n' {
        0
    } else {
        1 + first_newline(s.drop_first())
    }
}

/// `s` without one trailing carriage return.
pub open spec fn strip_cr(s: Seq<char>) -> Seq<char> {
    if s.len() > 0 && s.last() == '\r' {
        s.drop_last()
    } else {
        s
    }
}

/// The lines of `s` as `str::lines` yields them: split after each `\n`, the
/// `\n` (and a `\r` before it) removed, and no empty line after a final `\n`.
pub open spec fn lines(s: Seq<char>) -> Seq<Seq<char>>
    decreases s.len(),
{
    if s.len() == 0 {
        Seq::empty()
    } else {
        let k = first_newline(s);
        if k < s.len() {
            seq![strip_cr(s.take(k as int))] + lines(s.skip(k + 1 as int))
        } else {
            seq![s]
        }
    }
}

proof fn lemma_first_newline_at(s: Seq<char>, k: int)
    requires
        0 <= k <= s.len(),
        forall|j: int| 0 <= j < k ==> #[trigger] s[j] != '\n',
        k == s.len() || s[k] == '\n',
    ensures
        first_newline(s) == k,
    decreases k,
{
    if k > 0 {
        lemma_first_newline_at(s.drop_first(), k - 1);
    }
}

/// The views of a vector of strings.
pub open spec fn views(v: Seq<String>) -> Seq<Seq<char>> {
    v.map_values(|x: String| x@)
}

/// The lines of `s` (`str::lines`).
pub fn lines_of(s: &str) -> (res: Vec<String>)
    ensures
        views(res@) == lines(s@),
{
    let cs = chars_of(s);
    let n = cs.len();
    let mut out: Vec<String> = Vec::new();
    let mut start: usize = 0;
    let mut i: usize = 0;
    assert(cs@.skip(0) =~= cs@);
    assert(views(out@) =~= Seq::<Seq<char>>::empty());
    while i < n
        invariant
            n == cs.len(),
            start <= i <= n,
            forall|j: int| start <= j < i ==> #[trigger] cs@[j] != '\n',
            lines(cs@) == views(out@) + lines(cs@.skip(start as int)),
        decreases n - i,
    {
        if cs[i] == '\n' {
            let ghost t = cs@.skip(start as int);
            proof {
                assert forall|j: int| 0 <= j < i - start implies #[trigger] t[j] != '\n' by {
                    assert(t[j] == cs@[start + j]);
                }
                lemma_first_newline_at(t, i - start);
                assert(t.skip(i - start + 1) =~= cs@.skip(i + 1));
            }
            let end = if i > start && cs[i - 1] == '\r' {
                i - 1
            } else {
                i
            };
            let line = string_of_range(&cs, start, end);
            proof {
                assert(t.take(i - start) =~= cs@.subrange(start as int, i as int));
                assert(line@ =~= strip_cr(t.take(i - start)));
            }
            let ghost prev = out@;
            out.push(line);
            proof {
                assert(views(out@) =~= views(prev).push(line@));
            }
            start = i + 1;
            i = i + 1;
        } else {
            i = i + 1;
        }
    }
    let ghost t = cs@.skip(start as int);
    if start < n {
        let line = string_of_range(&cs, start, n);
        proof {
            assert forall|j: int| 0 <= j < n - start implies #[trigger] t[j] != '\n' by {
                assert(t[j] == cs@[start + j]);
            }
            lemma_first_newline_at(t, n - start);
            assert(line@ =~= t);
        }
        let ghost prev = out@;
        out.push(line);
        proof {
            assert(views(out@) =~= views(prev).push(line@));
        }
    } else {
        assert(t.len() == 0);
    }
    assert(views(out@) =~= lines(cs@));
    out
}

/// The first line of `s`, if it has one (`s.lines().next()`).
pub fn first_line(s: &str) -> (res: Option<String>)
    ensures
        lines(s@).len() == 0 ==> res is None,
        lines(s@).len() > 0 ==> (res matches Some(l) && l@ == lines(s@)[0]),
{
    let mut all = lines_of(s);
    if all.len() == 0 {
        None
    } else {
        proof {
            assert(views(all@)[0] == all@[0]@);
        }
        Some(all.swap_remove(0))
    }
}

// ---------------------------------------------------------------------------
// Joining
// ---------------------------------------------------------------------------
/// The parts joined with `sep` between each two neighbours (`[T]::join`).
pub open spec fn join(parts: Seq<Seq<char>>, sep: Seq<char>) -> Seq<char>
    decreases parts.len(),
{
    if parts.len() == 0 {
        Seq::empty()
    } else if parts.len() == 1 {
        parts[0]
    } else {
        join(parts.take(parts.len() - 1), sep) + sep + parts[parts.len() - 1]
    }
}

/// The first `k` strings of `parts` joined with `sep`.
pub fn join_prefix(parts: &Vec<String>, k: usize, sep: &str) -> (res: String)
    requires
        k <= parts.len(),
    ensures
        res@ == join(views(parts@).take(k as int), sep@),
{
    let mut res = String::new();
    let mut i: usize = 0;
    while i < k
        invariant
            i <= k <= parts.len(),
            res@ == join(views(parts@).take(i as int), sep@),
        decreases k - i,
    {
        let ghost before = res@;
        if i > 0 {
            push_str(&mut res, sep);
        }
        push_str(&mut res, parts[i].as_str());
        proof {
            let t = views(parts@).take(i + 1);
            assert(t.take(i as int) =~= views(parts@).take(i as int));
            assert(t[i as int] == parts@[i as int]@);
            if i == 0 {
                assert(res@ =~= t[0]);
            } else {
                assert(res@ =~= before + sep@ + t[i as int]);
            }
        }
        i = i + 1;
    }
    res
}

/// All of `parts` joined with `sep` (`parts.join(sep)`).
pub fn join_all(parts: &Vec<String>, sep: &str) -> (res: String)
    ensures
        res@ == join(views(parts@), sep@),
{
    let res = join_prefix(parts, parts.len(), sep);
    assert(views(parts@).take(parts.len() as int) =~= views(parts@));
    res
}

/// The lines joined, each followed by a newline.
pub open spec fn with_newlines(ls: Seq<Seq<char>>) -> Seq<char>
    decreases ls.len(),
{
    if ls.len() == 0 {
        Seq::empty()
    } else {
        with_newlines(ls.drop_last()) + ls.last() + "\n"@
    }
}

/// The lines of `parts`, each followed by a newline (`format!("{p}\n")` collected).
pub fn lines_with_newlines(parts: &Vec<String>) -> (res: String)
    ensures
        res@ == with_newlines(views(parts@)),
{
    let mut res = String::new();
    let mut i: usize = 0;
    while i < parts.len()
        invariant
            i <= parts.len(),
            res@ == with_newlines(views(parts@).take(i as int)),
        decreases parts.len() - i,
    {
        let ghost before = res@;
        push_str(&mut res, parts[i].as_str());
        push_str(&mut res, "\n");
        proof {
            let t = views(parts@).take(i + 1);
            assert(t.drop_last() =~= views(parts@).take(i as int));
            assert(t.last() == parts@[i as int]@);
        }
        i = i + 1;
    }
    assert(views(parts@).take(parts.len() as int) =~= views(parts@));
    res
}

/// Whether `l` holds no `\n`.
pub open spec fn no_newline(l: Seq<char>) -> bool {
    forall|j: int| 0 <= j < l.len() ==> #[trigger] l[j] != '\n'
}

/// Whether a line can be written with a newline and read back unchanged: it
/// holds no `\n` and does not end with `\r`.
pub open spec fn line_round_trips(l: Seq<char>) -> bool {
    &&& no_newline(l)
    &&& !(l.len() > 0 && l.last() == '\r')
}

proof fn lemma_first_newline_props(s: Seq<char>)
    ensures
        first_newline(s) <= s.len(),
        forall|j: int| 0 <= j < first_newline(s) ==> #[trigger] s[j] != '\n',
        first_newline(s) < s.len() ==> s[first_newline(s) as int] == '\n',
    decreases s.len(),
{
    if s.len() > 0 && s[0] != '\n' {
        let t = s.drop_first();
        lemma_first_newline_props(t);
        assert forall|j: int| 0 <= j < first_newline(s) implies #[trigger] s[j] != '\n' by {
            if j > 0 {
                assert(s[j] == t[j - 1]);
            }
        }
    }
}

/// No line of `lines(s)` holds a newline.
pub proof fn lemma_lines_hold_no_newline(s: Seq<char>)
    ensures
        forall|i: int, j: int|
            0 <= i < lines(s).len() && 0 <= j < lines(s)[i].len() ==> #[trigger] lines(s)[i][j]
                != '\n',
    decreases s.len(),
{
    if s.len() > 0 {
        let k = first_newline(s);
        lemma_first_newline_props(s);
        if k < s.len() {
            let rest = s.skip(k + 1 as int);
            lemma_lines_hold_no_newline(rest);
            let head = strip_cr(s.take(k as int));
            assert forall|i: int, j: int|
                0 <= i < lines(s).len() && 0 <= j < lines(s)[i].len() implies #[trigger] lines(
                s,
            )[i][j] != '\n' by {
                if i == 0 {
                    assert(lines(s)[0] == head);
                    assert(head[j] == s[j]);
                } else {
                    assert(lines(s)[i] == lines(rest)[i - 1]);
                }
            }
        }
    }
}

/// Writing lines one after another: `with_newlines` of a concatenation is the
/// concatenation of `with_newlines`.
pub proof fn lemma_with_newlines_add(a: Seq<Seq<char>>, b: Seq<Seq<char>>)
    ensures
        with_newlines(a + b) == with_newlines(a) + with_newlines(b),
    decreases b.len(),
{
    if b.len() == 0 {
        assert(a + b =~= a);
        assert(with_newlines(a) + with_newlines(b) =~= with_newlines(a));
    } else {
        assert((a + b).drop_last() =~= a + b.drop_last());
        lemma_with_newlines_add(a, b.drop_last());
        assert(with_newlines(a + b) =~= with_newlines(a) + with_newlines(b));
    }
}

proof fn lemma_lines_after_line(l: Seq<char>, rest: Seq<char>)
    requires
        no_newline(l),
    ensures
        lines(l + "\n"@ + rest) == seq![strip_cr(l)] + lines(rest),
{
    reveal_strlit("\n");
    let s = l + "\n"@ + rest;
    lemma_first_newline_at(s, l.len() as int);
    assert(s.take(l.len() as int) =~= l);
    assert(s.skip(l.len() + 1 as int) =~= rest);
}

/// `with_newlines` of a non-empty list: its first line, a newline, then the
/// rest.
proof fn lemma_with_newlines_first(ls: Seq<Seq<char>>)
    requires
        ls.len() > 0,
    ensures
        with_newlines(ls) == ls[0] + "\n"@ + with_newlines(ls.drop_first()),
{
    let head = seq![ls[0]];
    let tail = ls.drop_first();
    assert(ls =~= head + tail);
    lemma_with_newlines_add(head, tail);
    assert(head.drop_last() =~= Seq::<Seq<char>>::empty());
    assert(with_newlines(head.drop_last()) =~= Seq::<char>::empty());
    assert(head.last() == ls[0]);
    assert(with_newlines(head) =~= ls[0] + "\n"@);
    assert(with_newlines(ls) =~= ls[0] + "\n"@ + with_newlines(tail));
}

/// Lines written with `with_newlines` are read back as as many lines, when
/// none of them holds a newline.
pub proof fn lemma_lines_count_with_newlines(ls: Seq<Seq<char>>)
    requires
        forall|i: int| 0 <= i < ls.len() ==> no_newline(#[trigger] ls[i]),
    ensures
        lines(with_newlines(ls)).len() == ls.len(),
    decreases ls.len(),
{
    if ls.len() > 0 {
        let tail = ls.drop_first();
        lemma_with_newlines_first(ls);
        assert(no_newline(ls[0]));
        lemma_lines_after_line(ls[0], with_newlines(tail));
        assert forall|i: int| 0 <= i < tail.len() implies no_newline(#[trigger] tail[i]) by {
            assert(tail[i] == ls[i + 1]);
        }
        lemma_lines_count_with_newlines(tail);
    }
}

/// Text that is empty or ends with a newline does not share a line with what
/// follows it: the lines of `a + b` are those of `a`, then those of `b`.
pub proof fn lemma_lines_add(a: Seq<char>, b: Seq<char>)
    requires
        a.len() == 0 || a.last() == '\n',
    ensures
        lines(a + b) == lines(a) + lines(b),
    decreases a.len(),
{
    if a.len() == 0 {
        assert(a + b =~= b);
        assert(lines(a) =~= Seq::<Seq<char>>::empty());
        assert(lines(a) + lines(b) =~= lines(b));
    } else {
        let k = first_newline(a);
        lemma_first_newline_props(a);
        assert(k < a.len()) by {
            if k == a.len() {
                assert(a[a.len() - 1] != '\n');
            }
        }
        let ab = a + b;
        assert forall|j: int| 0 <= j < k implies #[trigger] ab[j] != '\n' by {
            assert(ab[j] == a[j]);
        }
        assert(ab[k as int] == a[k as int]);
        lemma_first_newline_at(ab, k as int);
        let rest = a.skip(k + 1 as int);
        assert(ab.take(k as int) =~= a.take(k as int));
        assert(ab.skip(k + 1 as int) =~= rest + b);
        assert(rest.len() == 0 || rest.last() == '\n') by {
            if rest.len() > 0 {
                assert(rest.last() == a.last());
            }
        }
        lemma_lines_add(rest, b);
        assert(lines(ab) =~= lines(a) + lines(b));
    }
}

/// Lines written with `with_newlines` read back as the same lines, when each
/// of them round-trips.
pub proof fn lemma_lines_of_with_newlines(ls: Seq<Seq<char>>)
    requires
        forall|i: int| 0 <= i < ls.len() ==> line_round_trips(#[trigger] ls[i]),
    ensures
        lines(with_newlines(ls)) == ls,
    decreases ls.len(),
{
    if ls.len() == 0 {
        assert(lines(with_newlines(ls)) =~= ls);
    } else {
        let tail = ls.drop_first();
        lemma_with_newlines_first(ls);
        assert(line_round_trips(ls[0]));
        lemma_lines_after_line(ls[0], with_newlines(tail));
        assert(strip_cr(ls[0]) == ls[0]);
        assert forall|i: int| 0 <= i < tail.len() implies line_round_trips(#[trigger] tail[i]) by {
            assert(tail[i] == ls[i + 1]);
        }
        lemma_lines_of_with_newlines(tail);
        assert(seq![ls[0]] + tail =~= ls);
    }
}

/// Each of `items` on a line of its own, indented by two spaces.
pub open spec fn indented_lines(items: Seq<Seq<char>>) -> Seq<char>
    decreases items.len(),
{
    if items.len() == 0 {
        Seq::empty()
    } else {
        indented_lines(items.drop_last()) + "  "@ + items.last() + "\n"@
    }
}

/// Listing items one list after another: `indented_lines` of a
/// concatenation is the concatenation, and one item is listed as two spaces,
/// the item and a newline.
pub proof fn lemma_indented_lines_add(a: Seq<Seq<char>>, b: Seq<Seq<char>>)
    ensures
        indented_lines(a + b) == indented_lines(a) + indented_lines(b),
        forall|x: Seq<char>| #[trigger] indented_lines(seq![x]) == "  "@ + x + "\n"@,
    decreases b.len(),
{
    assert forall|x: Seq<char>| #[trigger] indented_lines(seq![x]) == "  "@ + x + "\n"@ by {
        assert(seq![x].drop_last() =~= Seq::<Seq<char>>::empty());
        assert(indented_lines(Seq::<Seq<char>>::empty()) =~= Seq::<char>::empty());
        assert(indented_lines(seq![x]) =~= "  "@ + x + "\n"@);
    }
    if b.len() == 0 {
        assert(a + b =~= a);
        assert(indented_lines(a) + indented_lines(b) =~= indented_lines(a));
    } else {
        assert((a + b).drop_last() =~= a + b.drop_last());
        lemma_indented_lines_add(a, b.drop_last());
        assert(indented_lines(a + b) =~= indented_lines(a) + indented_lines(b));
    }
}

/// Appends `items[from..to]`, each on a line of its own indented by two spaces.
pub fn push_indented_range(out: &mut String, items: &Vec<String>, from: usize, to: usize)
    requires
        from <= to <= items.len(),
    ensures
        final(out)@ == old(out)@ + indented_lines(views(items@).subrange(from as int, to as int)),
{
    let mut i: usize = from;
    while i < to
        invariant
            from <= i <= to <= items.len(),
            out@ == old(out)@ + indented_lines(views(items@).subrange(from as int, i as int)),
        decreases to - i,
    {
        let ghost before = out@;
        proof {
            let t = views(items@).subrange(from as int, i + 1);
            assert(t.drop_last() =~= views(items@).subrange(from as int, i as int));
            assert(t.last() == items@[i as int]@);
        }
        push_str(out, "  ");
        push_str(out, items[i].as_str());
        push_str(out, "\n");
        assert(out@ =~= before + "  "@ + items@[i as int]@ + "\n"@);
        i = i + 1;
    }
}

/// Appends each of `items` on a line of its own, indented by two spaces.
pub fn push_indented_lines(out: &mut String, items: &Vec<String>)
    ensures
        final(out)@ == old(out)@ + indented_lines(views(items@)),
{
    push_indented_range(out, items, 0, items.len());
    assert(views(items@).subrange(0, items.len() as int) =~= views(items@));
}

// ---------------------------------------------------------------------------
// Prefixes and suffixes
// ---------------------------------------------------------------------------
/// Whether `p` is a prefix of `s` (`str::starts_with`).
pub fn starts_with(s: &str, p: &str) -> (r: bool)
    ensures
        r == p@.is_prefix_of(s@),
{
    let a = chars_of(s);
    let b = chars_of(p);
    if b.len() > a.len() {
        return false;
    }
    let mut i: usize = 0;
    while i < b.len()
        invariant
            a@ == s@,
            b@ == p@,
            b.len() <= a.len(),
            i <= b.len(),
            forall|k: int| 0 <= k < i ==> a@[k] == b@[k],
        decreases b.len() - i,
    {
        if a[i] != b[i] {
            assert(a@[i as int] != b@[i as int]);
            assert(a@.subrange(0, b.len() as int)[i as int] == a@[i as int]);
            assert(b@ != a@.subrange(0, b.len() as int));
            return false;
        }
        i = i + 1;
    }
    assert(b@ =~= a@.take(b.len() as int));
    true
}

/// Whether `p` is a suffix of `s` (`str::ends_with`).
pub fn ends_with(s: &str, p: &str) -> (r: bool)
    ensures
        r == p@.is_suffix_of(s@),
{
    let a = chars_of(s);
    let b = chars_of(p);
    if b.len() > a.len() {
        return false;
    }
    let off = a.len() - b.len();
    let mut i: usize = 0;
    while i < b.len()
        invariant
            a@ == s@,
            b@ == p@,
            off + b.len() == a.len(),
            i <= b.len(),
            forall|k: int| 0 <= k < i ==> a@[off + k] == b@[k],
        decreases b.len() - i,
    {
        if a[off + i] != b[i] {
            assert(a@.subrange(off as int, a.len() as int)[i as int] == a@[off + i]);
            return false;
        }
        i = i + 1;
    }
    assert(b@ =~= a@.skip(off as int));
    true
}

// ---------------------------------------------------------------------------
// Decimal numbers
// ---------------------------------------------------------------------------
/// The character of a decimal digit.
pub open spec fn digit_char(d: nat) -> char {
    (d + 48) as char
}

/// The decimal representation of `n`, without leading zeros.
pub open spec fn decimal(n: nat) -> Seq<char>
    decreases n,
{
    if n < 10 {
        seq![digit_char(n)]
    } else {
        decimal(n / 10).push(digit_char(n % 10))
    }
}

/// `n` in decimal, left-padded with zeros to at least three digits (`{:03}`).
pub open spec fn pad3(n: nat) -> Seq<char> {
    let d = decimal(n);
    if d.len() >= 3 {
        d
    } else {
        Seq::new((3 - d.len()) as nat, |i: int| '0') + d
    }
}

/// Appends the decimal representation of `n`.
pub fn push_decimal(s: &mut String, n: u64)
    ensures
        final(s)@ == old(s)@ + decimal(n as nat),
    decreases n,
{
    if n >= 10 {
        push_decimal(s, n / 10);
    }
    let d: u8 = (n % 10) as u8;
    let c: char = (d + 48) as char;
    push_char(s, c);
    assert(s@ =~= old(s)@ + decimal(n as nat));
}

proof fn lemma_decimal_len(n: nat)
    ensures
        n < 10 ==> decimal(n).len() == 1,
        10 <= n < 100 ==> decimal(n).len() == 2,
        100 <= n ==> decimal(n).len() >= 3,
        decimal(n).len() >= 1,
    decreases n,
{
    if n >= 10 {
        lemma_decimal_len(n / 10);
    }
}

/// Appends `n` zero-padded to three digits.
pub fn push_pad3(s: &mut String, n: u64)
    ensures
        final(s)@ == old(s)@ + pad3(n as nat),
{
    proof {
        lemma_decimal_len(n as nat);
    }
    if n < 10 {
        push_char(s, '0');
        push_char(s, '0');
    } else if n < 100 {
        push_char(s, '0');
    }
    push_decimal(s, n);
    assert(s@ =~= old(s)@ + pad3(n as nat));
}

/// `n` in decimal.
pub fn decimal_string(n: u64) -> (res: String)
    ensures
        res@ == decimal(n as nat),
{
    let mut res = String::new();
    push_decimal(&mut res, n);
    assert(res@ =~= decimal(n as nat));
    res
}

} // verus!
