//! The persisted text format of a task list, as its own grammar: a bracketed
//! sequence of task records, each holding a quoted, escaped name and a
//! completion flag. The encoder and the parser are both specified here, and
//! parsing an encoded list is proved to give back exactly that list.
//!
//! The format is the canonical one the encoder produces: no whitespace, the
//! `name` field before the `completed` field, and only quotes and backslashes
//! escaped inside names.

use crate::task::SpecTask;
use crate::task::Task;
use crate::task::views_of;
use vstd::prelude::*;

verus! {

/// How one character stands inside a quoted name: quotes and backslashes get
/// a leading backslash, every other character stands as itself.
pub open spec fn escape_char(c: char) -> Seq<char> {
    if c == '"' || c == '\\' {
        seq!['\\', c]
    } else {
        seq![c]
    }
}

/// A task name with each character escaped.
pub open spec fn escape(name: Seq<char>) -> Seq<char>
    decreases name.len(),
{
    if name.len() == 0 {
        Seq::empty()
    } else {
        escape_char(name[0]) + escape(name.skip(1))
    }
}

/// The text of a completion flag.
pub open spec fn encode_bool(b: bool) -> Seq<char> {
    if b {
        "true"@
    } else {
        "false"@
    }
}

/// The text of one task record.
pub open spec fn encode_task(t: SpecTask) -> Seq<char> {
    "{\"name\":\""@ + escape(t.name) + "\",\"completed\":"@ + encode_bool(t.completed) + "}"@
}

/// The text of the records of a non-empty list, comma-separated, up to and
/// including the closing bracket; of an empty list, the closing bracket
/// alone.
pub open spec fn encode_items(ts: Seq<SpecTask>) -> Seq<char>
    decreases ts.len(),
{
    if ts.len() == 0 {
        "]"@
    } else if ts.len() == 1 {
        encode_task(ts[0]) + "]"@
    } else {
        encode_task(ts[0]) + ","@ + encode_items(ts.skip(1))
    }
}

/// The full persisted text of a task list.
pub open spec fn encode_list(ts: Seq<SpecTask>) -> Seq<char> {
    "["@ + encode_items(ts)
}

/// Parses a quoted name from just after its opening quote: the unescaped
/// characters up to the closing quote, and the text after that quote.
pub open spec fn parse_string(s: Seq<char>) -> Option<(Seq<char>, Seq<char>)>
    decreases s.len(),
{
    if s.len() == 0 {
        None
    } else if s[0] == '"' {
        Some((Seq::empty(), s.skip(1)))
    } else if s[0] == '\\' {
        if s.len() >= 2 && (s[1] == '"' || s[1] == '\\') {
            match parse_string(s.skip(2)) {
                Some(p) => Some((seq![s[1]] + p.0, p.1)),
                None => None,
            }
        } else {
            None
        }
    } else {
        match parse_string(s.skip(1)) {
            Some(p) => Some((seq![s[0]] + p.0, p.1)),
            None => None,
        }
    }
}

/// Parses a completion flag and returns the text after it.
pub open spec fn parse_bool(s: Seq<char>) -> Option<(bool, Seq<char>)> {
    if s.len() >= 4 && s.subrange(0, 4) == "true"@ {
        Some((true, s.skip(4)))
    } else if s.len() >= 5 && s.subrange(0, 5) == "false"@ {
        Some((false, s.skip(5)))
    } else {
        None
    }
}

/// Parses one task record and returns the text after it.
pub open spec fn parse_task(s: Seq<char>) -> Option<(SpecTask, Seq<char>)> {
    let p = "{\"name\":\""@;
    if s.len() >= p.len() && s.subrange(0, p.len() as int) == p {
        match parse_string(s.skip(p.len() as int)) {
            Some(n) => {
                let q = ",\"completed\":"@;
                if n.1.len() >= q.len() && n.1.subrange(0, q.len() as int) == q {
                    match parse_bool(n.1.skip(q.len() as int)) {
                        Some(b) => {
                            if b.1.len() >= 1 && b.1[0] == '}' {
                                Some((SpecTask { name: n.0, completed: b.0 }, b.1.skip(1)))
                            } else {
                                None
                            }
                        },
                        None => None,
                    }
                } else {
                    None
                }
            },
            None => None,
        }
    } else {
        None
    }
}

/// Parses the records of a non-empty list, up to the closing bracket, which
/// must end the text.
pub open spec fn parse_items(s: Seq<char>) -> Option<Seq<SpecTask>>
    decreases s.len(),
{
    match parse_task(s) {
        Some(t) => {
            if t.1.len() == 1 && t.1[0] == ']' {
                Some(seq![t.0])
            } else if t.1.len() >= 1 && t.1[0] == ',' && t.1.len() < s.len() {
                match parse_items(t.1.skip(1)) {
                    Some(ts) => Some(seq![t.0] + ts),
                    None => None,
                }
            } else {
                None
            }
        },
        None => None,
    }
}

/// Parses the persisted text of a whole task list.
pub open spec fn parse_list(s: Seq<char>) -> Option<Seq<SpecTask>> {
    if s.len() == 2 && s[0] == '[' && s[1] == ']' {
        Some(Seq::empty())
    } else if s.len() >= 1 && s[0] == '[' {
        parse_items(s.skip(1))
    } else {
        None
    }
}

/// Escapes a task name for quoting.
fn escaped(name: &str) -> (r: String)
    ensures
        r@ == escape(name@),
{
    let n = name.unicode_len();
    let mut r = String::new();
    let mut i: usize = 0;
    proof {
        assert(name@.skip(0) =~= name@);
        assert(r@ + escape(name@) =~= escape(name@));
    }
    while i < n
        invariant
            i <= n,
            n == name@.len(),
            escape(name@) == r@ + escape(name@.skip(i as int)),
        decreases n - i,
    {
        proof {
            assert(name@.skip(i as int)[0] == name@[i as int]);
            assert(name@.skip(i as int).skip(1) =~= name@.skip(i as int + 1));
        }
        let ghost prev = r@;
        let c = name.get_char(i);
        let piece = name.substring_char(i, i + 1);
        proof {
            assert(piece@ =~= seq![c]);
        }
        if c == '"' || c == '\\' {
            r.append("\\");
            proof {
                reveal_strlit("\\");
            }
        }
        r.append(piece);
        proof {
            assert(r@ =~= prev + escape_char(c));
            assert((prev + escape_char(c)) + escape(name@.skip(i as int + 1))
                =~= prev + (escape_char(c) + escape(name@.skip(i as int + 1))));
        }
        i = i + 1;
    }
    proof {
        assert(escape(name@.skip(n as int)) =~= Seq::<char>::empty());
        assert(r@ + escape(name@.skip(n as int)) =~= r@);
    }
    r
}

/// The persisted text of one task record.
fn task_text(t: &Task) -> (r: String)
    ensures
        r@ == encode_task(t@),
{
    let mut r = String::new();
    r.append("{\"name\":\"");
    let e = escaped(t.name.as_str());
    r.append(e.as_str());
    r.append("\",\"completed\":");
    if t.completed {
        r.append("true");
    } else {
        r.append("false");
    }
    r.append("}");
    r
}

/// The persisted text of the records from position `i` on, up to and
/// including the closing bracket.
fn items_text(tasks: &Vec<Task>, i: usize) -> (r: String)
    requires
        i < tasks@.len(),
    ensures
        r@ == encode_items(views_of(tasks@).skip(i as int)),
    decreases tasks@.len() - i,
{
    let ghost vs = views_of(tasks@);
    proof {
        assert(vs.skip(i as int)[0] == vs[i as int]);
        assert(vs.skip(i as int).skip(1) =~= vs.skip(i as int + 1));
    }
    let n = tasks.len();
    let mut r = task_text(&tasks[i]);
    if i + 1 == n {
        r.append("]");
    } else {
        r.append(",");
        let rest = items_text(tasks, i + 1);
        r.append(rest.as_str());
        proof {
            assert(r@ =~= encode_task(vs[i as int]) + ","@ + encode_items(
                vs.skip(i as int + 1),
            ));
        }
    }
    r
}

/// The full persisted text of a sequence of task records.
pub fn encode_tasks(tasks: &Vec<Task>) -> (r: String)
    ensures
        r@ == encode_list(views_of(tasks@)),
{
    let mut r = String::new();
    r.append("[");
    if tasks.len() == 0 {
        r.append("]");
        proof {
            assert(views_of(tasks@).len() == 0);
        }
    } else {
        let items = items_text(tasks, 0);
        r.append(items.as_str());
        proof {
            assert(views_of(tasks@).skip(0) =~= views_of(tasks@));
        }
    }
    r
}

/// Whether `p` is a prefix of `s`, character by character.
fn has_prefix(s: &str, p: &str) -> (r: bool)
    ensures
        r == (s@.len() >= p@.len() && s@.subrange(0, p@.len() as int) == p@),
{
    let n = s.unicode_len();
    let m = p.unicode_len();
    if n < m {
        return false;
    }
    let mut j: usize = 0;
    while j < m
        invariant
            j <= m,
            m <= n,
            n == s@.len(),
            m == p@.len(),
            forall|k: int| 0 <= k < j ==> s@[k] == p@[k],
        decreases m - j,
    {
        if s.get_char(j) != p.get_char(j) {
            proof {
                assert(s@.subrange(0, m as int)[j as int] == s@[j as int]);
            }
            return false;
        }
        j = j + 1;
    }
    proof {
        assert(s@.subrange(0, m as int) =~= p@);
    }
    true
}

/// Reads a quoted name from just after its opening quote, undoing the
/// escapes, and returns it with the text after the closing quote.
fn decode_string(s: &str) -> (r: Option<(String, &str)>)
    ensures
        match r {
            Some(p) => parse_string(s@) == Some((p.0@, p.1@)),
            None => parse_string(s@) is None,
        },
    decreases s@.len(),
{
    let n = s.unicode_len();
    if n == 0 {
        return None;
    }
    let c = s.get_char(0);
    if c == '"' {
        let rest = s.substring_char(1, n);
        proof {
            assert(rest@ =~= s@.skip(1));
        }
        Some((String::new(), rest))
    } else if c == '\\' {
        if n >= 2 {
            let c2 = s.get_char(1);
            if c2 == '"' || c2 == '\\' {
                let tail = s.substring_char(2, n);
                proof {
                    assert(tail@ =~= s@.skip(2));
                }
                match decode_string(tail) {
                    Some(p) => {
                        let mut out = s.substring_char(1, 2).to_owned();
                        proof {
                            assert(out@ =~= seq![s@[1]]);
                        }
                        out.append(p.0.as_str());
                        Some((out, p.1))
                    },
                    None => None,
                }
            } else {
                None
            }
        } else {
            None
        }
    } else {
        let tail = s.substring_char(1, n);
        proof {
            assert(tail@ =~= s@.skip(1));
        }
        match decode_string(tail) {
            Some(p) => {
                let mut out = s.substring_char(0, 1).to_owned();
                proof {
                    assert(out@ =~= seq![s@[0]]);
                }
                out.append(p.0.as_str());
                Some((out, p.1))
            },
            None => None,
        }
    }
}

/// Reads a completion flag and returns it with the text after it.
fn decode_bool(s: &str) -> (r: Option<(bool, &str)>)
    ensures
        match r {
            Some(p) => parse_bool(s@) == Some((p.0, p.1@)),
            None => parse_bool(s@) is None,
        },
{
    proof {
        reveal_strlit("true");
        reveal_strlit("false");
    }
    let n = s.unicode_len();
    if has_prefix(s, "true") {
        let rest = s.substring_char(4, n);
        proof {
            assert(rest@ =~= s@.skip(4));
        }
        Some((true, rest))
    } else if has_prefix(s, "false") {
        let rest = s.substring_char(5, n);
        proof {
            assert(rest@ =~= s@.skip(5));
        }
        Some((false, rest))
    } else {
        None
    }
}

/// Reads one task record and returns it with the text after it.
fn decode_task(s: &str) -> (r: Option<(Task, &str)>)
    ensures
        match r {
            Some(p) => parse_task(s@) == Some((p.0@, p.1@)),
            None => parse_task(s@) is None,
        },
{
    proof {
        reveal_strlit("{\"name\":\"");
        reveal_strlit(",\"completed\":");
    }
    if !has_prefix(s, "{\"name\":\"") {
        return None;
    }
    let n = s.unicode_len();
    let tail = s.substring_char(9, n);
    proof {
        assert(tail@ =~= s@.skip(9));
    }
    match decode_string(tail) {
        Some(p) => {
            let name = p.0;
            let r1 = p.1;
            if !has_prefix(r1, ",\"completed\":") {
                return None;
            }
            let m = r1.unicode_len();
            let tail2 = r1.substring_char(13, m);
            proof {
                assert(tail2@ =~= r1@.skip(13));
            }
            match decode_bool(tail2) {
                Some(b) => {
                    let r2 = b.1;
                    let k = r2.unicode_len();
                    if k >= 1 && r2.get_char(0) == '}' {
                        let rest = r2.substring_char(1, k);
                        proof {
                            assert(rest@ =~= r2@.skip(1));
                        }
                        Some((Task { name, completed: b.0 }, rest))
                    } else {
                        None
                    }
                },
                None => None,
            }
        },
        None => None,
    }
}

/// Reads the records of a non-empty list, up to the closing bracket, which
/// must end the text.
fn decode_items(s: &str) -> (r: Option<Vec<Task>>)
    ensures
        match r {
            Some(v) => parse_items(s@) == Some(views_of(v@)),
            None => parse_items(s@) is None,
        },
    decreases s@.len(),
{
    let n = s.unicode_len();
    match decode_task(s) {
        Some(p) => {
            let t = p.0;
            let rest = p.1;
            let m = rest.unicode_len();
            if m == 1 && rest.get_char(0) == ']' {
                let mut v: Vec<Task> = Vec::new();
                v.push(t);
                proof {
                    assert(views_of(v@) =~= seq![v@[0]@]);
                }
                Some(v)
            } else if m >= 1 && rest.get_char(0) == ',' && m < n {
                let tail = rest.substring_char(1, m);
                proof {
                    assert(tail@ =~= rest@.skip(1));
                }
                match decode_items(tail) {
                    Some(ts) => {
                        let ghost prev = ts@;
                        let mut v = ts;
                        v.insert(0, t);
                        proof {
                            assert(views_of(v@) =~= seq![t@] + views_of(prev));
                        }
                        Some(v)
                    },
                    None => None,
                }
            } else {
                None
            }
        },
        None => None,
    }
}

/// Reads the persisted text of a whole task list; malformed text gives
/// `None`.
pub fn decode_tasks(s: &str) -> (r: Option<Vec<Task>>)
    ensures
        match r {
            Some(v) => parse_list(s@) == Some(views_of(v@)),
            None => parse_list(s@) is None,
        },
{
    let n = s.unicode_len();
    if n == 0 {
        return None;
    }
    if s.get_char(0) != '[' {
        return None;
    }
    if n == 2 && s.get_char(1) == ']' {
        let v: Vec<Task> = Vec::new();
        proof {
            assert(views_of(v@) =~= Seq::<SpecTask>::empty());
        }
        Some(v)
    } else {
        let tail = s.substring_char(1, n);
        proof {
            assert(tail@ =~= s@.skip(1));
        }
        decode_items(tail)
    }
}

/// Parsing an escaped name followed by its closing quote gives the name back
/// and leaves exactly the text after the quote.
proof fn lemma_parse_string_escape(name: Seq<char>, rest: Seq<char>)
    ensures
        parse_string(escape(name) + seq!['"'] + rest) == Some((name, rest)),
    decreases name.len(),
{
    let s = escape(name) + seq!['"'] + rest;
    if name.len() == 0 {
        assert(s =~= seq!['"'] + rest);
        assert(s[0] == '"');
        assert(s.skip(1) =~= rest);
        assert(name =~= Seq::<char>::empty());
    } else {
        let c = name[0];
        lemma_parse_string_escape(name.skip(1), rest);
        if c == '"' || c == '\\' {
            assert(s =~= seq!['\\', c] + (escape(name.skip(1)) + seq!['"'] + rest));
            assert(s[0] == '\\');
            assert(s[1] == c);
            assert(s.skip(2) =~= escape(name.skip(1)) + seq!['"'] + rest);
            assert(seq![s[1]] + name.skip(1) =~= name);
        } else {
            assert(s =~= seq![c] + (escape(name.skip(1)) + seq!['"'] + rest));
            assert(s[0] == c);
            assert(s.skip(1) =~= escape(name.skip(1)) + seq!['"'] + rest);
            assert(seq![s[0]] + name.skip(1) =~= name);
        }
    }
}

/// Parsing an encoded completion flag gives the flag back and leaves exactly
/// the text after it.
proof fn lemma_parse_bool_encode(b: bool, rest: Seq<char>)
    ensures
        parse_bool(encode_bool(b) + rest) == Some((b, rest)),
{
    reveal_strlit("true");
    reveal_strlit("false");
    let s = encode_bool(b) + rest;
    if b {
        assert(s.subrange(0, 4) =~= "true"@);
        assert(s.skip(4) =~= rest);
    } else {
        assert(s[0] == 'f');
        if s.len() >= 4 && s.subrange(0, 4) == "true"@ {
            assert(s.subrange(0, 4)[0] == 't');
            assert(false);
        }
        assert(s.subrange(0, 5) =~= "false"@);
        assert(s.skip(5) =~= rest);
    }
}

/// Parsing an encoded task record gives the record back and leaves exactly
/// the text after it.
proof fn lemma_parse_task_encode(t: SpecTask, rest: Seq<char>)
    ensures
        parse_task(encode_task(t) + rest) == Some((t, rest)),
{
    reveal_strlit("{\"name\":\"");
    reveal_strlit("\",\"completed\":");
    reveal_strlit(",\"completed\":");
    reveal_strlit("}");
    let p = "{\"name\":\""@;
    let q = ",\"completed\":"@;
    let s = encode_task(t) + rest;
    let r1 = q + encode_bool(t.completed) + "}"@ + rest;
    assert(s.subrange(0, p.len() as int) =~= p);
    assert(s.skip(p.len() as int) =~= escape(t.name) + seq!['"'] + r1);
    lemma_parse_string_escape(t.name, r1);
    assert(r1.subrange(0, q.len() as int) =~= q);
    assert(r1.skip(q.len() as int) =~= encode_bool(t.completed) + ("}"@ + rest));
    lemma_parse_bool_encode(t.completed, "}"@ + rest);
    let r2 = "}"@ + rest;
    assert(r2[0] == '}');
    assert(r2.skip(1) =~= rest);
}

/// An encoded task record is never empty.
proof fn lemma_encode_task_len(t: SpecTask)
    ensures
        encode_task(t).len() >= 9,
{
    reveal_strlit("{\"name\":\"");
}

/// Parsing the encoded records of a non-empty list gives the list back.
proof fn lemma_parse_items_encode(ts: Seq<SpecTask>)
    requires
        ts.len() >= 1,
    ensures
        parse_items(encode_items(ts)) == Some(ts),
    decreases ts.len(),
{
    reveal_strlit("]");
    reveal_strlit(",");
    let s = encode_items(ts);
    lemma_encode_task_len(ts[0]);
    if ts.len() == 1 {
        lemma_parse_task_encode(ts[0], "]"@);
        assert(s == encode_task(ts[0]) + "]"@);
        assert("]"@.len() == 1 && "]"@[0] == ']');
        assert(seq![ts[0]] =~= ts);
    } else {
        let tail = ","@ + encode_items(ts.skip(1));
        assert(s =~= encode_task(ts[0]) + tail);
        lemma_parse_task_encode(ts[0], tail);
        assert(tail[0] == ',');
        assert(tail.len() < s.len());
        assert(tail.skip(1) =~= encode_items(ts.skip(1)));
        lemma_parse_items_encode(ts.skip(1));
        assert(seq![ts[0]] + ts.skip(1) =~= ts);
    }
}

/// Parsing the persisted text of any task list gives exactly that list back:
/// the round trip of the codec.
pub proof fn lemma_parse_encode(ts: Seq<SpecTask>)
    ensures
        parse_list(encode_list(ts)) == Some(ts),
{
    reveal_strlit("[");
    reveal_strlit("]");
    let s = encode_list(ts);
    assert(s[0] == '[');
    if ts.len() == 0 {
        assert(s.len() == 2);
        assert(s[1] == ']');
        assert(ts =~= Seq::<SpecTask>::empty());
    } else {
        lemma_encode_task_len(ts[0]);
        assert(encode_items(ts).len() >= 9);
        assert(s.len() > 2);
        assert(s.skip(1) =~= encode_items(ts));
        lemma_parse_items_encode(ts);
    }
}

} // verus!
