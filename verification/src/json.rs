//! A model of JSON values: the executable `JsonValue` and its mathematical
//! view `Json`.

use vstd::prelude::*;
use crate::ident::hex_digit;
use crate::text::{push_char, str_eq};

verus! {

/// A JSON value. Numbers are kept as their text; objects keep their entries
/// in order.
#[derive(Debug)]
pub enum JsonValue {
    Null,
    Bool(bool),
    Number(String),
    String(String),
    Array(Vec<JsonValue>),
    Object(Vec<(String, JsonValue)>),
}

/// The mathematical view of a JSON value.
pub enum Json {
    Null,
    Bool(bool),
    Number(Seq<char>),
    Str(Seq<char>),
    Array(Seq<Json>),
    Object(Seq<(Seq<char>, Json)>),
}

/// The view of a value.
pub open spec fn jv(v: JsonValue) -> Json
    decreases v,
{
    match v {
        JsonValue::Null => Json::Null,
        JsonValue::Bool(b) => Json::Bool(b),
        JsonValue::Number(n) => Json::Number(n@),
        JsonValue::String(s) => Json::Str(s@),
        JsonValue::Array(a) => Json::Array(jv_list(a@)),
        JsonValue::Object(o) => Json::Object(jv_entries(o@)),
    }
}

/// The views of a list of values.
pub open spec fn jv_list(a: Seq<JsonValue>) -> Seq<Json>
    decreases a,
{
    if a.len() == 0 {
        seq![]
    } else {
        jv_list(a.drop_last()).push(jv(a.last()))
    }
}

/// The views of the entries of an object.
pub open spec fn jv_entries(o: Seq<(String, JsonValue)>) -> Seq<(Seq<char>, Json)>
    decreases o,
{
    if o.len() == 0 {
        seq![]
    } else {
        jv_entries(o.drop_last()).push((o.last().0@, jv(o.last().1)))
    }
}

pub proof fn lemma_jv_list(a: Seq<JsonValue>)
    ensures
        jv_list(a).len() == a.len(),
        forall|i: int| 0 <= i < a.len() ==> #[trigger] jv_list(a)[i] == jv(a[i]),
    decreases a.len(),
{
    if a.len() > 0 {
        lemma_jv_list(a.drop_last());
        assert forall|i: int| 0 <= i < a.len() implies #[trigger] jv_list(a)[i] == jv(a[i]) by {
            if i < a.len() - 1 {
                assert(a.drop_last()[i] == a[i]);
            }
        }
    }
}

pub proof fn lemma_jv_entries(o: Seq<(String, JsonValue)>)
    ensures
        jv_entries(o).len() == o.len(),
        forall|i: int|
            0 <= i < o.len() ==> #[trigger] jv_entries(o)[i] == (o[i].0@, jv(o[i].1)),
    decreases o.len(),
{
    if o.len() > 0 {
        lemma_jv_entries(o.drop_last());
        assert forall|i: int| 0 <= i < o.len() implies #[trigger] jv_entries(o)[i] == (
            o[i].0@,
            jv(o[i].1),
        ) by {
            if i < o.len() - 1 {
                assert(o.drop_last()[i] == o[i]);
            }
        }
    }
}

/// The views of lists are equal when the views of their elements are.
pub proof fn lemma_jv_list_ext(a: Seq<JsonValue>, b: Seq<Json>)
    requires
        a.len() == b.len(),
        forall|i: int| 0 <= i < a.len() ==> jv(#[trigger] a[i]) == b[i],
    ensures
        jv_list(a) == b,
{
    lemma_jv_list(a);
    assert(jv_list(a) =~= b);
}

/// The views of entry lists are equal when the views of their entries are.
pub proof fn lemma_jv_entries_ext(o: Seq<(String, JsonValue)>, b: Seq<(Seq<char>, Json)>)
    requires
        o.len() == b.len(),
        forall|i: int| 0 <= i < o.len() ==> (#[trigger] o[i]).0@ == b[i].0 && jv(o[i].1) == b[i].1,
    ensures
        jv_entries(o) == b,
{
    lemma_jv_entries(o);
    assert(jv_entries(o) =~= b);
}

/// Position of the first entry with key `k`, or -1.
pub open spec fn key_index(o: Seq<(Seq<char>, Json)>, k: Seq<char>) -> int
    decreases o.len(),
{
    if o.len() == 0 {
        -1
    } else {
        let i = key_index(o.drop_last(), k);
        if i >= 0 {
            i
        } else if o.last().0 == k {
            o.len() - 1
        } else {
            -1
        }
    }
}

pub proof fn lemma_key_index(o: Seq<(Seq<char>, Json)>, k: Seq<char>)
    ensures
        -1 <= key_index(o, k) < o.len(),
        key_index(o, k) >= 0 ==> o[key_index(o, k)].0 == k,
        forall|j: int| 0 <= j < o.len() && (key_index(o, k) == -1 || j < key_index(o, k)) ==> o[j].0
            != k,
    decreases o.len(),
{
    if o.len() > 0 {
        lemma_key_index(o.drop_last(), k);
        assert forall|j: int|
            0 <= j < o.len() && (key_index(o, k) == -1 || j < key_index(o, k)) implies o[j].0
            != k by {
            if j < o.len() - 1 {
                assert(o.drop_last()[j] == o[j]);
            }
        }
    }
}

/// The value of key `k` in an object, if present.
pub open spec fn obj_get(o: Seq<(Seq<char>, Json)>, k: Seq<char>) -> Option<Json> {
    let i = key_index(o, k);
    if i >= 0 {
        Some(o[i].1)
    } else {
        None
    }
}

/// `o` with key `k` set to `v`: in place when present, else appended.
pub open spec fn obj_insert(o: Seq<(Seq<char>, Json)>, k: Seq<char>, v: Json) -> Seq<
    (Seq<char>, Json),
> {
    let i = key_index(o, k);
    if i >= 0 {
        o.update(i, (k, v))
    } else {
        o.push((k, v))
    }
}

/// Position of the first entry with key `k`.
pub fn find_key(o: &Vec<(String, JsonValue)>, k: &str) -> (r: Option<usize>)
    ensures
        match r {
            Some(i) => i == key_index(jv_entries(o@), k@),
            None => key_index(jv_entries(o@), k@) == -1,
        },
{
    proof {
        lemma_jv_entries(o@);
        lemma_key_index(jv_entries(o@), k@);
    }
    let n = o.len();
    let mut i: usize = 0;
    while i < n
        invariant
            n == o@.len(),
            i <= n,
            jv_entries(o@).len() == n,
            forall|j: int| 0 <= j < i ==> (#[trigger] o@[j]).0@ != k@,
            forall|j: int| 0 <= j < n ==> #[trigger] jv_entries(o@)[j] == (o@[j].0@, jv(o@[j].1)),
        decreases n - i,
    {
        if str_eq(o[i].0.as_str(), k) {
            proof {
                lemma_key_index(jv_entries(o@), k@);
                let ki = key_index(jv_entries(o@), k@);
                if ki == -1 || ki > i {
                    assert(jv_entries(o@)[i as int].0 == k@);
                }
                if 0 <= ki < i {
                    assert(jv_entries(o@)[ki].0 == o@[ki].0@);
                }
            }
            return Some(i);
        }
        i += 1;
    }
    proof {
        lemma_key_index(jv_entries(o@), k@);
        let ki = key_index(jv_entries(o@), k@);
        if ki >= 0 {
            assert(jv_entries(o@)[ki].0 == o@[ki].0@);
        }
    }
    None
}

/// Sets key `k` to `v`: in place when present, else appended.
pub fn insert_entry(o: &mut Vec<(String, JsonValue)>, k: String, v: JsonValue)
    ensures
        jv_entries(final(o)@) == obj_insert(jv_entries(old(o)@), k@, jv(v)),
{
    proof {
        lemma_jv_entries(o@);
        lemma_key_index(jv_entries(o@), k@);
    }
    let ghost old_o = o@;
    match find_key(o, k.as_str()) {
        Some(i) => {
            o.set(i, (k, v));
            proof {
                lemma_jv_entries(o@);
                lemma_jv_entries_ext(o@, obj_insert(jv_entries(old_o), k@, jv(v)));
            }
        },
        None => {
            o.push((k, v));
            proof {
                lemma_jv_entries(o@);
                assert(o@.drop_last() =~= old_o);
            }
        },
    }
}

/// A string value.
pub fn text_value(s: &str) -> (r: JsonValue)
    ensures
        jv(r) == Json::Str(s@),
{
    JsonValue::String(s.to_owned())
}


/// A value with the same content.
#[verifier::loop_isolation(false)]
pub fn copy_json(v: &JsonValue) -> (r: JsonValue)
    ensures
        jv(r) == jv(*v),
    decreases v,
{
    match v {
        JsonValue::Null => JsonValue::Null,
        JsonValue::Bool(b) => JsonValue::Bool(*b),
        JsonValue::Number(n) => JsonValue::Number(n.clone()),
        JsonValue::String(s) => JsonValue::String(s.clone()),
        JsonValue::Array(a) => {
            let mut out: Vec<JsonValue> = Vec::new();
            let n = a.len();
            let mut i: usize = 0;
            while i < n
                invariant
                    n == a@.len(),
                    i <= n,
                    out@.len() == i,
                    forall|j: int| 0 <= j < i ==> jv(#[trigger] out@[j]) == jv(a@[j]),
                decreases n - i,
            {
                proof {
                    assert(decreases_to!(a => a@));
                    assert(decreases_to!(a@ => a@[i as int]));
                }
                out.push(copy_json(&a[i]));
                i += 1;
            }
            proof {
                lemma_jv_list(a@);
                lemma_jv_list_ext(out@, jv_list(a@));
            }
            JsonValue::Array(out)
        },
        JsonValue::Object(o) => {
            let out = copy_entries(o);
            JsonValue::Object(out)
        },
    }
}

/// Entries with the same content.
pub fn copy_entries(o: &Vec<(String, JsonValue)>) -> (r: Vec<(String, JsonValue)>)
    ensures
        jv_entries(r@) == jv_entries(o@),
    decreases o,
{
    let mut out: Vec<(String, JsonValue)> = Vec::new();
    let n = o.len();
    let mut i: usize = 0;
    while i < n
        invariant
            n == o@.len(),
            i <= n,
            out@.len() == i,
            forall|j: int|
                0 <= j < i ==> (#[trigger] out@[j]).0@ == o@[j].0@ && jv(out@[j].1) == jv(o@[j].1),
        decreases n - i,
    {
        proof {
            assert(decreases_to!(o => o@));
            assert(decreases_to!(o@ => o@[i as int]));
            assert(decreases_to!(o@[i as int] => o@[i as int].1));
        }
        out.push((o[i].0.clone(), copy_json(&o[i].1)));
        i += 1;
    }
    proof {
        lemma_jv_entries(o@);
        lemma_jv_entries_ext(out@, jv_entries(o@));
    }
    out
}

/// How a character is written inside a JSON string: quotes, backslashes and
/// control characters escaped, everything else as it is.
pub open spec fn escape_char(c: char) -> Seq<char> {
    if c == '"' {
        seq!['\\', '"']
    } else if c == '\\' {
        seq!['\\', '\\']
    } else if c == '\n' {
        seq!['\\', 'n']
    } else if c == '\r' {
        seq!['\\', 'r']
    } else if c == '\t' {
        seq!['\\', 't']
    } else if c == '\u{8}' {
        seq!['\\', 'b']
    } else if c == '\u{c}' {
        seq!['\\', 'f']
    } else if (c as u32) < 0x20 {
        seq!['\\', 'u', '0', '0', hex_digit((c as u32 / 16) as int), hex_digit((c as u32 % 16) as int)]
    } else {
        seq![c]
    }
}

/// The characters of a string, escaped.
pub open spec fn escaped(s: Seq<char>) -> Seq<char>
    decreases s.len(),
{
    if s.len() == 0 {
        seq![]
    } else {
        escaped(s.drop_last()) + escape_char(s.last())
    }
}

/// A JSON string literal.
pub open spec fn quoted(s: Seq<char>) -> Seq<char> {
    seq!['"'] + escaped(s) + seq!['"']
}

/// The compact JSON text of a value, as `serde_json::to_string` writes it.
pub open spec fn json_text(j: Json) -> Seq<char>
    decreases j,
{
    match j {
        Json::Null => "null"@,
        Json::Bool(b) => if b {
            "true"@
        } else {
            "false"@
        },
        Json::Number(n) => n,
        Json::Str(s) => quoted(s),
        Json::Array(a) => seq!['['] + items_text(a) + seq![']'],
        Json::Object(o) => seq!['{'] + entries_text(o) + seq!['}'],
    }
}

/// A value with no numbers, nested at most `depth` arrays or objects deep.
pub open spec fn json_plain(j: Json, depth: nat) -> bool
    decreases j,
{
    match j {
        Json::Number(_) => false,
        Json::Array(a) => depth > 0 && items_plain(a, (depth - 1) as nat),
        Json::Object(o) => depth > 0 && entries_plain(o, (depth - 1) as nat),
        _ => true,
    }
}

/// Every value of a list is plain within `depth`.
pub open spec fn items_plain(a: Seq<Json>, depth: nat) -> bool
    decreases a,
{
    if a.len() == 0 {
        true
    } else {
        items_plain(a.drop_last(), depth) && json_plain(a.last(), depth)
    }
}

/// Every value of an object is plain within `depth`.
pub open spec fn entries_plain(o: Seq<(Seq<char>, Json)>, depth: nat) -> bool
    decreases o,
{
    if o.len() == 0 {
        true
    } else {
        entries_plain(o.drop_last(), depth) && json_plain(o.last().1, depth)
    }
}

/// A value whose compact text `serde_json` reads back: no numbers (whose
/// text the model does not check) and fewer than 128 levels of arrays and
/// objects, its recursion limit.
pub open spec fn reads_back(j: Json) -> bool {
    json_plain(j, 127)
}

/// Values separated by commas.
pub open spec fn items_text(a: Seq<Json>) -> Seq<char>
    decreases a,
{
    if a.len() == 0 {
        seq![]
    } else if a.len() == 1 {
        json_text(a[0])
    } else {
        items_text(a.drop_last()) + seq![','] + json_text(a.last())
    }
}

/// Entries `"key":value` separated by commas.
pub open spec fn entries_text(o: Seq<(Seq<char>, Json)>) -> Seq<char>
    decreases o,
{
    if o.len() == 0 {
        seq![]
    } else if o.len() == 1 {
        quoted(o[0].0) + seq![':'] + json_text(o[0].1)
    } else {
        entries_text(o.drop_last()) + seq![','] + quoted(o.last().0) + seq![':'] + json_text(
            o.last().1,
        )
    }
}

fn hex_char(d: u32) -> (c: char)
    requires
        d < 16,
    ensures
        c == hex_digit(d as int),
{
    if d == 0 { '0' } else if d == 1 { '1' } else if d == 2 { '2' } else if d == 3 { '3' }
    else if d == 4 { '4' } else if d == 5 { '5' } else if d == 6 { '6' } else if d == 7 { '7' }
    else if d == 8 { '8' } else if d == 9 { '9' } else if d == 10 { 'a' } else if d == 11 { 'b' }
    else if d == 12 { 'c' } else if d == 13 { 'd' } else if d == 14 { 'e' } else { 'f' }
}

fn push_two(out: &mut String, a: char, b: char)
    ensures
        final(out)@ == old(out)@ + seq![a, b],
{
    push_char(out, a);
    push_char(out, b);
    assert(out@ =~= old(out)@ + seq![a, b]);
}

/// Appends `c` as it is written inside a JSON string.
fn push_escaped_char(out: &mut String, c: char)
    ensures
        final(out)@ == old(out)@ + escape_char(c),
{
    if c == '"' {
        push_two(out, '\\', '"');
    } else if c == '\\' {
        push_two(out, '\\', '\\');
    } else if c == '\n' {
        push_two(out, '\\', 'n');
    } else if c == '\r' {
        push_two(out, '\\', 'r');
    } else if c == '\t' {
        push_two(out, '\\', 't');
    } else if c == '\u{8}' {
        push_two(out, '\\', 'b');
    } else if c == '\u{c}' {
        push_two(out, '\\', 'f');
    } else if (c as u32) < 0x20 {
        let ghost o = out@;
        push_two(out, '\\', 'u');
        push_two(out, '0', '0');
        push_two(out, hex_char((c as u32) / 16), hex_char((c as u32) % 16));
        assert(out@ =~= o + escape_char(c));
    } else {
        push_char(out, c);
        assert(out@ =~= old(out)@ + seq![c]);
    }
}

/// Appends `s` as a JSON string literal.
fn push_quoted(out: &mut String, s: &str)
    ensures
        final(out)@ == old(out)@ + quoted(s@),
{
    let ghost o = out@;
    push_char(out, '"');
    let n = s.unicode_len();
    let mut i: usize = 0;
    assert(s@.take(0) =~= Seq::<char>::empty());
    while i < n
        invariant
            n == s@.len(),
            i <= n,
            out@ == o + seq!['"'] + escaped(s@.take(i as int)),
        decreases n - i,
    {
        let c = s.get_char(i);
        push_escaped_char(out, c);
        assert(s@.take(i + 1).drop_last() =~= s@.take(i as int));
        assert(s@.take(i + 1).last() == c);
        i += 1;
    }
    assert(s@.take(n as int) =~= s@);
    push_char(out, '"');
    assert(out@ =~= o + quoted(s@));
}

/// Appends the compact JSON text of `v`.
#[verifier::loop_isolation(false)]
pub fn push_json_text(out: &mut String, v: &JsonValue)
    ensures
        final(out)@ == old(out)@ + json_text(jv(*v)),
    decreases v,
{
    let ghost o = out@;
    match v {
        JsonValue::Null => {
            out.append("null");
            proof { reveal_strlit("null"); }
        },
        JsonValue::Bool(b) => {
            if *b {
                out.append("true");
                proof { reveal_strlit("true"); }
            } else {
                out.append("false");
                proof { reveal_strlit("false"); }
            }
        },
        JsonValue::Number(n) => {
            out.append(n.as_str());
        },
        JsonValue::String(s) => {
            push_quoted(out, s.as_str());
        },
        JsonValue::Array(a) => {
            push_char(out, '[');
            let n = a.len();
            let mut i: usize = 0;
            proof {
                lemma_jv_list(a@);
                assert(jv_list(a@).take(0) =~= Seq::<Json>::empty());
            }
            while i < n
                invariant
                    n == a@.len(),
                    i <= n,
                    jv_list(a@).len() == n,
                    forall|j: int| 0 <= j < n ==> #[trigger] jv_list(a@)[j] == jv(a@[j]),
                    out@ == o + seq!['['] + items_text(jv_list(a@).take(i as int)),
                decreases n - i,
            {
                proof {
                    assert(decreases_to!(a => a@));
                    assert(decreases_to!(a@ => a@[i as int]));
                }
                let ghost before = out@;
                if i > 0 {
                    push_char(out, ',');
                }
                push_json_text(out, &a[i]);
                proof {
                    let t = jv_list(a@).take(i + 1);
                    assert(t.drop_last() =~= jv_list(a@).take(i as int));
                    assert(t.last() == jv(a@[i as int]));
                    if i == 0 {
                        assert(t.len() == 1 && t[0] == jv(a@[0]));
                    }
                    assert(out@ =~= o + seq!['['] + items_text(t));
                }
                i += 1;
            }
            assert(jv_list(a@).take(n as int) =~= jv_list(a@));
            push_char(out, ']');
            assert(out@ =~= o + json_text(jv(*v)));
        },
        JsonValue::Object(e) => {
            push_char(out, '{');
            let n = e.len();
            let mut i: usize = 0;
            proof {
                lemma_jv_entries(e@);
                assert(jv_entries(e@).take(0) =~= Seq::<(Seq<char>, Json)>::empty());
            }
            while i < n
                invariant
                    n == e@.len(),
                    i <= n,
                    jv_entries(e@).len() == n,
                    forall|j: int|
                        0 <= j < n ==> #[trigger] jv_entries(e@)[j] == (e@[j].0@, jv(e@[j].1)),
                    out@ == o + seq!['{'] + entries_text(jv_entries(e@).take(i as int)),
                decreases n - i,
            {
                proof {
                    assert(decreases_to!(e => e@));
                    assert(decreases_to!(e@ => e@[i as int]));
                    assert(decreases_to!(e@[i as int] => e@[i as int].1));
                }
                if i > 0 {
                    push_char(out, ',');
                }
                push_quoted(out, e[i].0.as_str());
                push_char(out, ':');
                push_json_text(out, &e[i].1);
                proof {
                    let t = jv_entries(e@).take(i + 1);
                    assert(t.drop_last() =~= jv_entries(e@).take(i as int));
                    assert(t.last() == (e@[i as int].0@, jv(e@[i as int].1)));
                    if i == 0 {
                        assert(t.len() == 1 && t[0] == (e@[0].0@, jv(e@[0].1)));
                    }
                    assert(out@ =~= o + seq!['{'] + entries_text(t));
                }
                i += 1;
            }
            assert(jv_entries(e@).take(n as int) =~= jv_entries(e@));
            push_char(out, '}');
            assert(out@ =~= o + json_text(jv(*v)));
        },
    }
}

/// The compact JSON text of `v`.
pub fn json_to_text(v: &JsonValue) -> (r: String)
    ensures
        r@ == json_text(jv(*v)),
{
    let mut out = String::new();
    push_json_text(&mut out, v);
    assert(out@ =~= json_text(jv(*v)));
    out
}

/// The keys of an object's entries are pairwise distinct.
pub open spec fn distinct_keys(o: Seq<(Seq<char>, Json)>) -> bool {
    forall|a: int, b: int| 0 <= a < b < o.len() ==> (#[trigger] o[a]).0 != (#[trigger] o[b]).0
}

/// In an object with distinct keys, each key finds its own entry.
pub proof fn lemma_obj_get_at(o: Seq<(Seq<char>, Json)>, i: int)
    requires
        distinct_keys(o),
        0 <= i < o.len(),
    ensures
        obj_get(o, o[i].0) == Some(o[i].1),
{
    lemma_key_index(o, o[i].0);
    let k = key_index(o, o[i].0);
    if k != i {
        if k >= 0 && k < i {
            assert(o[k].0 != o[i].0);
        } else if k > i {
            assert(o[i].0 != o[k].0);
        }
    }
}

} // verus!
