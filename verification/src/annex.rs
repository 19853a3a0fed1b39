//! Asset metadata as git-annex key/value pairs.
//!
//! Encoding flattens the JSON form of an asset into `prefix.path=value`
//! pairs: nested objects join their keys with `.`, objects inside arrays
//! with the element's index and `_`. Decoding rebuilds the JSON object from
//! such keys and reads the asset from it.

use vstd::prelude::*;
use crate::assets::{Asset, asset_from_json, asset_json};
use crate::error::Error;
use crate::json::{
    Json, JsonValue, copy_json, find_key, insert_entry, jv, jv_entries, jv_list,
    lemma_jv_entries, lemma_jv_entries_ext, lemma_jv_list, lemma_jv_list_ext, lemma_key_index,
    key_index, obj_get, obj_insert,
};
use crate::paths::views;
use crate::text::{
    concat, decimal, first_digit, first_digit_index, first_index, first_index_of, last_index,
    last_index_of, lemma_first_digit_index, lemma_first_index_of, lemma_last_index_of_bounds,
    owned, parse_usize, parse_usize_text, starts_with, str_eq, usize_to_decimal,
};

verus! {

/// The prefix of the metadata keys that belong to this program.
pub open spec fn annex_prefix() -> Seq<char> {
    "acceptarium."@
}

/// The key a string field is written under: `ocr` goes without the prefix.
pub open spec fn string_field_key(prefix: Seq<char>, key: Seq<char>) -> Seq<char> {
    if key == "ocr"@ {
        key
    } else {
        prefix + key
    }
}

/// The pairs that a value under `key` flattens to.
pub open spec fn meta(prefix: Seq<char>, key: Seq<char>, v: Json) -> Seq<Seq<char>>
    decreases v,
{
    match v {
        Json::Str(s) => seq![string_field_key(prefix, key) + "="@ + s],
        Json::Number(n) => seq![prefix + key + "="@ + n],
        Json::Object(o) => meta_entries(prefix, key + "."@, o),
        Json::Array(a) => meta_items(prefix, key, a),
        _ => seq![],
    }
}

/// The pairs of the entries of an object whose keys go after `kp`.
pub open spec fn meta_entries(prefix: Seq<char>, kp: Seq<char>, o: Seq<(Seq<char>, Json)>) -> Seq<
    Seq<char>,
>
    decreases o,
{
    if o.len() == 0 {
        seq![]
    } else {
        meta_entries(prefix, kp, o.drop_last()) + meta(prefix, kp + o.last().0, o.last().1)
    }
}

/// The pairs of the object elements of an array under `key`: element `i`'s
/// keys go after `key`, `i` and `_`; other elements give nothing.
pub open spec fn meta_items(prefix: Seq<char>, key: Seq<char>, a: Seq<Json>) -> Seq<Seq<char>>
    decreases a,
{
    if a.len() == 0 {
        seq![]
    } else {
        meta_items(prefix, key, a.drop_last()) + match a.last() {
            Json::Object(o) => meta_entries(
                prefix,
                key + decimal((a.len() - 1) as nat) + "_"@,
                o,
            ),
            _ => seq![],
        }
    }
}

/// The pairs of the top-level entries of an asset's JSON: all but `extra`,
/// or, for the minimal form, only `id`.
pub open spec fn meta_top(prefix: Seq<char>, o: Seq<(Seq<char>, Json)>, min: bool) -> Seq<
    Seq<char>,
>
    decreases o.len(),
{
    if o.len() == 0 {
        seq![]
    } else {
        let k = o.last().0;
        let keep = if min {
            k == "id"@
        } else {
            k != "extra"@
        };
        meta_top(prefix, o.drop_last(), min) + if keep {
            meta(prefix, k, o.last().1)
        } else {
            seq![]
        }
    }
}

/// The metadata pairs of an asset.
pub open spec fn annex_pairs(a: crate::assets::AssetView, min: bool) -> Seq<Seq<char>> {
    match asset_json(a) {
        Json::Object(o) => meta_top(annex_prefix(), o, min),
        _ => seq![],
    }
}

fn pair(a: &str, b: &str) -> (r: String)
    ensures
        r@ == a@ + "="@ + b@,
{
    let x = concat(a, "=");
    concat(x.as_str(), b)
}

/// Appends the pairs that `value` under `key` flattens to.
#[verifier::loop_isolation(false)]
fn append_metadata(result: &mut Vec<String>, prefix: &str, key: &str, value: &JsonValue)
    ensures
        views(final(result)@) == views(old(result)@) + meta(prefix@, key@, jv(*value)),
    decreases value,
{
    let ghost start = views(result@);
    match value {
        JsonValue::String(s) => {
            let fk = if str_eq(key, "ocr") {
                owned(key)
            } else {
                concat(prefix, key)
            };
            result.push(pair(fk.as_str(), s.as_str()));
            assert(views(result@) =~= start + meta(prefix@, key@, jv(*value)));
        },
        JsonValue::Number(n) => {
            let fk = concat(prefix, key);
            result.push(pair(fk.as_str(), n.as_str()));
            assert(views(result@) =~= start + meta(prefix@, key@, jv(*value)));
        },
        JsonValue::Object(o) => {
            let kp = concat(key, ".");
            append_entries(result, prefix, kp.as_str(), o);
        },
        JsonValue::Array(a) => {
            proof {
                lemma_jv_list(a@);
            }
            let n = a.len();
            let mut i: usize = 0;
            assert(jv_list(a@).take(0) =~= Seq::<Json>::empty());
            assert(views(result@) =~= start);
            while i < n
                invariant
                    n == a@.len(),
                    i <= n,
                    jv_list(a@).len() == n,
                    forall|j: int| 0 <= j < n ==> #[trigger] jv_list(a@)[j] == jv(a@[j]),
                    views(result@) == start + meta_items(prefix@, key@, jv_list(a@).take(i as int)),
                decreases n - i,
            {
                let ghost before = views(result@);
                assert(jv_list(a@).take(i + 1).drop_last() =~= jv_list(a@).take(i as int));
                assert(jv_list(a@).take(i + 1).last() == jv(a@[i as int]));
                match &a[i] {
                    JsonValue::Object(o) => {
                        let idx = usize_to_decimal(i);
                        let k1 = concat(key, idx.as_str());
                        let kp = concat(k1.as_str(), "_");
                        proof {
                            assert(decreases_to!(a => a@));
                            assert(decreases_to!(a@ => a@[i as int]));
                        }
                        append_entries(result, prefix, kp.as_str(), o);
                        assert(views(result@) =~= start + meta_items(
                            prefix@,
                            key@,
                            jv_list(a@).take(i + 1),
                        ));
                    },
                    _ => {
                        assert(views(result@) =~= start + meta_items(
                            prefix@,
                            key@,
                            jv_list(a@).take(i + 1),
                        ));
                    },
                }
                i += 1;
            }
            assert(jv_list(a@).take(n as int) =~= jv_list(a@));
        },
        _ => {
            assert(views(result@) =~= start + meta(prefix@, key@, jv(*value)));
        },
    }
}

/// Appends the pairs of the entries of an object whose keys go after `kp`.
#[verifier::loop_isolation(false)]
fn append_entries(result: &mut Vec<String>, prefix: &str, kp: &str, o: &Vec<(String, JsonValue)>)
    ensures
        views(final(result)@) == views(old(result)@) + meta_entries(prefix@, kp@, jv_entries(o@)),
    decreases o,
{
    let ghost start = views(result@);
    proof {
        lemma_jv_entries(o@);
    }
    let n = o.len();
    let mut i: usize = 0;
    assert(jv_entries(o@).take(0) =~= Seq::<(Seq<char>, Json)>::empty());
    assert(views(result@) =~= start);
    while i < n
        invariant
            n == o@.len(),
            i <= n,
            jv_entries(o@).len() == n,
            forall|j: int| 0 <= j < n ==> #[trigger] jv_entries(o@)[j] == (o@[j].0@, jv(o@[j].1)),
            views(result@) == start + meta_entries(prefix@, kp@, jv_entries(o@).take(i as int)),
        decreases n - i,
    {
        assert(jv_entries(o@).take(i + 1).drop_last() =~= jv_entries(o@).take(i as int));
        assert(jv_entries(o@).take(i + 1).last() == (o@[i as int].0@, jv(o@[i as int].1)));
        let k = concat(kp, o[i].0.as_str());
        proof {
            assert(decreases_to!(o => o@));
            assert(decreases_to!(o@ => o@[i as int]));
            assert(decreases_to!(o@[i as int] => o@[i as int].1));
        }
        append_metadata(result, prefix, k.as_str(), &o[i].1);
        assert(views(result@) =~= start + meta_entries(
            prefix@,
            kp@,
            jv_entries(o@).take(i + 1),
        ));
        i += 1;
    }
    assert(jv_entries(o@).take(n as int) =~= jv_entries(o@));
}

impl Asset {
    /// The asset's metadata as `key=value` pairs for git-annex. The full
    /// form holds every field but the free-form ones; the minimal form only
    /// the identifier.
    pub fn to_annex_metadata(&self, min: bool) -> (r: Vec<String>)
        ensures
            views(r@) == annex_pairs(self@, min),
    {
        let value = self.to_json();
        let mut result: Vec<String> = Vec::new();
        match &value {
            JsonValue::Object(o) => {
                proof {
                    lemma_jv_entries(o@);
                }
                let n = o.len();
                let mut i: usize = 0;
                assert(jv_entries(o@).take(0) =~= Seq::<(Seq<char>, Json)>::empty());
                assert(views(result@) =~= Seq::<Seq<char>>::empty());
                while i < n
                    invariant
                        n == o@.len(),
                        i <= n,
                        jv_entries(o@).len() == n,
                        forall|j: int|
                            0 <= j < n ==> #[trigger] jv_entries(o@)[j] == (o@[j].0@, jv(o@[j].1)),
                        views(result@) == meta_top(
                            annex_prefix(),
                            jv_entries(o@).take(i as int),
                            min,
                        ),
                    decreases n - i,
                {
                    assert(jv_entries(o@).take(i + 1).drop_last() =~= jv_entries(o@).take(
                        i as int,
                    ));
                    let k = o[i].0.as_str();
                    let keep = if min {
                        str_eq(k, "id")
                    } else {
                        !str_eq(k, "extra")
                    };
                    if keep {
                        append_metadata(&mut result, "acceptarium.", k, &o[i].1);
                    }
                    assert(views(result@) =~= meta_top(
                        annex_prefix(),
                        jv_entries(o@).take(i + 1),
                        min,
                    ));
                    i += 1;
                }
                assert(jv_entries(o@).take(n as int) =~= jv_entries(o@));
            },
            _ => {},
        }
        result
    }
}

/// `a` padded with empty objects to at least `n` elements.
pub open spec fn pad_objects(a: Seq<Json>, n: int) -> Seq<Json> {
    if a.len() >= n {
        a
    } else {
        a + Seq::new((n - a.len()) as nat, |i: int| Json::Object(seq![]))
    }
}

/// A dot-free key names an array element when it holds an ASCII digit and
/// an underscore.
pub open spec fn is_item_key(key: Seq<char>) -> bool {
    first_digit_index(key) >= 0 && key.contains('_')
}

/// The parts of an element key: the part before its last `_` and the
/// field after it.
pub open spec fn item_head(key: Seq<char>) -> Seq<char> {
    key.subrange(0, last_index_of(key, '_'))
}

pub open spec fn item_field(key: Seq<char>) -> Seq<char> {
    key.subrange(last_index_of(key, '_') + 1, key.len() as int)
}

/// Where the index starts in the head of an element key: at its first
/// digit, or 0 when it has none.
pub open spec fn index_start(head: Seq<char>) -> int {
    if first_digit_index(head) >= 0 {
        first_digit_index(head)
    } else {
        0
    }
}

/// The array name of an element key.
pub open spec fn item_array(key: Seq<char>) -> Seq<char> {
    item_head(key).subrange(0, index_start(item_head(key)))
}

/// The element index of an element key: the number after the array name,
/// or 0 when that is no number.
pub open spec fn item_index(key: Seq<char>) -> int {
    let head = item_head(key);
    match parse_usize(head.subrange(index_start(head), head.len() as int)) {
        Some(v) => v,
        None => 0,
    }
}

/// `a` padded as far as `idx`, with `field` set to `value` in element
/// `idx` when that element is an object.
pub open spec fn array_set(a: Seq<Json>, idx: int, field: Seq<char>, value: Json) -> Seq<Json> {
    let a2 = pad_objects(a, idx + 1);
    match a2[idx] {
        Json::Object(io) => a2.update(idx, Json::Object(obj_insert(io, field, value))),
        _ => a2,
    }
}

/// `obj` with `value` placed under the element key `key`.
pub open spec fn item_insert(obj: Seq<(Seq<char>, Json)>, key: Seq<char>, value: Json) -> Seq<
    (Seq<char>, Json),
> {
    let name = item_array(key);
    let i = key_index(obj, name);
    let obj2 = if i >= 0 {
        obj
    } else {
        obj.push((name, Json::Array(seq![])))
    };
    let j = if i >= 0 {
        i
    } else {
        obj.len() as int
    };
    match obj2[j].1 {
        Json::Array(a) => obj2.update(
            j,
            (obj2[j].0, Json::Array(array_set(a, item_index(key), item_field(key), value))),
        ),
        _ => obj2,
    }
}

/// `obj` with `value` placed under the dotted `key`: each dotted part names
/// a nested object (made when missing; a part that holds no object drops
/// the value), and an element key puts the field into an object inside an
/// array, which grows with empty objects as far as the index needs.
pub open spec fn nested_insert(obj: Seq<(Seq<char>, Json)>, key: Seq<char>, value: Json) -> Seq<
    (Seq<char>, Json),
>
    decreases key.len(),
{
    let d = first_index_of(key, '.');
    if 0 <= d < key.len() {
        let first = key.subrange(0, d);
        let rest = key.subrange(d + 1, key.len() as int);
        let i = key_index(obj, first);
        let obj2 = if i >= 0 {
            obj
        } else {
            obj.push((first, Json::Object(seq![])))
        };
        let j = if i >= 0 {
            i
        } else {
            obj.len() as int
        };
        match obj2[j].1 {
            Json::Object(n) => obj2.update(j, (obj2[j].0, Json::Object(nested_insert(n, rest, value)))),
            _ => obj2,
        }
    } else if is_item_key(key) {
        item_insert(obj, key, value)
    } else {
        obj_insert(obj, key, value)
    }
}

/// Every character before position `n` of `s` is ASCII.
pub open spec fn ascii_before(s: Seq<char>, n: int) -> bool {
    forall|i: int| 0 <= i < n ==> (#[trigger] s[i] as u32) < 128
}

/// The array name of every element key in the dotted `key` is ASCII, so
/// that character positions and byte positions agree in it.
pub open spec fn key_safe(key: Seq<char>) -> bool
    decreases key.len(),
{
    let d = first_index_of(key, '.');
    if 0 <= d < key.len() {
        key_safe(key.subrange(d + 1, key.len() as int))
    } else if is_item_key(key) {
        ascii_before(item_head(key), index_start(item_head(key)))
    } else {
        true
    }
}

/// Pads `a` with empty objects until it has an element `idx`.
fn pad_array(a: &mut Vec<JsonValue>, idx: usize)
    ensures
        jv_list(final(a)@) == pad_objects(jv_list(old(a)@), idx + 1),
        final(a)@.len() > idx,
{
    let ghost a0 = jv_list(a@);
    proof {
        lemma_jv_list(a@);
        assert(pad_objects(a0, a@.len() as int) =~= a0);
    }
    while a.len() <= idx
        invariant
            jv_list(a@) == pad_objects(a0, a@.len() as int),
            a0.len() <= a@.len(),
            a@.len() == a0.len() || a@.len() <= idx + 1,
        decreases idx + 1 - a@.len(),
    {
        let e: Vec<(String, JsonValue)> = Vec::new();
        let ghost before = a@;
        a.push(JsonValue::Object(e));
        proof {
            assert(jv_entries(e@) =~= Seq::<(Seq<char>, Json)>::empty());
            lemma_jv_list(a@);
            lemma_jv_list(before);
            let p0 = pad_objects(a0, before.len() as int);
            let p1 = pad_objects(a0, a@.len() as int);
            assert forall|t: int| 0 <= t < a@.len() implies jv(#[trigger] a@[t]) == p1[t] by {
                if t < before.len() {
                    assert(a@[t] == before[t]);
                    assert(jv(before[t]) == p0[t]);
                    if t < a0.len() {
                        assert(p0[t] == a0[t]);
                        assert(p1[t] == a0[t]);
                    } else {
                        assert(p0[t] == Json::Object(seq![]));
                        assert(p1[t] == Json::Object(seq![]));
                    }
                } else {
                    assert(jv(a@[t]) == Json::Object(jv_entries(e@)));
                }
            }
            lemma_jv_list_ext(a@, p1);
        }
    }
    proof {
        if a@.len() == a0.len() {
            assert(pad_objects(a0, a@.len() as int) =~= a0);
        }
        assert(pad_objects(a0, idx + 1) == pad_objects(a0, a@.len() as int));
    }
}

/// Pads `a` as far as `idx` and sets `field` in element `idx` when it is an
/// object.
fn set_array_field(a: &mut Vec<JsonValue>, idx: usize, field: String, value: JsonValue)
    ensures
        jv_list(final(a)@) == array_set(jv_list(old(a)@), idx as int, field@, jv(value)),
{
    pad_array(a, idx);
    proof {
        lemma_jv_list(a@);
    }
    let ghost a2 = jv_list(a@);
    let item = a.remove(idx);
    match item {
        JsonValue::Object(mut io) => {
            let ghost io0 = jv_entries(io@);
            insert_entry(&mut io, field, value);
            a.insert(idx, JsonValue::Object(io));
            proof {
                lemma_jv_list(a@);
                lemma_jv_list_ext(
                    a@,
                    a2.update(idx as int, Json::Object(obj_insert(io0, field@, jv(value)))),
                );
            }
        },
        other => {
            a.insert(idx, other);
            proof {
                lemma_jv_list(a@);
                lemma_jv_list_ext(a@, a2);
            }
        },
    }
}

/// Places `value` under the element key `key` in `obj`.
fn insert_item(obj: &mut Vec<(String, JsonValue)>, key: &str, value: JsonValue)
    requires
        is_item_key(key@),
        ascii_before(item_head(key@), index_start(item_head(key@))),
    ensures
        jv_entries(final(obj)@) == item_insert(jv_entries(old(obj)@), key@, jv(value)),
{
    proof {
        lemma_jv_entries(obj@);
        lemma_last_index_of_bounds(key@, '_');
    }
    let ghost o0 = jv_entries(obj@);
    let n = key.unicode_len();
    let u = match last_index(key, '_') {
        Some(u) => u,
        None => {
            proof {
                assert(false);
            }
            0
        },
    };
    let head = key.substring_char(0, u);
    let field = key.substring_char(u + 1, n);
    let hlen = head.unicode_len();
    let start = match first_digit(head) {
        Some(p) => p,
        None => 0,
    };
    proof {
        lemma_first_digit_index(head@);
    }
    let name = head.substring_char(0, start);
    let idx = match parse_usize_text(head.substring_char(start, hlen)) {
        Some(v) => v,
        None => 0,
    };
    proof {
        lemma_key_index(o0, name@);
    }
    let i = match find_key(obj, name) {
        Some(i) => i,
        None => {
            let e: Vec<JsonValue> = Vec::new();
            obj.push((owned(name), JsonValue::Array(e)));
            proof {
                assert(jv_list(e@) =~= Seq::<Json>::empty());
                lemma_jv_entries(obj@);
                lemma_jv_entries_ext(obj@, o0.push((name@, Json::Array(seq![]))));
            }
            obj.len() - 1
        },
    };
    let ghost o2 = jv_entries(obj@);
    proof {
        lemma_jv_entries(obj@);
    }
    let (k, v) = obj.remove(i);
    match v {
        JsonValue::Array(mut a) => {
            let ghost a0 = jv_list(a@);
            set_array_field(&mut a, idx, owned(field), value);
            let ghost a3 = jv_list(a@);
            obj.insert(i, (k, JsonValue::Array(a)));
            proof {
                lemma_jv_entries(obj@);
                lemma_jv_entries_ext(obj@, o2.update(i as int, (o2[i as int].0, Json::Array(a3))));
            }
        },
        other => {
            obj.insert(i, (k, other));
            proof {
                lemma_jv_entries(obj@);
                lemma_jv_entries_ext(obj@, o2);
            }
        },
    }
}

/// Places `value` under the dotted `key` in `obj`.
pub fn insert_nested_value(obj: &mut Vec<(String, JsonValue)>, key: &str, value: JsonValue)
    requires
        key_safe(key@),
    ensures
        jv_entries(final(obj)@) == nested_insert(jv_entries(old(obj)@), key@, jv(value)),
    decreases key@.len(),
{
    proof {
        lemma_jv_entries(obj@);
        lemma_first_index_of(key@, '.');
    }
    let ghost o0 = jv_entries(obj@);
    let n = key.unicode_len();
    match first_index(key, '.') {
        Some(d) => {
            let first = key.substring_char(0, d);
            let rest = key.substring_char(d + 1, n);
            proof {
                lemma_key_index(o0, first@);
            }
            let i = match find_key(obj, first) {
                Some(i) => i,
                None => {
                    let e: Vec<(String, JsonValue)> = Vec::new();
                    obj.push((owned(first), JsonValue::Object(e)));
                    proof {
                        assert(jv_entries(e@) =~= Seq::<(Seq<char>, Json)>::empty());
                        lemma_jv_entries(obj@);
                        lemma_jv_entries_ext(obj@, o0.push((first@, Json::Object(seq![]))));
                    }
                    obj.len() - 1
                },
            };
            let ghost o2 = jv_entries(obj@);
            proof {
                lemma_jv_entries(obj@);
            }
            let (k, v) = obj.remove(i);
            let ghost removed = obj@;
            match v {
                JsonValue::Object(mut inner) => {
                    let ghost inner0 = jv_entries(inner@);
                    insert_nested_value(&mut inner, rest, value);
                    obj.insert(i, (k, JsonValue::Object(inner)));
                    proof {
                        lemma_jv_entries(obj@);
                        lemma_jv_entries_ext(
                            obj@,
                            o2.update(
                                i as int,
                                (o2[i as int].0, Json::Object(nested_insert(inner0, rest@, jv(value)))),
                            ),
                        );
                    }
                },
                other => {
                    let ghost ov = other;
                    obj.insert(i, (k, other));
                    proof {
                        lemma_jv_entries(obj@);
                        lemma_jv_entries_ext(obj@, o2);
                    }
                },
            }
        },
        None => {
            let ud = last_index(key, '_');
            let has_digit = first_digit(key).is_some();
            if has_digit && ud.is_some() {
                proof {
                    lemma_last_index_of_bounds(key@, '_');
                    assert(key@.contains('_'));
                }
                insert_item(obj, key, value);
            } else {
                proof {
                    if ud.is_none() {
                        lemma_last_index_of_bounds(key@, '_');
                    }
                }
                insert_entry(obj, owned(key), value);
            }
        },
    }
}


/// The first element of an array (null when it is empty); any other value
/// as it is. git-annex stores each field's values as an array.
pub open spec fn first_or_null(v: Json) -> Json {
    match v {
        Json::Array(a) => if a.len() > 0 {
            a[0]
        } else {
            Json::Null
        },
        _ => v,
    }
}

/// One field of git-annex metadata folded into the asset object: `ocr`
/// takes its first value as it is, keys with this program's prefix are
/// placed by their dotted path, other keys are ignored.
pub open spec fn rebuild_step(obj: Seq<(Seq<char>, Json)>, key: Seq<char>, values: Json) -> Seq<
    (Seq<char>, Json),
> {
    if key == "ocr"@ {
        match values {
            Json::Array(a) => if a.len() > 0 {
                obj_insert(obj, key, a[0])
            } else {
                obj
            },
            _ => obj,
        }
    } else if annex_prefix().len() <= key.len() && key.subrange(0, annex_prefix().len() as int)
        == annex_prefix() {
        nested_insert(obj, key.subrange(annex_prefix().len() as int, key.len() as int), first_or_null(values))
    } else {
        obj
    }
}

/// The asset object rebuilt from all metadata fields, in order.
pub open spec fn rebuild(f: Seq<(Seq<char>, Json)>) -> Seq<(Seq<char>, Json)>
    decreases f.len(),
{
    if f.len() == 0 {
        seq![]
    } else {
        rebuild_step(rebuild(f.drop_last()), f.last().0, f.last().1)
    }
}

/// Every prefixed key of the fields has ASCII array names.
pub open spec fn fields_safe(f: Seq<(Seq<char>, Json)>) -> bool {
    forall|i: int|
        0 <= i < f.len() && annex_prefix().len() <= (#[trigger] f[i]).0.len() && f[i].0.subrange(
            0,
            annex_prefix().len() as int,
        ) == annex_prefix() ==> key_safe(
            f[i].0.subrange(annex_prefix().len() as int, f[i].0.len() as int),
        )
}

/// The metadata record that decoding accepts without position trouble.
pub open spec fn annex_safe(j: Json) -> bool {
    match j {
        Json::Object(top) => match obj_get(top, "fields"@) {
            Some(Json::Object(f)) => fields_safe(f),
            _ => true,
        },
        _ => true,
    }
}

/// The asset a git-annex metadata record (`{"fields": {...}}`) describes.
pub open spec fn annex_decode(j: Json) -> Option<crate::assets::AssetView> {
    match j {
        Json::Object(top) => match obj_get(top, "fields"@) {
            Some(Json::Object(f)) => asset_from_json(Json::Object(rebuild(f))),
            _ => None,
        },
        _ => None,
    }
}

/// Whether the array names in the dotted `key` are ASCII.
#[verifier::loop_isolation(false)]
pub fn key_is_safe(key: &str) -> (r: bool)
    ensures
        r == key_safe(key@),
    decreases key@.len(),
{
    proof {
        lemma_first_index_of(key@, '.');
    }
    let n = key.unicode_len();
    match first_index(key, '.') {
        Some(d) => key_is_safe(key.substring_char(d + 1, n)),
        None => {
            let ud = last_index(key, '_');
            proof {
                lemma_last_index_of_bounds(key@, '_');
            }
            match (first_digit(key), ud) {
                (Some(_), Some(u)) => {
                    assert(key@.contains('_'));
                    let head = key.substring_char(0, u);
                    let start = match first_digit(head) {
                        Some(p) => p,
                        None => 0,
                    };
                    proof {
                        lemma_first_digit_index(head@);
                        assert(head@ == item_head(key@));
                        assert(start == index_start(head@));
                    }
                    let mut i: usize = 0;
                    while i < start
                        invariant
                            i <= start,
                            start <= head@.len(),
                            forall|t: int| 0 <= t < i ==> (#[trigger] head@[t] as u32) < 128,
                        decreases start - i,
                    {
                        if head.get_char(i) as u32 >= 128 {
                            assert(!ascii_before(head@, start as int));
                            return false;
                        }
                        i += 1;
                    }
                    true
                },
                _ => true,
            }
        },
    }
}

/// Whether decoding `j` meets no position trouble.
#[verifier::loop_isolation(false)]
pub fn annex_is_safe(j: &JsonValue) -> (r: bool)
    ensures
        r == annex_safe(jv(*j)),
{
    let top = match j {
        JsonValue::Object(top) => top,
        _ => {
            return true;
        },
    };
    proof {
        lemma_jv_entries(top@);
        lemma_key_index(jv_entries(top@), "fields"@);
    }
    let f = match find_key(top, "fields") {
        Some(i) => match &top[i].1 {
            JsonValue::Object(f) => f,
            _ => {
                return true;
            },
        },
        None => {
            return true;
        },
    };
    proof {
        lemma_jv_entries(f@);
        reveal_strlit("acceptarium.");
    }
    let n = f.len();
    let mut i: usize = 0;
    while i < n
        invariant
            n == f@.len(),
            i <= n,
            annex_prefix().len() == 12,
            jv_entries(f@).len() == n,
            forall|t: int| 0 <= t < n ==> #[trigger] jv_entries(f@)[t] == (f@[t].0@, jv(f@[t].1)),
            forall|t: int|
                0 <= t < i && annex_prefix().len() <= (#[trigger] jv_entries(f@)[t]).0.len()
                    && jv_entries(f@)[t].0.subrange(0, annex_prefix().len() as int) == annex_prefix()
                    ==> key_safe(
                    jv_entries(f@)[t].0.subrange(
                        annex_prefix().len() as int,
                        jv_entries(f@)[t].0.len() as int,
                    ),
                ),
        decreases n - i,
    {
        let key = f[i].0.as_str();
        if starts_with(key, "acceptarium.") {
            let local = key.substring_char(12, key.unicode_len());
            if !key_is_safe(local) {
                assert(jv_entries(f@)[i as int].0 == key@);
                assert(!fields_safe(jv_entries(f@)));
                return false;
            }
        }
        i += 1;
    }
    true
}

proof fn lemma_rebuild_prefix_step(f: Seq<(Seq<char>, Json)>, i: int)
    requires
        0 <= i < f.len(),
    ensures
        rebuild(f.take(i + 1)) == rebuild_step(rebuild(f.take(i)), f[i].0, f[i].1),
{
    assert(f.take(i + 1).drop_last() =~= f.take(i));
}

impl Asset {
    /// The asset described by a git-annex metadata record: the JSON object
    /// whose `fields` map each metadata key to its list of values. Amount
    /// fields must already hold numbers (turning their text into numbers is
    /// floating-point work that the caller does).
    pub fn from_annex_metadata_json(j: &JsonValue) -> (r: Result<Asset, Error>)
        requires
            annex_safe(jv(*j)),
        ensures
            match r {
                Ok(a) => annex_decode(jv(*j)) == Some(a@),
                Err(e) => annex_decode(jv(*j)) is None && e is SerdeJson,
            },
    {
        let top = match j {
            JsonValue::Object(top) => top,
            _ => {
                return Err(Error::SerdeJson { message: owned("invalid type: expected a map") });
            },
        };
        proof {
            lemma_jv_entries(top@);
            lemma_key_index(jv_entries(top@), "fields"@);
        }
        let f = match find_key(top, "fields") {
            Some(i) => match &top[i].1 {
                JsonValue::Object(f) => f,
                _ => {
                    return Err(
                        Error::SerdeJson { message: owned("invalid type for field `fields`") },
                    );
                },
            },
            None => {
                return Err(Error::SerdeJson { message: owned("missing field `fields`") });
            },
        };
        proof {
            lemma_jv_entries(f@);
            reveal_strlit("acceptarium.");
            reveal_strlit("ocr");
        }
        let ghost fv = jv_entries(f@);
        let n = f.len();
        let mut obj: Vec<(String, JsonValue)> = Vec::new();
        let mut i: usize = 0;
        assert(fv.take(0) =~= Seq::<(Seq<char>, Json)>::empty());
        assert(jv_entries(obj@) =~= Seq::<(Seq<char>, Json)>::empty());
        while i < n
            invariant
                n == f@.len(),
                i <= n,
                fv == jv_entries(f@),
                fv.len() == n,
                annex_prefix().len() == 12,
                "ocr"@ == seq!['o', 'c', 'r'],
                forall|t: int| 0 <= t < n ==> #[trigger] fv[t] == (f@[t].0@, jv(f@[t].1)),
                fields_safe(fv),
                jv_entries(obj@) == rebuild(fv.take(i as int)),
            decreases n - i,
        {
            proof {
                lemma_rebuild_prefix_step(fv, i as int);
            }
            let key = f[i].0.as_str();
            let values = &f[i].1;
            if str_eq(key, "ocr") {
                match values {
                    JsonValue::Array(arr) => {
                        if arr.len() > 0 {
                            proof {
                                lemma_jv_list(arr@);
                            }
                            insert_entry(&mut obj, owned(key), copy_json(&arr[0]));
                        }
                    },
                    _ => {},
                }
            } else if starts_with(key, "acceptarium.") {
                let local = key.substring_char(12, key.unicode_len());
                let value = match values {
                    JsonValue::Array(arr) => {
                        proof {
                            lemma_jv_list(arr@);
                        }
                        if arr.len() > 0 {
                            copy_json(&arr[0])
                        } else {
                            JsonValue::Null
                        }
                    },
                    other => copy_json(other),
                };
                proof {
                    assert(fv[i as int].0 == key@);
                    assert(local@ == key@.subrange(12, key@.len() as int));
                }
                insert_nested_value(&mut obj, local, value);
            }
            i += 1;
        }
        assert(fv.take(n as int) =~= fv);
        let rebuilt = JsonValue::Object(obj);
        Asset::from_json(&rebuilt)
    }
}
} // verus!
