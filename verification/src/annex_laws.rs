//! What git-annex gives back of the metadata written for an asset reads as
//! that asset again.

use vstd::prelude::*;
use crate::annex::{
    annex_decode, annex_pairs, annex_prefix, first_or_null, is_item_key, meta, meta_top,
    nested_insert, rebuild, rebuild_step, string_field_key,
};
use crate::assets::{AssetView, asset_json, is_storable, path_json, sum_json};
use crate::ident::law_hex_round_trip;
use crate::json::{Json, key_index, lemma_key_index, obj_get, obj_insert};
use crate::paths::{law_parse_render, render};
use crate::text::{first_digit_index, first_index_of, lemma_first_digit_index, lemma_first_index_of};
use crate::transaction::text_json;

verus! {

/// A `key=value` pair cut at its first `=`.
pub open spec fn split_pair(p: Seq<char>) -> (Seq<char>, Seq<char>) {
    let i = first_index_of(p, '=');
    if 0 <= i {
        (p.subrange(0, i), p.subrange(i + 1, p.len() as int))
    } else {
        (p, seq![])
    }
}

/// The metadata record git-annex reports after the pairs were set on a
/// file: under `fields`, each key with the list of its one value.
pub open spec fn annex_record(pairs: Seq<Seq<char>>) -> Json {
    Json::Object(
        seq![
            (
                "fields"@,
                Json::Object(
                    pairs.map_values(
                        |p: Seq<char>| (split_pair(p).0, Json::Array(seq![Json::Str(split_pair(p).1)])),
                    ),
                ),
            ),
        ],
    )
}

/// The name a metadata key puts its value under.
pub open spec fn target(k: Seq<char>) -> Seq<char> {
    if k == "ocr"@ {
        k
    } else {
        k.subrange(annex_prefix().len() as int, k.len() as int)
    }
}

/// A key that places its value directly: `ocr`, or the prefix and a name
/// without `.` that names no array element.
pub open spec fn plain_key(k: Seq<char>) -> bool {
    ||| k == "ocr"@
    ||| {
        &&& annex_prefix().len() <= k.len()
        &&& k.subrange(0, annex_prefix().len() as int) == annex_prefix()
        &&& k != annex_prefix() + "ocr"@
        &&& first_index_of(target(k), '.') == -1
        &&& !is_item_key(target(k))
    }
}

/// A list of exactly one value.
pub open spec fn one_value(j: Json) -> bool {
    j matches Json::Array(a) && a.len() == 1
}

/// Each field has a plain key and one value.
pub open spec fn plain_fields(f: Seq<(Seq<char>, Json)>) -> bool {
    forall|i: int|
        0 <= i < f.len() ==> plain_key(#[trigger] f[i].0) && one_value(f[i].1)
}

/// The value the last field placed under `name` gives it.
pub open spec fn field_value(f: Seq<(Seq<char>, Json)>, name: Seq<char>) -> Option<Json>
    decreases f.len(),
{
    if f.len() == 0 {
        None
    } else if target(f.last().0) == name {
        Some(first_or_null(f.last().1))
    } else {
        field_value(f.drop_last(), name)
    }
}

/// Two objects with the same keys in the same places find a key at the
/// same place.
proof fn lemma_key_index_same(a: Seq<(Seq<char>, Json)>, b: Seq<(Seq<char>, Json)>, k: Seq<char>)
    requires
        a.len() == b.len(),
        forall|j: int| 0 <= j < a.len() ==> #[trigger] a[j].0 == b[j].0,
    ensures
        key_index(a, k) == key_index(b, k),
{
    lemma_key_index(a, k);
    lemma_key_index(b, k);
    let x = key_index(a, k);
    let y = key_index(b, k);
    if x != y {
        if x == -1 {
            assert(b[y].0 == k);
            assert(a[y].0 == k);
        } else if y == -1 {
            assert(a[x].0 == k);
            assert(b[x].0 == k);
        } else if x < y {
            assert(a[x].0 == k);
            assert(b[x].0 == k);
        } else {
            assert(b[y].0 == k);
            assert(a[y].0 == k);
        }
    }
}

/// Reading an object after a key was set in it.
pub proof fn lemma_obj_insert_get(o: Seq<(Seq<char>, Json)>, k: Seq<char>, v: Json, name: Seq<char>)
    ensures
        obj_get(obj_insert(o, k, v), name) == if name == k {
            Some(v)
        } else {
            obj_get(o, name)
        },
{
    lemma_key_index(o, k);
    let i = key_index(o, k);
    let o2 = obj_insert(o, k, v);
    if i >= 0 {
        assert forall|j: int| 0 <= j < o.len() implies #[trigger] o[j].0 == o2[j].0 by {}
        lemma_key_index_same(o, o2, name);
        lemma_key_index(o, name);
        if name == k {
            assert(key_index(o, name) == i);
        } else {
            let x = key_index(o, name);
            if x >= 0 {
                assert(x != i);
                assert(o2[x] == o[x]);
            }
        }
    } else {
        assert(o2 == o.push((k, v)));
        lemma_key_index(o, name);
        assert(o2.drop_last() =~= o);
        if name == k {
            assert(key_index(o, k) == -1);
            assert(key_index(o2, k) == o.len());
        } else {
            assert(key_index(o2, name) == key_index(o, name));
            let x = key_index(o, name);
            if x >= 0 {
                assert(o2[x] == o[x]);
            }
        }
    }
}

/// A plain key's field is placed under its name.
proof fn lemma_plain_step(obj: Seq<(Seq<char>, Json)>, k: Seq<char>, values: Json)
    requires
        plain_key(k),
        one_value(values),
    ensures
        rebuild_step(obj, k, values) == obj_insert(obj, target(k), first_or_null(values)),
{
    reveal_strlit("ocr");
    if k != "ocr"@ {
        let n = k.subrange(annex_prefix().len() as int, k.len() as int);
        assert(n == target(k));
        assert(nested_insert(obj, n, first_or_null(values)) == obj_insert(obj, n, first_or_null(values)));
    }
}

/// Rebuilding plain fields places each under its name, the last one
/// winning.
pub proof fn lemma_rebuild_plain(f: Seq<(Seq<char>, Json)>, name: Seq<char>)
    requires
        plain_fields(f),
    ensures
        obj_get(rebuild(f), name) == field_value(f, name),
    decreases f.len(),
{
    if f.len() > 0 {
        let g = f.drop_last();
        assert(plain_fields(g)) by {
            assert forall|i: int| 0 <= i < g.len() implies plain_key(#[trigger] g[i].0) && one_value(g[i].1) by {
                assert(g[i] == f[i]);
                assert(plain_key(f[i].0));
            }
        }
        lemma_rebuild_plain(g, name);
        assert(plain_key(f[f.len() - 1].0));
        lemma_plain_step(rebuild(g), f.last().0, f.last().1);
        lemma_obj_insert_get(rebuild(g), target(f.last().0), first_or_null(f.last().1), name);
    }
}

/// The value of a name after two lists of fields: the second's, else the
/// first's.
proof fn lemma_field_value_concat(a: Seq<(Seq<char>, Json)>, b: Seq<(Seq<char>, Json)>, name: Seq<char>)
    ensures
        field_value(a + b, name) == match field_value(b, name) {
            Some(v) => Some(v),
            None => field_value(a, name),
        },
    decreases b.len(),
{
    if b.len() == 0 {
        assert(a + b =~= a);
    } else {
        assert((a + b).drop_last() =~= a + b.drop_last());
        assert((a + b).last() == b.last());
        lemma_field_value_concat(a, b.drop_last(), name);
    }
}

/// The first `=` of `k=v`, where `k` holds none, is the one after `k`.
proof fn lemma_split_pair(k: Seq<char>, v: Seq<char>)
    requires
        forall|i: int| 0 <= i < k.len() ==> k[i] != '=',
    ensures
        split_pair(k + "="@ + v) == (k, v),
{
    reveal_strlit("=");
    let p = k + "="@ + v;
    lemma_first_index_of(p, '=');
    let f = first_index_of(p, '=');
    assert(p[k.len() as int] == '=');
    if f != k.len() {
        if f == -1 || f > k.len() {
            assert(p[k.len() as int] != '=');
        } else {
            assert(p[f] == k[f]);
        }
    }
    assert(p.subrange(0, k.len() as int) =~= k);
    assert(p.subrange(k.len() as int + 1, p.len() as int) =~= v);
}

/// The field a pair makes.
pub open spec fn pair_field(p: Seq<char>) -> (Seq<char>, Json) {
    (split_pair(p).0, Json::Array(seq![Json::Str(split_pair(p).1)]))
}

/// The pairs of an optional text under `k`.
pub open spec fn opt_pair(k: Seq<char>, v: Option<Seq<char>>) -> Seq<Seq<char>> {
    match v {
        Some(t) => seq![k + "="@ + t],
        None => seq![],
    }
}

/// The fields of an optional text under `k`.
pub open spec fn opt_field(k: Seq<char>, v: Option<Seq<char>>) -> Seq<(Seq<char>, Json)> {
    match v {
        Some(t) => seq![(k, Json::Array(seq![Json::Str(t)]))],
        None => seq![],
    }
}

/// The text a JSON string or null stands for.
pub open spec fn opt_text(j: Json) -> Option<Seq<char>> {
    match j {
        Json::Str(t) => Some(t),
        _ => None,
    }
}

/// The pairs of one top-level entry of an asset's JSON.
proof fn lemma_meta_simple(key: Seq<char>, j: Json)
    requires
        j is Str || j is Null,
        key.len() > 0,
    ensures
        meta(annex_prefix(), key, j) == opt_pair(string_field_key(annex_prefix(), key), opt_text(j)),
{
}

/// A key with no `=` in it.
pub open spec fn no_equals(k: Seq<char>) -> bool {
    forall|i: int| 0 <= i < k.len() ==> k[i] != '='
}

/// The fields made from optional pairs.
proof fn lemma_opt_fields(k: Seq<char>, v: Option<Seq<char>>)
    requires
        no_equals(k),
    ensures
        opt_pair(k, v).map_values(|p: Seq<char>| pair_field(p)) == opt_field(k, v),
{
    match v {
        Some(t) => {
            lemma_split_pair(k, t);
            assert(opt_pair(k, v).map_values(|p: Seq<char>| pair_field(p)) =~= opt_field(k, v));
        },
        None => {
            assert(opt_pair(k, v).map_values(|p: Seq<char>| pair_field(p)) =~= opt_field(k, v));
        },
    }
}

/// The fields of an optional text, read under a name.
proof fn lemma_opt_field_value(k: Seq<char>, v: Option<Seq<char>>, name: Seq<char>)
    ensures
        field_value(opt_field(k, v), name) == if v is Some && target(k) == name {
            Some(Json::Str(v.unwrap()))
        } else {
            None
        },
{
    match v {
        Some(t) => {
            let f = opt_field(k, v);
            assert(f.drop_last().len() == 0);
            assert(field_value(f.drop_last(), name) is None);
            assert(f.last() == (k, Json::Array(seq![Json::Str(t)])));
            assert(first_or_null(Json::Array(seq![Json::Str(t)])) == Json::Str(t));
        },
        None => {},
    }
}

/// Metadata written for an asset without a transaction and then reported by
/// git-annex (each `key=value` pair as the field `key` holding `[value]`)
/// reads as that asset again, without its free-form data, which is not
/// written.
pub proof fn law_annex_round_trip(a: AssetView)
    requires
        is_storable(a),
        a.transaction is None,
    ensures
        annex_decode(annex_record(annex_pairs(a, false))) == Some(AssetView { extra: seq![], ..a }),
{
    reveal_strlit("acceptarium.");
    reveal_strlit("asset_path");
    reveal_strlit("blake3");
    reveal_strlit("extra");
    reveal_strlit("id");
    reveal_strlit("ocr");
    reveal_strlit("source_fname");
    reveal_strlit("transaction");
    reveal_strlit("fields");
    reveal_strlit("=");
    let pre = annex_prefix();
    let o = match asset_json(a) {
        Json::Object(o) => o,
        _ => seq![],
    };
    let k_path = pre + "asset_path"@;
    let k_sum = pre + "blake3"@;
    let k_id = pre + "id"@;
    let k_ocr = "ocr"@;
    let k_src = pre + "source_fname"@;
    let t_path = opt_text(path_json(a.asset_path));
    let t_sum = opt_text(sum_json(a.blake3));
    let t_ocr = opt_text(text_json(a.ocr));
    let t_src = opt_text(path_json(a.source_fname));
    // The pairs written.
    assert(o.len() == 7);
    assert(o[2].0 == "extra"@ && o[0].0 != "extra"@ && o[1].0 != "extra"@ && o[3].0 != "extra"@);
    assert(o[4].0 != "extra"@ && o[5].0 != "extra"@ && o[6].0 != "extra"@);
    assert(o[6].1 == Json::Null);
    lemma_meta_simple("asset_path"@, o[0].1);
    lemma_meta_simple("blake3"@, o[1].1);
    lemma_meta_simple("id"@, o[3].1);
    lemma_meta_simple("ocr"@, o[4].1);
    lemma_meta_simple("source_fname"@, o[5].1);
    assert("asset_path"@ != "ocr"@ && "blake3"@ != "ocr"@ && "id"@ != "ocr"@ && "source_fname"@ != "ocr"@);
    assert(meta(pre, "transaction"@, Json::Null) == Seq::<Seq<char>>::empty());
    let p0 = opt_pair(k_path, t_path);
    let p1 = opt_pair(k_sum, t_sum);
    let p3 = opt_pair(k_id, Some(a.id));
    let p4 = opt_pair(k_ocr, t_ocr);
    let p5 = opt_pair(k_src, t_src);
    assert(o.take(1).drop_last() =~= o.take(0));
    assert(o.take(2).drop_last() =~= o.take(1));
    assert(o.take(3).drop_last() =~= o.take(2));
    assert(o.take(4).drop_last() =~= o.take(3));
    assert(o.take(5).drop_last() =~= o.take(4));
    assert(o.take(6).drop_last() =~= o.take(5));
    assert(o.take(7).drop_last() =~= o.take(6));
    assert(o.take(7) =~= o);
    assert(meta_top(pre, o.take(0), false) == Seq::<Seq<char>>::empty());
    assert(meta_top(pre, o.take(1), false) == p0);
    assert(meta_top(pre, o.take(2), false) == p0 + p1);
    assert(meta_top(pre, o.take(3), false) == p0 + p1);
    assert(meta_top(pre, o.take(4), false) == p0 + p1 + p3);
    assert(meta_top(pre, o.take(5), false) == p0 + p1 + p3 + p4);
    assert(meta_top(pre, o.take(6), false) == p0 + p1 + p3 + p4 + p5);
    assert(meta_top(pre, o.take(7), false) == p0 + p1 + p3 + p4 + p5);
    let pairs = annex_pairs(a, false);
    assert(pairs == p0 + p1 + p3 + p4 + p5);
    // The fields git-annex reports.
    assert(no_equals(k_path) && no_equals(k_sum) && no_equals(k_id) && no_equals(k_ocr) && no_equals(
        k_src,
    )) by {
        assert forall|i: int| 0 <= i < k_path.len() implies k_path[i] != '=' by {}
        assert forall|i: int| 0 <= i < k_sum.len() implies k_sum[i] != '=' by {}
        assert forall|i: int| 0 <= i < k_id.len() implies k_id[i] != '=' by {}
        assert forall|i: int| 0 <= i < k_ocr.len() implies k_ocr[i] != '=' by {}
        assert forall|i: int| 0 <= i < k_src.len() implies k_src[i] != '=' by {}
    }
    lemma_opt_fields(k_path, t_path);
    lemma_opt_fields(k_sum, t_sum);
    lemma_opt_fields(k_id, Some(a.id));
    lemma_opt_fields(k_ocr, t_ocr);
    lemma_opt_fields(k_src, t_src);
    let f0 = opt_field(k_path, t_path);
    let f1 = opt_field(k_sum, t_sum);
    let f3 = opt_field(k_id, Some(a.id));
    let f4 = opt_field(k_ocr, t_ocr);
    let f5 = opt_field(k_src, t_src);
    let f = f0 + f1 + f3 + f4 + f5;
    assert(pairs.map_values(|p: Seq<char>| pair_field(p)) =~= f) by {
        let m = |p: Seq<char>| pair_field(p);
        assert((p0 + p1).map_values(m) =~= p0.map_values(m) + p1.map_values(m));
        assert((p0 + p1 + p3).map_values(m) =~= (p0 + p1).map_values(m) + p3.map_values(m));
        assert((p0 + p1 + p3 + p4).map_values(m) =~= (p0 + p1 + p3).map_values(m) + p4.map_values(m));
        assert((p0 + p1 + p3 + p4 + p5).map_values(m) =~= (p0 + p1 + p3 + p4).map_values(m)
            + p5.map_values(m));
    }
    assert(pairs.map_values(
        |p: Seq<char>| (split_pair(p).0, Json::Array(seq![Json::Str(split_pair(p).1)])),
    ) =~= pairs.map_values(|p: Seq<char>| pair_field(p)));
    let rec = annex_record(pairs);
    let top = match rec {
        Json::Object(t) => t,
        _ => seq![],
    };
    assert(top.len() == 1 && top[0].0 == "fields"@);
    lemma_key_index(top, "fields"@);
    assert(obj_get(top, "fields"@) == Some(Json::Object(f)));
    // The keys are plain.
    assert(target(k_path) =~= "asset_path"@);
    assert(target(k_sum) =~= "blake3"@);
    assert(target(k_id) =~= "id"@);
    assert(target(k_ocr) == "ocr"@);
    assert(target(k_src) =~= "source_fname"@);
    let names = seq!["asset_path"@, "blake3"@, "id"@, "source_fname"@];
    assert forall|x: int| 0 <= x < 4 implies first_index_of(#[trigger] names[x], '.') == -1 && !is_item_key(
        names[x],
    ) by {
        let n = names[x];
        lemma_first_index_of(n, '.');
        lemma_first_digit_index(n);
        assert(forall|i: int| 0 <= i < n.len() ==> n[i] != '.');
        if first_index_of(n, '.') >= 0 {
            assert(n[first_index_of(n, '.')] == '.');
        }
        if x == 1 {
            assert(!n.contains('_')) by {
                if n.contains('_') {
                    let i = choose|i: int| 0 <= i < n.len() && n[i] == '_';
                    assert(n[i] != '_');
                }
            }
        } else {
            assert(forall|i: int| 0 <= i < n.len() ==> !('0' <= n[i] && n[i] <= '9'));
            if first_digit_index(n) >= 0 {
                assert(crate::text::is_digit(n[first_digit_index(n)]));
            }
        }
    }
    assert(names[0] == "asset_path"@ && names[1] == "blake3"@ && names[2] == "id"@ && names[3]
        == "source_fname"@);
    assert(k_path.subrange(0, pre.len() as int) =~= pre);
    assert(k_sum.subrange(0, pre.len() as int) =~= pre);
    assert(k_id.subrange(0, pre.len() as int) =~= pre);
    assert(k_src.subrange(0, pre.len() as int) =~= pre);
    assert(k_path != pre + "ocr"@ && k_sum != pre + "ocr"@ && k_id != pre + "ocr"@ && k_src != pre
        + "ocr"@) by {
        assert((pre + "ocr"@).len() == 15);
        assert(k_id.len() == 14);
        assert(k_sum.len() == 18);
        assert(k_path.len() == 22);
        assert(k_src.len() == 24);
    }
    assert(plain_key(k_path) && plain_key(k_sum) && plain_key(k_id) && plain_key(k_ocr) && plain_key(
        k_src,
    ));
    assert(plain_fields(f)) by {
        assert forall|i: int| 0 <= i < f.len() implies plain_key(#[trigger] f[i].0) && one_value(f[i].1) by {
            let k = f[i].0;
            assert(k == k_path || k == k_sum || k == k_id || k == k_ocr || k == k_src) by {
                if i < f0.len() {
                    assert(f[i] == f0[i]);
                } else if i < f0.len() + f1.len() {
                    assert(f[i] == f1[i - f0.len()]);
                } else if i < f0.len() + f1.len() + f3.len() {
                    assert(f[i] == f3[i - f0.len() - f1.len()]);
                } else if i < f0.len() + f1.len() + f3.len() + f4.len() {
                    assert(f[i] == f4[i - f0.len() - f1.len() - f3.len()]);
                } else {
                    assert(f[i] == f5[i - f0.len() - f1.len() - f3.len() - f4.len()]);
                }
            }
            if i < f0.len() {
                assert(f[i] == f0[i]);
            } else if i < f0.len() + f1.len() {
                assert(f[i] == f1[i - f0.len()]);
            } else if i < f0.len() + f1.len() + f3.len() {
                assert(f[i] == f3[i - f0.len() - f1.len()]);
            } else if i < f0.len() + f1.len() + f3.len() + f4.len() {
                assert(f[i] == f4[i - f0.len() - f1.len() - f3.len()]);
            } else {
                assert(f[i] == f5[i - f0.len() - f1.len() - f3.len() - f4.len()]);
            }
        }
    }
    // What each name reads as.
    let all_names = seq!["asset_path"@, "blake3"@, "id"@, "ocr"@, "source_fname"@, "transaction"@, "extra"@];
    assert forall|x: int| 0 <= x < 7 implies #[trigger] obj_get(rebuild(f), all_names[x]) == field_value(
        f,
        all_names[x],
    ) by {
        lemma_rebuild_plain(f, all_names[x]);
    }
    assert forall|x: int| 0 <= x < 7 implies #[trigger] field_value(f, all_names[x]) == {
        let n = all_names[x];
        if n == "asset_path"@ && t_path is Some {
            Some(Json::Str(t_path.unwrap()))
        } else if n == "blake3"@ && t_sum is Some {
            Some(Json::Str(t_sum.unwrap()))
        } else if n == "id"@ {
            Some(Json::Str(a.id))
        } else if n == "ocr"@ && t_ocr is Some {
            Some(Json::Str(t_ocr.unwrap()))
        } else if n == "source_fname"@ && t_src is Some {
            Some(Json::Str(t_src.unwrap()))
        } else {
            None
        }
    } by {
        let n = all_names[x];
        lemma_field_value_concat(f0 + f1 + f3 + f4, f5, n);
        lemma_field_value_concat(f0 + f1 + f3, f4, n);
        lemma_field_value_concat(f0 + f1, f3, n);
        lemma_field_value_concat(f0, f1, n);
        lemma_opt_field_value(k_path, t_path, n);
        lemma_opt_field_value(k_sum, t_sum, n);
        lemma_opt_field_value(k_id, Some(a.id), n);
        lemma_opt_field_value(k_ocr, t_ocr, n);
        lemma_opt_field_value(k_src, t_src, n);
        assert(all_names[0] == "asset_path"@ && all_names[1] == "blake3"@ && all_names[2] == "id"@);
        assert(all_names[3] == "ocr"@ && all_names[4] == "source_fname"@ && all_names[5]
            == "transaction"@ && all_names[6] == "extra"@);
        assert(n[0] != "asset_path"@[0] || n == "asset_path"@);
    }
    let r = rebuild(f);
    assert(all_names[0] == "asset_path"@ && all_names[1] == "blake3"@ && all_names[2] == "id"@);
    assert(all_names[3] == "ocr"@ && all_names[4] == "source_fname"@ && all_names[5] == "transaction"@
        && all_names[6] == "extra"@);
    assert(obj_get(r, all_names[0]) == field_value(f, all_names[0]));
    assert(obj_get(r, all_names[1]) == field_value(f, all_names[1]));
    assert(obj_get(r, all_names[2]) == field_value(f, all_names[2]));
    assert(obj_get(r, all_names[3]) == field_value(f, all_names[3]));
    assert(obj_get(r, all_names[4]) == field_value(f, all_names[4]));
    assert(obj_get(r, all_names[5]) == field_value(f, all_names[5]));
    assert(obj_get(r, all_names[6]) == field_value(f, all_names[6]));
    match a.blake3 {
        Some(b) => law_hex_round_trip(b),
        None => {},
    }
    match a.asset_path {
        Some(p) => law_parse_render(p),
        None => {},
    }
    match a.source_fname {
        Some(p) => law_parse_render(p),
        None => {},
    }
}

} // verus!
