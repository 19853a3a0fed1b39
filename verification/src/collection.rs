//! A set of assets keyed by identifier, and the order in which they are
//! listed.

use vstd::prelude::*;
use crate::assets::{Asset, AssetView, asset_json};
use crate::ident::{AssetId, Blake3Sum};
use crate::json::{Json, JsonValue, jv, lemma_jv_entries_ext};
use crate::paths::spec_file_name;

verus! {

broadcast use vstd::seq_lib::group_to_multiset_ensures;

/// Lexicographic order on character sequences, by code point. For UTF-8
/// text this is the order of the bytes too, which is how `str` compares.
pub open spec fn text_le(a: Seq<char>, b: Seq<char>) -> bool
    decreases a.len(),
{
    if a.len() == 0 {
        true
    } else if b.len() == 0 {
        false
    } else if (a[0] as u32) < (b[0] as u32) {
        true
    } else if (a[0] as u32) > (b[0] as u32) {
        false
    } else {
        text_le(a.drop_first(), b.drop_first())
    }
}

pub proof fn lemma_text_le_total(a: Seq<char>, b: Seq<char>)
    ensures
        text_le(a, b) || text_le(b, a),
    decreases a.len(),
{
    if a.len() > 0 && b.len() > 0 && (a[0] as u32) == (b[0] as u32) {
        lemma_text_le_total(a.drop_first(), b.drop_first());
    }
}

pub proof fn lemma_text_le_trans(a: Seq<char>, b: Seq<char>, c: Seq<char>)
    requires
        text_le(a, b),
        text_le(b, c),
    ensures
        text_le(a, c),
    decreases a.len(),
{
    if a.len() > 0 && b.len() > 0 && c.len() > 0 && (a[0] as u32) == (b[0] as u32) && (b[0] as u32)
        == (c[0] as u32) {
        lemma_text_le_trans(a.drop_first(), b.drop_first(), c.drop_first());
    }
}

/// Whether `a` comes before or with `b`, as `str` compares them.
pub fn text_le_exec(a: &str, b: &str) -> (r: bool)
    ensures
        r == text_le(a@, b@),
{
    let n = a.unicode_len();
    let m = b.unicode_len();
    let mut i: usize = 0;
    assert(a@.skip(0) =~= a@);
    assert(b@.skip(0) =~= b@);
    while i < n && i < m
        invariant
            n == a@.len(),
            m == b@.len(),
            i <= n,
            i <= m,
            text_le(a@, b@) == text_le(a@.skip(i as int), b@.skip(i as int)),
        decreases n - i,
    {
        let x = a.get_char(i);
        let y = b.get_char(i);
        assert(a@.skip(i as int)[0] == x);
        assert(b@.skip(i as int)[0] == y);
        if (x as u32) < (y as u32) {
            return true;
        }
        if (x as u32) > (y as u32) {
            return false;
        }
        assert(a@.skip(i as int).drop_first() =~= a@.skip(i + 1));
        assert(b@.skip(i as int).drop_first() =~= b@.skip(i + 1));
        i += 1;
    }
    i == n
}

/// The date of an asset's transaction, if it has one.
pub open spec fn date_of(a: AssetView) -> Option<Seq<char>> {
    match a.transaction {
        Some(t) => t.datetime,
        None => None,
    }
}

/// The file name of the file an asset came from, if known.
pub open spec fn fname_of(a: AssetView) -> Option<Seq<char>> {
    match a.source_fname {
        Some(p) => spec_file_name(p),
        None => None,
    }
}

/// Optional texts in order: none first.
pub open spec fn opt_text_le(a: Option<Seq<char>>, b: Option<Seq<char>>) -> bool {
    match (a, b) {
        (None, _) => true,
        (Some(_), None) => false,
        (Some(x), Some(y)) => text_le(x, y),
    }
}

/// The listing order: assets with a transaction date first, by date; then
/// the others, by the name of their source file (unknown names first).
pub open spec fn listed_before(a: AssetView, b: AssetView) -> bool {
    match (date_of(a), date_of(b)) {
        (Some(x), Some(y)) => text_le(x, y),
        (Some(_), None) => true,
        (None, Some(_)) => false,
        (None, None) => opt_text_le(fname_of(a), fname_of(b)),
    }
}

/// Assets without a transaction are listed by the names of their source
/// files alone: moving either file to another directory, keeping its name,
/// changes nothing; two files of the same name compare equal both ways;
/// and a name whose first character comes earlier is listed first.
pub proof fn law_undated_listed_by_file_name(
    a: AssetView,
    b: AssetView,
    d1: Seq<Seq<char>>,
    d2: Seq<Seq<char>>,
    e1: Seq<Seq<char>>,
    e2: Seq<Seq<char>>,
    n1: Seq<char>,
    n2: Seq<char>,
)
    requires
        a.transaction is None,
        b.transaction is None,
        a.source_fname == Some(d1.push(n1)),
        b.source_fname == Some(d2.push(n2)),
        n1.len() > 0 && n1 != seq!['/'] && n1 != seq!['.'] && n1 != seq!['.', '.'],
        n2.len() > 0 && n2 != seq!['/'] && n2 != seq!['.'] && n2 != seq!['.', '.'],
    ensures
        listed_before(a, b) == listed_before(
            AssetView { source_fname: Some(e1.push(n1)), ..a },
            AssetView { source_fname: Some(e2.push(n2)), ..b },
        ),
        n1 == n2 ==> listed_before(a, b) && listed_before(b, a),
        (n1[0] as u32) < (n2[0] as u32) ==> listed_before(a, b) && !listed_before(b, a),
{
    let a2 = AssetView { source_fname: Some(e1.push(n1)), ..a };
    let b2 = AssetView { source_fname: Some(e2.push(n2)), ..b };
    assert(d1.push(n1).last() == n1);
    assert(d2.push(n2).last() == n2);
    assert(e1.push(n1).last() == n1);
    assert(e2.push(n2).last() == n2);
    assert(fname_of(a) == Some(n1));
    assert(fname_of(b) == Some(n2));
    assert(fname_of(a2) == Some(n1));
    assert(fname_of(b2) == Some(n2));
    lemma_text_le_total(n1, n1);
}

/// Assets with a transaction date come before those without, and among
/// dated ones a date whose first character comes earlier comes first; an
/// undated asset whose source file is unknown comes before an undated one
/// whose source file has a name.
pub proof fn law_dated_listed_first(
    a: AssetView,
    b: AssetView,
    x: Seq<char>,
    y: Seq<char>,
    d: Seq<Seq<char>>,
    n: Seq<char>,
)
    ensures
        (a.transaction matches Some(t) && t.datetime == Some(x)) && (b.transaction is None || (
        b.transaction matches Some(u) && u.datetime is None)) ==> listed_before(a, b)
            && !listed_before(b, a),
        (a.transaction matches Some(t) && t.datetime == Some(x)) && (b.transaction matches Some(u)
            && u.datetime == Some(y)) && x.len() > 0 && y.len() > 0 && (x[0] as u32) < (
        y[0] as u32) ==> listed_before(a, b) && !listed_before(b, a),
        a.transaction is None && b.transaction is None && a.source_fname is None && b.source_fname
            == Some(d.push(n)) && n.len() > 0 && n != seq!['/'] && n != seq!['.'] && n != seq![
            '.',
            '.',
        ] ==> listed_before(a, b) && !listed_before(b, a),
{
    if b.source_fname == Some(d.push(n)) {
        assert(d.push(n).last() == n);
    }
}

pub proof fn lemma_listed_total(a: AssetView, b: AssetView)
    ensures
        listed_before(a, b) || listed_before(b, a),
{
    match (date_of(a), date_of(b)) {
        (Some(x), Some(y)) => lemma_text_le_total(x, y),
        (None, None) => match (fname_of(a), fname_of(b)) {
            (Some(x), Some(y)) => lemma_text_le_total(x, y),
            _ => {},
        },
        _ => {},
    }
}

pub proof fn lemma_listed_trans(a: AssetView, b: AssetView, c: AssetView)
    requires
        listed_before(a, b),
        listed_before(b, c),
    ensures
        listed_before(a, c),
{
    match (date_of(a), date_of(b), date_of(c)) {
        (Some(x), Some(y), Some(z)) => lemma_text_le_trans(x, y, z),
        (None, None, None) => match (fname_of(a), fname_of(b), fname_of(c)) {
            (Some(x), Some(y), Some(z)) => lemma_text_le_trans(x, y, z),
            _ => {},
        },
        _ => {},
    }
}

/// The identifiers of a list of assets are pairwise distinct.
pub open spec fn distinct_ids(s: Seq<AssetView>) -> bool {
    forall|i: int, j: int| 0 <= i < j < s.len() ==> (#[trigger] s[i]).id != (#[trigger] s[j]).id
}

/// Position of the asset with identifier `id`, or -1.
pub open spec fn id_index(s: Seq<AssetView>, id: Seq<char>) -> int
    decreases s.len(),
{
    if s.len() == 0 {
        -1
    } else if s.last().id == id {
        s.len() - 1
    } else {
        id_index(s.drop_last(), id)
    }
}

pub proof fn lemma_id_index(s: Seq<AssetView>, id: Seq<char>)
    ensures
        -1 <= id_index(s, id) < s.len(),
        id_index(s, id) >= 0 ==> s[id_index(s, id)].id == id,
        id_index(s, id) == -1 ==> forall|j: int| 0 <= j < s.len() ==> s[j].id != id,
    decreases s.len(),
{
    if s.len() > 0 && s.last().id != id {
        lemma_id_index(s.drop_last(), id);
        if id_index(s, id) == -1 {
            assert forall|j: int| 0 <= j < s.len() implies s[j].id != id by {
                if j < s.len() - 1 {
                    assert(s.drop_last()[j] == s[j]);
                }
            }
        }
    }
}

/// The views of a list of assets.
pub open spec fn asset_views(v: Seq<Asset>) -> Seq<AssetView> {
    v.map_values(|a: Asset| a@)
}

/// The views of a list of borrowed assets.
pub open spec fn ref_views(v: Seq<&Asset>) -> Seq<AssetView> {
    v.map_values(|a: &Asset| a@)
}

/// `s` is in listing order.
pub open spec fn is_listed(s: Seq<AssetView>) -> bool {
    forall|i: int, j: int| 0 <= i < j < s.len() ==> listed_before(#[trigger] s[i], #[trigger] s[j])
}

/// `m[i]` says whether element `i` of `s` stays; the ones that stay, in order.
pub open spec fn kept(s: Seq<AssetView>, m: Seq<bool>) -> Seq<AssetView>
    decreases s.len(),
{
    if s.len() == 0 || m.len() == 0 {
        seq![]
    } else if m.last() {
        kept(s.drop_last(), m.drop_last()).push(s.last())
    } else {
        kept(s.drop_last(), m.drop_last())
    }
}

/// `f` may have answered `b` for an asset whose view is `v`.
pub open spec fn verdict<F: Fn(&AssetId, &Asset) -> bool>(f: F, v: AssetView, b: bool) -> bool {
    exists|k: &AssetId, a: &Asset| k@ == a@.id && a@ == v && #[trigger] f.ensures((k, a), b)
}

/// The assets known to a storage, at most one per identifier.
#[derive(Debug)]
pub struct Assets {
    items: Vec<Asset>,
}

impl View for Assets {
    type V = Seq<AssetView>;

    closed spec fn view(&self) -> Seq<AssetView> {
        asset_views(self.items@)
    }
}

impl Assets {
    #[verifier::type_invariant]
    closed spec fn inv(&self) -> bool {
        distinct_ids(asset_views(self.items@))
    }

    /// No assets.
    pub fn new() -> (r: Assets)
        ensures
            r@ == Seq::<AssetView>::empty(),
    {
        let r = Assets { items: Vec::new() };
        assert(r@ =~= Seq::<AssetView>::empty());
        r
    }

    /// The number of assets.
    pub fn len(&self) -> (r: usize)
        ensures
            r == self@.len(),
    {
        self.items.len()
    }

    /// Each identifier occurs at most once.
    pub fn distinct(&self) -> (r: bool)
        ensures
            r && distinct_ids(self@),
    {
        proof {
            use_type_invariant(self);
        }
        true
    }

    /// Position of the asset with identifier `id`.
    fn position(&self, id: &AssetId) -> (r: Option<usize>)
        ensures
            match r {
                Some(i) => i == id_index(self@, id@),
                None => id_index(self@, id@) == -1,
            },
    {
        proof {
            lemma_id_index(self@, id@);
        }
        let n = self.items.len();
        let mut i = n;
        while i > 0
            invariant
                n == self@.len(),
                i <= n,
                forall|j: int| i <= j < n ==> self@[j].id != id@,
                -1 <= id_index(self@, id@) < n,
                id_index(self@, id@) >= 0 ==> self@[id_index(self@, id@)].id == id@,
                id_index(self@, id@) == -1 ==> forall|j: int| 0 <= j < n ==> self@[j].id != id@,
            decreases i,
        {
            i -= 1;
            if self.items[i].id().same(id) {
                proof {
                    use_type_invariant(self);
                    let k = id_index(self@, id@);
                    assert(self@[i as int].id == id@);
                    if k >= 0 && k != i {
                        if k < i {
                            assert(self@[k].id != self@[i as int].id);
                        } else {
                            assert(self@[i as int].id != self@[k].id);
                        }
                    }
                }
                return Some(i);
            }
        }
        None
    }

    /// Adds an asset, replacing the one with the same identifier.
    pub fn add(&mut self, asset: Asset)
        ensures
            ({
                let i = id_index(old(self)@, asset@.id);
                if i >= 0 {
                    final(self)@ == old(self)@.update(i, asset@)
                } else {
                    final(self)@ == old(self)@.push(asset@)
                }
            }),
    {
        proof {
            use_type_invariant(&*self);
            lemma_id_index(self@, asset@.id);
        }
        let ghost s0 = self@;
        let ghost a = asset@;
        match self.position(asset.id()) {
            Some(i) => {
                let mut items: Vec<Asset> = Vec::new();
                std::mem::swap(&mut items, &mut self.items);
                items.set(i, asset);
                proof {
                    assert(asset_views(items@) =~= s0.update(i as int, a));
                    assert forall|x: int, y: int| 0 <= x < y < items@.len() implies (
                    #[trigger] asset_views(items@)[x]).id != (#[trigger] asset_views(items@)[y]).id by {
                        assert(s0[x].id != s0[y].id);
                    }
                }
                self.items = items;
            },
            None => {
                let mut items: Vec<Asset> = Vec::new();
                std::mem::swap(&mut items, &mut self.items);
                items.push(asset);
                proof {
                    assert(asset_views(items@) =~= s0.push(a));
                    assert forall|x: int, y: int| 0 <= x < y < items@.len() implies (
                    #[trigger] asset_views(items@)[x]).id != (#[trigger] asset_views(items@)[y]).id by {
                        if y < s0.len() {
                            assert(s0[x].id != s0[y].id);
                        }
                    }
                }
                self.items = items;
            },
        }
    }

    /// Adds an asset, replacing the one with the same identifier.
    pub fn insert(&mut self, asset: Asset)
        ensures
            ({
                let i = id_index(old(self)@, asset@.id);
                if i >= 0 {
                    final(self)@ == old(self)@.update(i, asset@)
                } else {
                    final(self)@ == old(self)@.push(asset@)
                }
            }),
    {
        self.add(asset)
    }

    /// The asset with identifier `id`, if present.
    pub fn get(&self, id: &AssetId) -> (r: Option<&Asset>)
        ensures
            match r {
                Some(a) => id_index(self@, id@) >= 0 && a@ == self@[id_index(self@, id@)],
                None => id_index(self@, id@) == -1,
            },
    {
        proof {
            lemma_id_index(self@, id@);
        }
        match self.position(id) {
            Some(i) => Some(&self.items[i]),
            None => None,
        }
    }

    /// Keeps the assets for which `f` says true, in their order.
    pub fn retain<F: Fn(&AssetId, &Asset) -> bool>(&mut self, f: F)
        requires
            forall|k: &AssetId, a: &Asset| k@ == a@.id ==> #[trigger] f.requires((k, a)),
        ensures
            exists|m: Seq<bool>|
                {
                    &&& m.len() == old(self)@.len()
                    &&& final(self)@ == kept(old(self)@, m)
                    &&& forall|i: int|
                        0 <= i < m.len() ==> #[trigger] verdict(f, old(self)@[i], m[i])
                },
    {
        proof {
            use_type_invariant(&*self);
        }
        let ghost s0 = self@;
        let mut items: Vec<Asset> = Vec::new();
        std::mem::swap(&mut items, &mut self.items);
        let n = items.len();
        let mut out: Vec<Asset> = Vec::new();
        let ghost mut m: Seq<bool> = seq![];
        let mut rest = items;
        let mut i: usize = 0;
        assert(s0.take(0) =~= Seq::<AssetView>::empty());
        while i < n
            invariant
                n == s0.len(),
                i <= n,
                rest@.len() == n - i,
                forall|t: int| 0 <= t < rest@.len() ==> #[trigger] rest@[t]@ == s0[i + t],
                m.len() == i,
                asset_views(out@) == kept(s0.take(i as int), m),
                forall|t: int| 0 <= t < m.len() ==> #[trigger] verdict(f, s0[t], m[t]),
                forall|k: &AssetId, a: &Asset| k@ == a@.id ==> #[trigger] f.requires((k, a)),
                distinct_ids(s0),
            decreases n - i,
        {
            let a = rest.remove(0);
            let k = a.id();
            let keep = f(k, &a);
            proof {
                assert(a@ == s0[i as int]);
                assert(s0.take(i + 1).drop_last() =~= s0.take(i as int));
                let m2 = m.push(keep);
                assert(m2.drop_last() =~= m);
                assert forall|t: int| 0 <= t < m2.len() implies #[trigger] verdict(f, s0[t], m2[t]) by {
                    if t == i {
                        assert(f.ensures((k, &a), m2[t]));
                    } else {
                        assert(m2[t] == m[t]);
                    }
                }
                m = m2;
            }
            if keep {
                let ghost before = out@;
                out.push(a);
                assert(asset_views(out@) =~= asset_views(before).push(s0[i as int]));
            }
            i += 1;
        }
        assert(s0.take(n as int) =~= s0);
        proof {
            lemma_kept_distinct(s0, m);
        }
        self.items = out;
    }

    /// The assets in listing order (see `listed_before`).
    pub fn iter(&self) -> (r: Vec<&Asset>)
        ensures
            is_listed(ref_views(r@)),
            ref_views(r@).to_multiset() == self@.to_multiset(),
    {
        let n = self.items.len();
        let mut out: Vec<&Asset> = Vec::new();
        let mut i: usize = 0;
        assert(self@.take(0) =~= Seq::<AssetView>::empty());
        assert(ref_views(out@) =~= Seq::<AssetView>::empty());
        while i < n
            invariant
                n == self@.len(),
                i <= n,
                is_listed(ref_views(out@)),
                ref_views(out@).to_multiset() == self@.take(i as int).to_multiset(),
            decreases n - i,
        {
            let x = &self.items[i];
            let mut p = out.len();
            while p > 0 && !listed_before_exec(out[p - 1], x)
                invariant
                    p <= out@.len(),
                    is_listed(ref_views(out@)),
                    forall|t: int| p <= t < out@.len() ==> !listed_before(
                        #[trigger] ref_views(out@)[t],
                        x@,
                    ),
                decreases p,
            {
                p -= 1;
            }
            let ghost before = ref_views(out@);
            out.insert(p, x);
            proof {
                assert(ref_views(out@) =~= before.insert(p as int, x@));
                let s = ref_views(out@);
                if p > 0 {
                    assert(listed_before(before[p - 1], x@));
                }
                assert forall|a: int, b: int| 0 <= a < b < s.len() implies listed_before(
                    #[trigger] s[a],
                    #[trigger] s[b],
                ) by {
                    if b < p {
                        assert(s[a] == before[a] && s[b] == before[b]);
                    } else if b == p {
                        assert(s[a] == before[a]);
                        if a < p - 1 {
                            lemma_listed_trans(before[a], before[p - 1], x@);
                        }
                    } else if a == p {
                        assert(s[b] == before[b - 1]);
                        lemma_listed_total(x@, before[b - 1]);
                    } else if a < p {
                        assert(s[a] == before[a] && s[b] == before[b - 1]);
                        if a != b - 1 {
                        }
                    } else {
                        assert(s[a] == before[a - 1] && s[b] == before[b - 1]);
                    }
                }
                assert(self@.take(i + 1) =~= self@.take(i as int).push(x@));
                vstd::seq_lib::to_multiset_insert(before, p as int, x@);
                vstd::seq_lib::to_multiset_build(self@.take(i as int), x@);
            }
            i += 1;
        }
        assert(self@.take(n as int) =~= self@);
        out
    }

    /// All assets as one JSON object, keyed by identifier.
    pub fn to_json_value(&self) -> (r: JsonValue)
        ensures
            jv(r) == Json::Object(
                self@.map_values(|a: AssetView| (a.id, asset_json(a))),
            ),
    {
        let n = self.items.len();
        let mut o: Vec<(String, JsonValue)> = Vec::new();
        let mut i: usize = 0;
        while i < n
            invariant
                n == self@.len(),
                i <= n,
                o@.len() == i,
                forall|t: int|
                    0 <= t < i ==> (#[trigger] o@[t]).0@ == self@[t].id && jv(o@[t].1)
                        == asset_json(self@[t]),
            decreases n - i,
        {
            o.push((self.items[i].id().to_text(), self.items[i].to_json()));
            i += 1;
        }
        proof {
            lemma_jv_entries_ext(o@, self@.map_values(|a: AssetView| (a.id, asset_json(a))));
        }
        JsonValue::Object(o)
    }

    /// Takes the assets out, in their order.
    pub fn into_vec(self) -> (r: Vec<Asset>)
        ensures
            asset_views(r@) == self@,
    {
        self.items
    }
}

proof fn lemma_kept_distinct(s: Seq<AssetView>, m: Seq<bool>)
    requires
        distinct_ids(s),
        m.len() == s.len(),
    ensures
        distinct_ids(kept(s, m)),
        forall|k: int| 0 <= k < kept(s, m).len() ==> s.contains(#[trigger] kept(s, m)[k]),
    decreases s.len(),
{
    if s.len() > 0 {
        let s1 = s.drop_last();
        let m1 = m.drop_last();
        assert(distinct_ids(s1)) by {
            assert forall|i: int, j: int| 0 <= i < j < s1.len() implies (#[trigger] s1[i]).id != (
            #[trigger] s1[j]).id by {
                assert(s[i].id != s[j].id);
            }
        }
        lemma_kept_distinct(s1, m1);
        let k1 = kept(s1, m1);
        assert forall|k: int| 0 <= k < k1.len() implies (#[trigger] k1[k]).id != s.last().id by {
            let w = choose|w: int| 0 <= w < s1.len() && s1[w] == k1[k];
            assert(s[w].id != s[s.len() - 1].id);
        }
        if m.last() {
            let r = k1.push(s.last());
            assert forall|k: int| 0 <= k < r.len() implies s.contains(#[trigger] r[k]) by {
                if k < k1.len() {
                    let w = choose|w: int| 0 <= w < s1.len() && s1[w] == k1[k];
                    assert(s[w] == s1[w]);
                } else {
                    assert(s[s.len() - 1] == r[k]);
                }
            }
        } else {
            assert forall|k: int| 0 <= k < k1.len() implies s.contains(#[trigger] k1[k]) by {
                let w = choose|w: int| 0 <= w < s1.len() && s1[w] == k1[k];
                assert(s[w] == s1[w]);
            }
        }
    }
}

/// Whether `a` comes before or with `b` in listing order.
pub fn listed_before_exec(a: &Asset, b: &Asset) -> (r: bool)
    ensures
        r == listed_before(a@, b@),
{
    let da = match a.transaction() {
        Some(t) => t.datetime.as_ref(),
        None => None,
    };
    let db = match b.transaction() {
        Some(t) => t.datetime.as_ref(),
        None => None,
    };
    match (da, db) {
        (Some(x), Some(y)) => text_le_exec(x.as_str(), y.as_str()),
        (Some(_), None) => true,
        (None, Some(_)) => false,
        (None, None) => {
            let fa = match a.source_fname() {
                Some(p) => p.file_name(),
                None => None,
            };
            let fb = match b.source_fname() {
                Some(p) => p.file_name(),
                None => None,
            };
            match (fa, fb) {
                (None, _) => true,
                (Some(_), None) => false,
                (Some(x), Some(y)) => text_le_exec(x.as_str(), y.as_str()),
            }
        },
    }
}


/// Some asset in `s` has checksum `sum`.
pub open spec fn has_checksum(s: Seq<AssetView>, sum: Seq<u8>) -> bool {
    exists|i: int| 0 <= i < s.len() && (#[trigger] s[i]).blake3 == Some(sum)
}

impl Assets {
    /// Whether some asset has checksum `sum`.
    pub fn any_with_checksum(&self, sum: &Blake3Sum) -> (r: bool)
        ensures
            r == has_checksum(self@, sum@),
    {
        let n = self.items.len();
        let mut i: usize = 0;
        while i < n
            invariant
                n == self@.len(),
                i <= n,
                forall|j: int| 0 <= j < i ==> (#[trigger] self@[j]).blake3 != Some(sum@),
            decreases n - i,
        {
            match self.items[i].blake3() {
                Some(h) => {
                    if h.same(sum) {
                        assert(self@[i as int].blake3 == Some(sum@));
                        return true;
                    }
                },
                None => {},
            }
            i += 1;
        }
        false
    }
}


/// Keeping the elements that a predicate marks is filtering by it.
pub proof fn lemma_kept_filter(s: Seq<AssetView>, m: Seq<bool>, p: spec_fn(AssetView) -> bool)
    requires
        m.len() == s.len(),
        forall|i: int| 0 <= i < s.len() ==> #[trigger] m[i] == p(s[i]),
    ensures
        kept(s, m) == s.filter(p),
    decreases s.len(),
{
    reveal(Seq::filter);
    if s.len() > 0 {
        let s1 = s.drop_last();
        let m1 = m.drop_last();
        assert forall|i: int| 0 <= i < s1.len() implies #[trigger] m1[i] == p(s1[i]) by {
            assert(m1[i] == m[i] && s1[i] == s[i]);
        }
        lemma_kept_filter(s1, m1, p);
        assert(m.last() == m[s.len() - 1]);
    }
}


impl Assets {
    /// The assets in the order they were added.
    pub fn in_order(&self) -> (r: Vec<&Asset>)
        ensures
            r@.len() == self@.len(),
            forall|i: int| 0 <= i < r@.len() ==> (#[trigger] r@[i])@ == self@[i],
    {
        let n = self.items.len();
        let mut out: Vec<&Asset> = Vec::new();
        let mut i: usize = 0;
        while i < n
            invariant
                n == self@.len(),
                i <= n,
                out@.len() == i,
                forall|k: int| 0 <= k < i ==> (#[trigger] out@[k])@ == self@[k],
            decreases n - i,
        {
            out.push(&self.items[i]);
            i += 1;
        }
        out
    }
}


/// The asset with identifier `id` in `s`, if any.
pub open spec fn lookup(s: Seq<AssetView>, id: Seq<char>) -> Option<AssetView> {
    let i = id_index(s, id);
    if i >= 0 {
        Some(s[i])
    } else {
        None
    }
}

/// `s` after adding `a`: it replaces the asset with its identifier, or
/// comes last.
pub open spec fn added(s: Seq<AssetView>, a: AssetView) -> Seq<AssetView> {
    let i = id_index(s, a.id);
    if i >= 0 {
        s.update(i, a)
    } else {
        s.push(a)
    }
}

proof fn lemma_id_index_unique(s: Seq<AssetView>, id: Seq<char>, k: int)
    requires
        distinct_ids(s),
        0 <= k < s.len(),
        s[k].id == id,
    ensures
        id_index(s, id) == k,
{
    lemma_id_index(s, id);
    let i = id_index(s, id);
    if i != k {
        if i < k {
            assert(s[i].id != s[k].id);
        } else {
            assert(s[k].id != s[i].id);
        }
    }
}

/// What is added is found again under its identifier, the assets under
/// other identifiers stay as they were, and identifiers stay distinct.
pub proof fn law_add_then_get(s: Seq<AssetView>, a: AssetView, other: Seq<char>)
    requires
        distinct_ids(s),
        other != a.id,
    ensures
        lookup(added(s, a), a.id) == Some(a),
        lookup(added(s, a), other) == lookup(s, other),
        distinct_ids(added(s, a)),
{
    lemma_id_index(s, a.id);
    lemma_id_index(s, other);
    let i = id_index(s, a.id);
    let s2 = added(s, a);
    assert(distinct_ids(s2)) by {
        assert forall|x: int, y: int| 0 <= x < y < s2.len() implies (#[trigger] s2[x]).id != (
        #[trigger] s2[y]).id by {
            if i >= 0 {
                assert(s[x].id != s[y].id);
            } else if y < s.len() {
                assert(s[x].id != s[y].id);
            }
        }
    }
    if i >= 0 {
        lemma_id_index_unique(s2, a.id, i);
    } else {
        lemma_id_index_unique(s2, a.id, s.len() as int);
    }
    let j = id_index(s, other);
    lemma_id_index(s2, other);
    if j >= 0 {
        assert(s2[j] == s[j]);
        lemma_id_index_unique(s2, other, j);
    } else {
        let j2 = id_index(s2, other);
        if j2 >= 0 {
            if j2 < s.len() {
                assert(s2[j2] == s[j2]);
            }
        }
    }
}


impl Assets {
    /// The identifier of the first asset, in listing order, with checksum
    /// `sum`.
    pub fn first_with_checksum(&self, sum: &Blake3Sum) -> (r: Option<AssetId>)
        ensures
            match r {
                Some(id) => exists|i: int|
                    0 <= i < self@.len() && (#[trigger] self@[i]).blake3 == Some(sum@) && self@[i].id
                        == id@,
                None => !has_checksum(self@, sum@),
            },
    {
        let listed = self.iter();
        let n = listed.len();
        let mut i: usize = 0;
        while i < n
            invariant
                n == listed@.len(),
                i <= n,
                ref_views(listed@).to_multiset() == self@.to_multiset(),
                forall|j: int| 0 <= j < i ==> (#[trigger] listed@[j])@.blake3 != Some(sum@),
            decreases n - i,
        {
            match listed[i].blake3() {
                Some(h) => {
                    if h.same(sum) {
                        proof {
                            let v = listed@[i as int]@;
                            assert(ref_views(listed@)[i as int] == v);
                            assert(ref_views(listed@).to_multiset().count(v) > 0);
                            assert(self@.contains(v));
                        }
                        return Some(listed[i].id().duplicate());
                    }
                },
                None => {},
            }
            i += 1;
        }
        proof {
            if has_checksum(self@, sum@) {
                let k = choose|k: int| 0 <= k < self@.len() && (#[trigger] self@[k]).blake3 == Some(sum@);
                assert(self@.to_multiset().count(self@[k]) > 0);
                assert(ref_views(listed@).contains(self@[k]));
                let j = choose|j: int| 0 <= j < ref_views(listed@).len() && ref_views(listed@)[j] == self@[k];
                assert(listed@[j]@ == ref_views(listed@)[j]);
            }
        }
        None
    }
}

} // verus!
