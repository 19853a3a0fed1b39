//! Assets (scanned receipts) and their metadata.

use vstd::prelude::*;
use crate::error::Error;
use crate::ident::{
    AssetId, Blake3Sum, decode_hex, is_asset_id, is_hex_digest, law_hex_round_trip, lower_hex,
};
use crate::json::{
    Json, JsonValue, copy_entries, distinct_keys, jv, jv_entries, lemma_jv_entries_ext, lemma_obj_get_at,
    obj_get,
};
use crate::paths::{FsPath, law_parse_render, parse_comps, render, spec_join, valid_comps};
use crate::text::owned;
use crate::transaction::{
    Transaction, TransactionView, get_field, law_transaction_round_trip, opt_jv, ostr, read_text,
    read_text_field,
    transaction_from_json, transaction_json, transaction_view,
};

verus! {

/// The mathematical view of an asset.
pub struct AssetView {
    pub id: Seq<char>,
    pub blake3: Option<Seq<u8>>,
    pub asset_path: Option<Seq<Seq<char>>>,
    pub transaction: Option<TransactionView>,
    pub ocr: Option<Seq<char>>,
    pub source_fname: Option<Seq<Seq<char>>>,
    pub extra: Seq<(Seq<char>, Json)>,
}

/// A tracked asset: its identifier, checksum, where its file lies, the
/// transaction read from it, and any further metadata.
#[derive(Debug)]
pub struct Asset {
    id: AssetId,
    blake3: Option<Blake3Sum>,
    asset_path: Option<FsPath>,
    transaction: Option<Transaction>,
    ocr: Option<String>,
    source_fname: Option<FsPath>,
    extra: Vec<(String, JsonValue)>,
}

pub open spec fn opath(o: Option<FsPath>) -> Option<Seq<Seq<char>>> {
    match o {
        Some(p) => Some(p@),
        None => None,
    }
}

pub open spec fn osum(o: Option<Blake3Sum>) -> Option<Seq<u8>> {
    match o {
        Some(h) => Some(h@),
        None => None,
    }
}

pub open spec fn otx(o: Option<Transaction>) -> Option<TransactionView> {
    match o {
        Some(t) => Some(transaction_view(t)),
        None => None,
    }
}

impl View for Asset {
    type V = AssetView;

    closed spec fn view(&self) -> AssetView {
        AssetView {
            id: self.id@,
            blake3: osum(self.blake3),
            asset_path: opath(self.asset_path),
            transaction: otx(self.transaction),
            ocr: ostr(self.ocr),
            source_fname: opath(self.source_fname),
            extra: jv_entries(self.extra@),
        }
    }
}

/// JSON of an optional path: its text, or null.
pub open spec fn path_json(o: Option<Seq<Seq<char>>>) -> Json {
    match o {
        Some(p) => Json::Str(render(p)),
        None => Json::Null,
    }
}

/// JSON of an optional checksum: its lowercase hex, or null.
pub open spec fn sum_json(o: Option<Seq<u8>>) -> Json {
    match o {
        Some(b) => Json::Str(lower_hex(b)),
        None => Json::Null,
    }
}

/// JSON of an asset, with its keys in sorted order.
pub open spec fn asset_json(a: AssetView) -> Json {
    Json::Object(
        seq![
            ("asset_path"@, path_json(a.asset_path)),
            ("blake3"@, sum_json(a.blake3)),
            ("extra"@, Json::Object(a.extra)),
            ("id"@, Json::Str(a.id)),
            ("ocr"@, crate::transaction::text_json(a.ocr)),
            ("source_fname"@, path_json(a.source_fname)),
            (
                "transaction"@,
                match a.transaction {
                    Some(t) => transaction_json(t),
                    None => Json::Null,
                },
            ),
        ],
    )
}

/// An optional path read from a field: missing or null gives none, a
/// string is read as a path, anything else is refused.
pub open spec fn read_path(f: Option<Json>) -> Option<Option<Seq<Seq<char>>>> {
    match f {
        None => Some(None),
        Some(Json::Null) => Some(None),
        Some(Json::Str(s)) => Some(Some(parse_comps(s))),
        _ => None,
    }
}

/// An optional checksum read from a field: missing or null gives none,
/// 64 hex digits are decoded, anything else is refused.
pub open spec fn read_sum(f: Option<Json>) -> Option<Option<Seq<u8>>> {
    match f {
        None => Some(None),
        Some(Json::Null) => Some(None),
        Some(Json::Str(s)) => if is_hex_digest(s) {
            Some(Some(decode_hex(s)))
        } else {
            None
        },
        _ => None,
    }
}

/// An optional transaction read from a field.
pub open spec fn read_transaction(f: Option<Json>) -> Option<Option<TransactionView>> {
    match f {
        None => Some(None),
        Some(Json::Null) => Some(None),
        Some(j) => match transaction_from_json(j) {
            Some(t) => Some(Some(t)),
            None => None,
        },
    }
}

/// The free-form metadata read from a field: missing gives none, an
/// object gives its entries, anything else is refused.
pub open spec fn read_extra(f: Option<Json>) -> Option<Seq<(Seq<char>, Json)>> {
    match f {
        None => Some(seq![]),
        Some(Json::Object(e)) => Some(e),
        _ => None,
    }
}

/// The identifier read from a field: it must be a well-formed identifier.
pub open spec fn read_id(f: Option<Json>) -> Option<Seq<char>> {
    match f {
        Some(Json::Str(s)) => if is_asset_id(s) {
            Some(s)
        } else {
            None
        },
        _ => None,
    }
}

/// An asset read from JSON, if the JSON describes a valid one. Keys other
/// than the asset's fields are ignored.
pub open spec fn asset_from_json(j: Json) -> Option<AssetView> {
    match j {
        Json::Object(o) => {
            let id = read_id(obj_get(o, "id"@));
            let blake3 = read_sum(obj_get(o, "blake3"@));
            let asset_path = read_path(obj_get(o, "asset_path"@));
            let transaction = read_transaction(obj_get(o, "transaction"@));
            let ocr = read_text(obj_get(o, "ocr"@));
            let source_fname = read_path(obj_get(o, "source_fname"@));
            let extra = read_extra(obj_get(o, "extra"@));
            if id is Some && blake3 is Some && asset_path is Some && transaction is Some && ocr is Some
                && source_fname is Some && extra is Some {
                Some(
                    AssetView {
                        id: id.unwrap(),
                        blake3: blake3.unwrap(),
                        asset_path: asset_path.unwrap(),
                        transaction: transaction.unwrap(),
                        ocr: ocr.unwrap(),
                        source_fname: source_fname.unwrap(),
                        extra: extra.unwrap(),
                    },
                )
            } else {
                None
            }
        },
        _ => None,
    }
}

fn path_to_json(o: &Option<FsPath>) -> (r: JsonValue)
    ensures
        jv(r) == path_json(opath(*o)),
{
    match o {
        Some(p) => JsonValue::String(p.to_text()),
        None => JsonValue::Null,
    }
}

fn read_path_field(f: Option<&JsonValue>) -> (r: Result<Option<FsPath>, ()>)
    ensures
        match r {
            Ok(o) => read_path(opt_jv(f)) == Some(opath(o)),
            Err(_) => read_path(opt_jv(f)) is None,
        },
{
    match f {
        None => Ok(None),
        Some(JsonValue::Null) => Ok(None),
        Some(JsonValue::String(s)) => Ok(Some(FsPath::parse(s.as_str()))),
        Some(_) => Err(()),
    }
}

/// An optional path read from a value (see `read_path`).
pub fn read_path_value(v: &JsonValue) -> (r: Result<Option<FsPath>, Error>)
    ensures
        match r {
            Ok(o) => read_path(Some(jv(*v))) == Some(opath(o)),
            Err(e) => read_path(Some(jv(*v))) is None && e is SerdeJson,
        },
{
    match read_path_field(Some(v)) {
        Ok(p) => Ok(p),
        Err(_) => Err(serde_error("invalid type: expected a path or null")),
    }
}

fn copy_path(o: &Option<FsPath>) -> (r: Option<FsPath>)
    ensures
        opath(r) == opath(*o),
{
    match o {
        Some(p) => Some(p.copy()),
        None => None,
    }
}

fn serde_error(what: &str) -> (r: Error)
    ensures
        r matches Error::SerdeJson { message } && message@ == what@,
{
    Error::SerdeJson { message: owned(what) }
}

impl Asset {
    /// A new asset with a fresh random identifier and the given path,
    /// source file name and checksum; no transaction, text or other data.
    pub fn new(
        asset_path: Option<&FsPath>,
        source_fname: Option<&FsPath>,
        blake3: Option<Blake3Sum>,
    ) -> (r: Result<Asset, Error>)
        ensures
            r matches Ok(a) && is_asset_id(a@.id) && a@.asset_path == opt_ref_path(asset_path)
                && a@.source_fname == opt_ref_path(source_fname) && a@.blake3 == osum(blake3)
                && a@.transaction is None && a@.ocr is None && a@.extra == Seq::<
                (Seq<char>, Json),
            >::empty(),
    {
        let id = AssetId::new();
        let asset_path = match asset_path {
            Some(p) => Some(p.copy()),
            None => None,
        };
        let source_fname = match source_fname {
            Some(p) => Some(p.copy()),
            None => None,
        };
        let extra: Vec<(String, JsonValue)> = Vec::new();
        proof {
            assert(jv_entries(extra@) =~= Seq::<(Seq<char>, Json)>::empty());
        }
        Ok(Asset { id, blake3, asset_path, transaction: None, ocr: None, source_fname, extra })
    }

    /// The identifier.
    pub fn id(&self) -> (r: &AssetId)
        ensures
            r@ == self@.id,
    {
        &self.id
    }

    /// Where the asset's file lies: its recorded path, taken relative to
    /// `project_dir` unless it is absolute.
    pub fn asset_path(&self, project_dir: &FsPath) -> (r: Option<FsPath>)
        ensures
            match self@.asset_path {
                Some(p) => r matches Some(q) && q@ == spec_join(project_dir@, p),
                None => r is None,
            },
    {
        match &self.asset_path {
            Some(p) => {
                if p.is_absolute() {
                    Some(p.copy())
                } else {
                    Some(project_dir.join(p))
                }
            },
            None => None,
        }
    }

    /// The recorded asset path, as stored.
    pub fn stored_asset_path(&self) -> (r: Option<FsPath>)
        ensures
            opath(r) == self@.asset_path,
    {
        copy_path(&self.asset_path)
    }

    /// The name of the file the asset came from.
    pub fn source_fname(&self) -> (r: Option<FsPath>)
        ensures
            opath(r) == self@.source_fname,
    {
        copy_path(&self.source_fname)
    }

    pub fn set_asset_path(&mut self, asset_path: Option<&FsPath>)
        ensures
            final(self)@ == (AssetView { asset_path: opt_ref_path(asset_path), ..old(self)@ }),
    {
        self.asset_path = match asset_path {
            Some(p) => Some(p.copy()),
            None => None,
        };
    }

    pub fn set_source_fname(&mut self, source_fname: Option<&FsPath>)
        ensures
            final(self)@ == (AssetView { source_fname: opt_ref_path(source_fname), ..old(self)@ }),
    {
        self.source_fname = match source_fname {
            Some(p) => Some(p.copy()),
            None => None,
        };
    }

    pub fn blake3(&self) -> (r: Option<Blake3Sum>)
        ensures
            osum(r) == self@.blake3,
    {
        self.blake3
    }

    pub fn set_blake3(&mut self, blake3: Option<Blake3Sum>)
        ensures
            final(self)@ == (AssetView { blake3: osum(blake3), ..old(self)@ }),
    {
        self.blake3 = blake3;
    }

    pub fn ocr(&self) -> (r: Option<&String>)
        ensures
            match r {
                Some(s) => self@.ocr == Some(s@),
                None => self@.ocr is None,
            },
    {
        self.ocr.as_ref()
    }

    pub fn set_ocr(&mut self, ocr: Option<String>)
        ensures
            final(self)@ == (AssetView { ocr: ostr(ocr), ..old(self)@ }),
    {
        self.ocr = ocr;
    }

    pub fn transaction(&self) -> (r: Option<&Transaction>)
        ensures
            match r {
                Some(t) => self@.transaction == Some(transaction_view(*t)),
                None => self@.transaction is None,
            },
    {
        self.transaction.as_ref()
    }

    pub fn set_transaction(&mut self, transaction: Option<Transaction>)
        ensures
            final(self)@ == (AssetView { transaction: otx(transaction), ..old(self)@ }),
    {
        self.transaction = transaction;
    }

    /// An asset with the same content.
    pub fn duplicate(&self) -> (r: Asset)
        ensures
            r@ == self@,
    {
        let transaction = match &self.transaction {
            Some(t) => Some(t.duplicate()),
            None => None,
        };
        Asset {
            id: self.id.duplicate(),
            blake3: self.blake3,
            asset_path: copy_path(&self.asset_path),
            transaction,
            ocr: match &self.ocr {
                Some(s) => Some(s.clone()),
                None => None,
            },
            source_fname: copy_path(&self.source_fname),
            extra: copy_entries(&self.extra),
        }
    }

    /// The JSON form of the asset, keys in sorted order.
    pub fn to_json(&self) -> (r: JsonValue)
        ensures
            jv(r) == asset_json(self@),
            is_storable(self@),
    {
        proof {
            use_type_invariant(&self.id);
            if let Some(h) = &self.blake3 {
                h.lemma_len();
            }
            if let Some(p) = &self.asset_path {
                use_type_invariant(p);
            }
            if let Some(p) = &self.source_fname {
                use_type_invariant(p);
            }
        }
        let blake3 = match &self.blake3 {
            Some(h) => JsonValue::String(h.to_hex()),
            None => JsonValue::Null,
        };
        let ocr = match &self.ocr {
            Some(s) => JsonValue::String(s.clone()),
            None => JsonValue::Null,
        };
        let transaction = match &self.transaction {
            Some(t) => t.to_json(),
            None => JsonValue::Null,
        };
        let mut o: Vec<(String, JsonValue)> = Vec::new();
        o.push(("asset_path".to_owned(), path_to_json(&self.asset_path)));
        o.push(("blake3".to_owned(), blake3));
        o.push(("extra".to_owned(), JsonValue::Object(copy_entries(&self.extra))));
        o.push(("id".to_owned(), JsonValue::String(self.id.to_text())));
        o.push(("ocr".to_owned(), ocr));
        o.push(("source_fname".to_owned(), path_to_json(&self.source_fname)));
        o.push(("transaction".to_owned(), transaction));
        proof {
            match asset_json(self@) {
                Json::Object(target) => {
                    lemma_jv_entries_ext(o@, target);
                },
                _ => {},
            }
        }
        JsonValue::Object(o)
    }

    /// An asset read from JSON.
    pub fn from_json(j: &JsonValue) -> (r: Result<Asset, Error>)
        ensures
            match r {
                Ok(a) => asset_from_json(jv(*j)) == Some(a@),
                Err(e) => asset_from_json(jv(*j)) is None && e is SerdeJson,
            },
    {
        let o = match j {
            JsonValue::Object(o) => o,
            _ => {
                return Err(serde_error("invalid type: expected an asset object"));
            },
        };
        let id = match get_field(o, "id") {
            Some(JsonValue::String(s)) => match AssetId::parse(s.as_str()) {
                Ok(id) => id,
                Err(_) => {
                    return Err(serde_error("invalid asset ID"));
                },
            },
            _ => {
                return Err(serde_error("missing or invalid field `id`"));
            },
        };
        let blake3 = match get_field(o, "blake3") {
            None => None,
            Some(JsonValue::Null) => None,
            Some(JsonValue::String(s)) => match Blake3Sum::from_hex(s.as_str()) {
                Ok(h) => Some(h),
                Err(_) => {
                    return Err(serde_error("invalid checksum in field `blake3`"));
                },
            },
            Some(_) => {
                return Err(serde_error("invalid type for field `blake3`"));
            },
        };
        let asset_path = match read_path_field(get_field(o, "asset_path")) {
            Ok(p) => p,
            Err(_) => {
                return Err(serde_error("invalid type for field `asset_path`"));
            },
        };
        let transaction = match get_field(o, "transaction") {
            None => None,
            Some(JsonValue::Null) => None,
            Some(t) => match Transaction::from_json(t) {
                Ok(t) => Some(t),
                Err(_) => {
                    return Err(serde_error("invalid field `transaction`"));
                },
            },
        };
        let ocr = match read_text_field(get_field(o, "ocr")) {
            Ok(s) => s,
            Err(_) => {
                return Err(serde_error("invalid type for field `ocr`"));
            },
        };
        let source_fname = match read_path_field(get_field(o, "source_fname")) {
            Ok(p) => p,
            Err(_) => {
                return Err(serde_error("invalid type for field `source_fname`"));
            },
        };
        let extra = match get_field(o, "extra") {
            None => {
                let e: Vec<(String, JsonValue)> = Vec::new();
                assert(jv_entries(e@) =~= Seq::<(Seq<char>, Json)>::empty());
                e
            },
            Some(JsonValue::Object(e)) => copy_entries(e),
            Some(_) => {
                return Err(serde_error("invalid type for field `extra`"));
            },
        };
        Ok(Asset { id, blake3, asset_path, transaction, ocr, source_fname, extra })
    }
}

/// The view of an optional borrowed path.
pub open spec fn opt_ref_path(o: Option<&FsPath>) -> Option<Seq<Seq<char>>> {
    match o {
        Some(p) => Some(p@),
        None => None,
    }
}


/// An asset that can be written out and read back: a well-formed
/// identifier, a checksum of 32 bytes, well-formed paths.
pub open spec fn is_storable(a: AssetView) -> bool {
    &&& is_asset_id(a.id)
    &&& (a.blake3 matches Some(b) ==> b.len() == 32)
    &&& (a.asset_path matches Some(p) ==> valid_comps(p))
    &&& (a.source_fname matches Some(p) ==> valid_comps(p))
}

/// Writing an asset as JSON and reading it back gives it again: what a
/// store lists is what it was given to keep.
pub proof fn law_asset_round_trip(a: AssetView)
    requires
        is_storable(a),
    ensures
        asset_from_json(asset_json(a)) == Some(a),
{
    let o = match asset_json(a) {
        Json::Object(o) => o,
        _ => seq![],
    };
    reveal_strlit("asset_path");
    reveal_strlit("blake3");
    reveal_strlit("extra");
    reveal_strlit("id");
    reveal_strlit("ocr");
    reveal_strlit("source_fname");
    reveal_strlit("transaction");
    assert(o.len() == 7);
    assert(o[0].0[0] == 'a' && o[1].0[0] == 'b' && o[2].0[0] == 'e' && o[3].0[0] == 'i');
    assert(o[4].0[0] == 'o' && o[5].0[0] == 's' && o[6].0[0] == 't');
    assert(distinct_keys(o)) by {
        assert forall|x: int, y: int| 0 <= x < y < o.len() implies (#[trigger] o[x]).0 != (
        #[trigger] o[y]).0 by {
            assert(o[x].0[0] != o[y].0[0]);
        }
    }
    lemma_obj_get_at(o, 0);
    lemma_obj_get_at(o, 1);
    lemma_obj_get_at(o, 2);
    lemma_obj_get_at(o, 3);
    lemma_obj_get_at(o, 4);
    lemma_obj_get_at(o, 5);
    lemma_obj_get_at(o, 6);
    match a.blake3 {
        Some(b) => law_hex_round_trip(b),
        None => {},
    }
    match a.asset_path {
        Some(p) => law_parse_render(p),
        None => {},
    }
    match a.source_fname {
        Some(p) => law_parse_render(p),
        None => {},
    }
    match a.transaction {
        Some(t) => law_transaction_round_trip(t),
        None => {},
    }
}

} // verus!
