//! Reading and setting single metadata fields of an asset by name, and the
//! one-line listing of an asset.

use vstd::prelude::*;
use crate::assets::{Asset, AssetView, asset_json, read_path, read_transaction};
use crate::collection::Assets;
use crate::error::Error;
use crate::ident::{Blake3Sum, decode_hex, is_hex_digest, law_hex_round_trip, lower_hex};
use crate::json::{Json, JsonValue, distinct_keys, jv, lemma_obj_get_at, obj_get};
use crate::paths::{law_parse_render, lemma_parse_valid, parse_comps, render};
use crate::text::{owned, push_char, str_eq};
use crate::transaction::{Transaction, law_transaction_round_trip, read_text, read_text_field};

verus! {

/// The fields of an asset that can be named.
pub open spec fn is_field_name(key: Seq<char>) -> bool {
    key == "id"@ || key == "blake3"@ || key == "asset_path"@ || key == "transaction"@ || key
        == "ocr"@ || key == "source_fname"@
}

/// The message for an unknown field.
pub open spec fn is_unknown_key(e: Error, key: Seq<char>) -> bool {
    e matches Error::UnknownMetaKey { key: k } && k@ == key
}

/// The JSON of a named field of an asset, as the asset's JSON holds it.
pub open spec fn field_json(a: AssetView, key: Seq<char>) -> Option<Json> {
    match asset_json(a) {
        Json::Object(o) => if is_field_name(key) {
            obj_get(o, key)
        } else {
            None
        },
        _ => None,
    }
}

/// What setting a field to the text `value` (read as `parsed`) makes of an
/// asset, or none when the value does not fit the field. The identifier
/// cannot be set.
pub open spec fn with_field(a: AssetView, key: Seq<char>, value: Seq<char>, parsed: Json) -> Option<
    AssetView,
> {
    if key == "blake3"@ {
        if is_hex_digest(value) {
            Some(AssetView { blake3: Some(decode_hex(value)), ..a })
        } else {
            None
        }
    } else if key == "asset_path"@ {
        match read_path(Some(parsed)) {
            Some(p) => Some(AssetView { asset_path: p, ..a }),
            None => None,
        }
    } else if key == "source_fname"@ {
        match read_path(Some(parsed)) {
            Some(p) => Some(AssetView { source_fname: p, ..a }),
            None => None,
        }
    } else if key == "transaction"@ {
        match read_transaction(Some(parsed)) {
            Some(t) => Some(AssetView { transaction: t, ..a }),
            None => None,
        }
    } else if key == "ocr"@ {
        match read_text(Some(parsed)) {
            Some(t) => Some(AssetView { ocr: t, ..a }),
            None => None,
        }
    } else {
        None
    }
}

fn unknown_key(key: &str) -> (r: Error)
    ensures
        is_unknown_key(r, key@),
{
    Error::UnknownMetaKey { key: owned(key) }
}

fn is_field(key: &str) -> (r: bool)
    ensures
        r == is_field_name(key@),
{
    str_eq(key, "id") || str_eq(key, "blake3") || str_eq(key, "asset_path") || str_eq(
        key,
        "transaction",
    ) || str_eq(key, "ocr") || str_eq(key, "source_fname")
}

/// The text of an asset's line in a listing: identifier, stored asset
/// path and checksum, separated by tabs (an absent value is empty).
pub open spec fn asset_line(a: AssetView) -> Seq<char> {
    a.id + seq!['\t'] + (match a.asset_path {
        Some(p) => render(p),
        None => seq![],
    }) + seq!['\t'] + (match a.blake3 {
        Some(b) => lower_hex(b),
        None => seq![],
    })
}

/// The listing of assets: one line each, each ending in a newline.
pub open spec fn assets_text(s: Seq<AssetView>) -> Seq<char>
    decreases s.len(),
{
    if s.len() == 0 {
        seq![]
    } else {
        assets_text(s.drop_last()) + asset_line(s.last()) + seq!['\n']
    }
}

/// The text a field's JSON holds, when it is a string.
pub open spec fn json_text_of(j: Json) -> Seq<char> {
    match j {
        Json::Str(t) => t,
        _ => seq![],
    }
}

/// Reading a field after setting it gives back what was stored: the value
/// read, set again, leaves the asset as it is.
pub proof fn law_get_after_set(a: AssetView, key: Seq<char>, value: Seq<char>, parsed: Json)
    requires
        is_field_name(key),
        key != "id"@,
        with_field(a, key, value, parsed) is Some,
    ensures
        ({
            let b = with_field(a, key, value, parsed).unwrap();
            field_json(b, key) matches Some(j) && with_field(b, key, json_text_of(j), j) == Some(b)
        }),
{
    let b = with_field(a, key, value, parsed).unwrap();
    let o = match asset_json(b) {
        Json::Object(o) => o,
        _ => seq![],
    };
    reveal_strlit("asset_path");
    reveal_strlit("blake3");
    reveal_strlit("extra");
    reveal_strlit("id");
    reveal_strlit("ocr");
    reveal_strlit("source_fname");
    reveal_strlit("transaction");
    assert(o.len() == 7);
    assert(o[0].0[0] == 'a' && o[1].0[0] == 'b' && o[2].0[0] == 'e' && o[3].0[0] == 'i');
    assert(o[4].0[0] == 'o' && o[5].0[0] == 's' && o[6].0[0] == 't');
    assert(distinct_keys(o)) by {
        assert forall|x: int, y: int| 0 <= x < y < o.len() implies (#[trigger] o[x]).0 != (
        #[trigger] o[y]).0 by {
            assert(o[x].0[0] != o[y].0[0]);
        }
    }
    lemma_obj_get_at(o, 0);
    lemma_obj_get_at(o, 1);
    lemma_obj_get_at(o, 4);
    lemma_obj_get_at(o, 5);
    lemma_obj_get_at(o, 6);
    if key == "blake3"@ {
        let d = decode_hex(value);
        law_hex_round_trip(d);
        assert(b.blake3 == Some(d));
        assert(AssetView { blake3: Some(decode_hex(lower_hex(d))), ..b } == b);
    } else if key == "asset_path"@ {
        match b.asset_path {
            Some(p) => {
                let s = json_text_of(parsed);
                assert(p == parse_comps(s));
                lemma_parse_valid(s);
                law_parse_render(p);
            },
            None => {},
        }
        assert(AssetView { asset_path: b.asset_path, ..b } == b);
    } else if key == "source_fname"@ {
        match b.source_fname {
            Some(p) => {
                let s = json_text_of(parsed);
                assert(p == parse_comps(s));
                lemma_parse_valid(s);
                law_parse_render(p);
            },
            None => {},
        }
        assert(AssetView { source_fname: b.source_fname, ..b } == b);
    } else if key == "transaction"@ {
        match b.transaction {
            Some(t) => {
                law_transaction_round_trip(t);
            },
            None => {},
        }
        assert(AssetView { transaction: b.transaction, ..b } == b);
    } else {
        assert(key == "ocr"@);
        assert(AssetView { ocr: b.ocr, ..b } == b);
    }
}

impl Asset {
    /// The JSON of the field `key`; an unknown key is refused.
    pub fn get_field(&self, key: &str) -> (r: Result<JsonValue, Error>)
        ensures
            match r {
                Ok(v) => field_json(self@, key@) == Some(jv(v)),
                Err(e) => !is_field_name(key@) && is_unknown_key(e, key@),
            },
    {
        proof {
            reveal_strlit("id");
            reveal_strlit("blake3");
            reveal_strlit("asset_path");
            reveal_strlit("transaction");
            reveal_strlit("ocr");
            reveal_strlit("source_fname");
        }
        if !is_field(key) {
            return Err(unknown_key(key));
        }
        let whole = self.to_json();
        match whole {
            JsonValue::Object(o) => {
                let i = crate::json::find_key(&o, key);
                proof {
                    crate::json::lemma_jv_entries(o@);
                    crate::json::lemma_key_index(crate::json::jv_entries(o@), key@);
                }
                match i {
                    Some(i) => Ok(crate::json::copy_json(&o[i].1)),
                    None => {
                        assert(false);
                        Err(unknown_key(key))
                    },
                }
            },
            _ => {
                assert(false);
                Err(unknown_key(key))
            },
        }
    }

    /// Sets the field `key` from the text `value`, which the caller has
    /// read as `parsed` (as the chosen metadata format reads it, or as a
    /// plain string where that fails). The checksum is read from the text
    /// itself. Unknown keys and the identifier are refused; a value that
    /// does not fit the field is refused, the asset left as it was.
    pub fn set_field(&mut self, key: &str, value: &str, parsed: &JsonValue) -> (r: Result<(), Error>)
        ensures
            !is_field_name(key@) || key@ == "id"@ ==> (r matches Err(e) && is_unknown_key(e, key@)
                && final(self)@ == old(self)@),
            is_field_name(key@) && key@ != "id"@ ==> match with_field(old(self)@, key@, value@, jv(*parsed)) {
                Some(a) => r is Ok && final(self)@ == a,
                None => r is Err && final(self)@ == old(self)@,
            },
            r matches Err(e) ==> e is UnknownMetaKey || e is Hash || e is SerdeJson,
    {
        proof {
            reveal_strlit("id");
            reveal_strlit("blake3");
            reveal_strlit("asset_path");
            reveal_strlit("transaction");
            reveal_strlit("ocr");
            reveal_strlit("source_fname");
        }
        if !is_field(key) {
            return Err(unknown_key(key));
        }
        assert("id"@.len() == 2 && "blake3"@.len() == 6 && "ocr"@.len() == 3);
        assert("asset_path"@.len() == 10 && "transaction"@.len() == 11 && "source_fname"@.len() == 12);
        if str_eq(key, "blake3") {
            let h = Blake3Sum::from_hex(value)?;
            self.set_blake3(Some(h));
            Ok(())
        } else if str_eq(key, "asset_path") {
            match crate::assets::read_path_value(parsed) {
                Ok(p) => {
                    self.set_asset_path(p.as_ref());
                    Ok(())
                },
                Err(e) => Err(e),
            }
        } else if str_eq(key, "source_fname") {
            match crate::assets::read_path_value(parsed) {
                Ok(p) => {
                    self.set_source_fname(p.as_ref());
                    Ok(())
                },
                Err(e) => Err(e),
            }
        } else if str_eq(key, "transaction") {
            match parsed {
                JsonValue::Null => {
                    self.set_transaction(None);
                    Ok(())
                },
                _ => match Transaction::from_json(parsed) {
                    Ok(t) => {
                        self.set_transaction(Some(t));
                        Ok(())
                    },
                    Err(_) => Err(Error::SerdeJson { message: owned("invalid value for field `transaction`") }),
                },
            }
        } else if str_eq(key, "ocr") {
            match read_text_field(Some(parsed)) {
                Ok(t) => {
                    self.set_ocr(t);
                    Ok(())
                },
                Err(_) => Err(Error::SerdeJson { message: owned("invalid type for field `ocr`") }),
            }
        } else {
            Err(unknown_key(key))
        }
    }

    /// The asset's line in a listing (see `asset_line`).
    pub fn line(&self) -> (r: String)
        ensures
            r@ == asset_line(self@),
    {
        let mut out = self.id().to_text();
        push_char(&mut out, '\t');
        match self.stored_asset_path() {
            Some(p) => {
                let t = p.to_text();
                out.append(t.as_str());
            },
            None => {},
        }
        push_char(&mut out, '\t');
        match self.blake3() {
            Some(h) => {
                let t = h.to_hex();
                out.append(t.as_str());
            },
            None => {},
        }
        assert(out@ =~= asset_line(self@));
        out
    }
}

impl Assets {
    /// The listing of the assets, in their order (see `assets_text`).
    pub fn text(&self) -> (r: String)
        ensures
            r@ == assets_text(self@),
    {
        let items = self.in_order();
        let n = items.len();
        let mut out = String::new();
        let mut i: usize = 0;
        assert(self@.take(0) =~= Seq::<AssetView>::empty());
        while i < n
            invariant
                n == self@.len(),
                n == items@.len(),
                i <= n,
                forall|k: int| 0 <= k < n ==> (#[trigger] items@[k])@ == self@[k],
                out@ == assets_text(self@.take(i as int)),
            decreases n - i,
        {
            let l = items[i].line();
            out.append(l.as_str());
            push_char(&mut out, '\n');
            assert(self@.take(i + 1).drop_last() =~= self@.take(i as int));
            assert(self@.take(i + 1).last() == self@[i as int]);
            i += 1;
        }
        assert(self@.take(n as int) =~= self@);
        out
    }
}

} // verus!
