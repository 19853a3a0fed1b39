use acceptarium::assets::Asset;
use acceptarium::collection::Assets;
use acceptarium::error::Error;
use acceptarium::ident::Blake3Sum;
use acceptarium::json::{json_to_text, JsonValue};
use acceptarium::paths::FsPath;
use acceptarium::transaction::Transaction;

fn sum(b: u8) -> Blake3Sum {
    Blake3Sum::new([b; 32])
}

fn dated(date: Option<&str>, fname: Option<&str>) -> Asset {
    let src = fname.map(FsPath::parse);
    let mut a = Asset::new(None, src.as_ref(), None).unwrap();
    if let Some(d) = date {
        a.set_transaction(Some(Transaction {
            payee: None,
            datetime: Some(d.to_string()),
            category: None,
            items: None,
            total: None,
            currency: None,
            invoice_number: None,
            payment_type: None,
            payment_identifier: None,
        }));
    }
    a
}

#[test]
fn add_then_get_returns_the_asset() {
    let mut assets = Assets::new();
    let a = Asset::new(Some(&FsPath::parse("r1.jpg")), None, Some(sum(1))).unwrap();
    let id = a.id().duplicate();
    assets.add(a);
    assert_eq!(assets.len(), 1);
    let got = assets.get(&id).unwrap();
    assert_eq!(got.stored_asset_path().unwrap().to_text(), "r1.jpg");
}

#[test]
fn add_with_same_id_replaces() {
    let mut assets = Assets::new();
    let a = Asset::new(Some(&FsPath::parse("old.jpg")), None, None).unwrap();
    let mut b = a.duplicate();
    b.set_asset_path(Some(&FsPath::parse("new.jpg")));
    let id = a.id().duplicate();
    assets.add(a);
    assets.insert(b);
    assert_eq!(assets.len(), 1);
    assert_eq!(assets.get(&id).unwrap().stored_asset_path().unwrap().to_text(), "new.jpg");
}

#[test]
fn get_unknown_is_none() {
    let assets = Assets::new();
    let id = acceptarium::ident::AssetId::parse("zzzzzzz").unwrap();
    assert!(assets.get(&id).is_none());
}

#[test]
fn iter_lists_dated_first_by_date_then_by_file_name() {
    let mut assets = Assets::new();
    assets.add(dated(None, Some("/x/b.jpg")));
    assets.add(dated(Some("2024-03-01"), None));
    assets.add(dated(None, None));
    assets.add(dated(Some("2023-12-31"), Some("/x/z.jpg")));
    assets.add(dated(None, Some("/x/a.jpg")));
    let listed = assets.iter();
    let keys: Vec<String> = listed
        .iter()
        .map(|a| match a.transaction() {
            Some(t) => t.datetime.clone().unwrap(),
            None => a
                .source_fname()
                .and_then(|p| p.file_name())
                .unwrap_or_else(|| "-".to_string()),
        })
        .collect();
    assert_eq!(keys, vec!["2023-12-31", "2024-03-01", "-", "a.jpg", "b.jpg"]);
}

#[test]
fn retain_keeps_matching_in_order() {
    let mut assets = Assets::new();
    assets.add(dated(Some("2024-01-01"), None));
    assets.add(dated(None, None));
    assets.add(dated(Some("2024-01-02"), None));
    assets.retain(|_id, a| a.transaction().is_some());
    assert_eq!(assets.len(), 2);
    let order: Vec<String> = assets
        .in_order()
        .iter()
        .map(|a| a.transaction().unwrap().datetime.clone().unwrap())
        .collect();
    assert_eq!(order, vec!["2024-01-01", "2024-01-02"]);
}

#[test]
fn checksum_lookup() {
    let mut assets = Assets::new();
    assets.add(Asset::new(None, None, Some(sum(9))).unwrap());
    assert!(assets.any_with_checksum(&sum(9)));
    assert!(!assets.any_with_checksum(&sum(8)));
}

#[test]
fn asset_json_round_trip() {
    let mut a = Asset::new(
        Some(&FsPath::parse("data/r.png")),
        Some(&FsPath::parse("/tmp/r.png")),
        Some(sum(3)),
    )
    .unwrap();
    a.set_ocr(Some("TOTAL 12.50".to_string()));
    let j = a.to_json();
    let b = Asset::from_json(&j).unwrap();
    assert!(b.id().same(a.id()));
    assert_eq!(b.ocr().unwrap(), "TOTAL 12.50");
    assert_eq!(b.source_fname().unwrap().to_text(), "/tmp/r.png");
    assert_eq!(json_to_text(&b.to_json()), json_to_text(&j));
}

#[test]
fn asset_from_json_rejects_bad_id() {
    let j = JsonValue::Object(vec![("id".to_string(), JsonValue::String("nope".to_string()))]);
    assert!(matches!(Asset::from_json(&j), Err(Error::SerdeJson { .. })));
}

#[test]
fn json_text_is_compact_and_escaped() {
    let v = JsonValue::Object(vec![
        ("a".to_string(), JsonValue::Array(vec![JsonValue::Null, JsonValue::Bool(true)])),
        ("b".to_string(), JsonValue::String("q\"\n\u{1}".to_string())),
        ("c".to_string(), JsonValue::Number("1.5".to_string())),
    ]);
    assert_eq!(json_to_text(&v), "{\"a\":[null,true],\"b\":\"q\\\"\\n\\u0001\",\"c\":1.5}");
}

#[test]
fn asset_line_and_listing_text() {
    let a = Asset::new(Some(&FsPath::parse("r.jpg")), None, None).unwrap();
    let line = a.line();
    assert_eq!(line, format!("{}\tr.jpg\t", a.id().as_str()));
    let mut assets = Assets::new();
    assets.add(a);
    assert_eq!(assets.text(), format!("{}\n", line));
}

#[test]
fn get_field_values() {
    let a = Asset::new(Some(&FsPath::parse("r.jpg")), None, None).unwrap();
    match a.get_field("asset_path").unwrap() {
        JsonValue::String(s) => assert_eq!(s, "r.jpg"),
        other => panic!("unexpected {:?}", other),
    }
    assert!(matches!(a.get_field("ocr").unwrap(), JsonValue::Null));
    assert!(matches!(a.get_field("extra"), Err(Error::UnknownMetaKey { .. })));
}

#[test]
fn set_field_rules() {
    let mut a = Asset::new(None, None, None).unwrap();
    let parsed = JsonValue::String("scan.png".to_string());
    a.set_field("asset_path", "scan.png", &parsed).unwrap();
    assert_eq!(a.stored_asset_path().unwrap().to_text(), "scan.png");
    let hex = "ab".repeat(32);
    a.set_field("blake3", &hex, &JsonValue::String(hex.clone())).unwrap();
    assert_eq!(a.blake3().unwrap().to_hex(), hex);
    assert!(matches!(
        a.set_field("blake3", "zz", &JsonValue::String("zz".to_string())),
        Err(Error::Hash { .. })
    ));
    assert!(matches!(
        a.set_field("id", "abcdefg", &JsonValue::String("abcdefg".to_string())),
        Err(Error::UnknownMetaKey { .. })
    ));
    assert!(matches!(
        a.set_field("ocr", "5", &JsonValue::Number("5".to_string())),
        Err(Error::SerdeJson { .. })
    ));
    a.set_field("ocr", "null", &JsonValue::Null).unwrap();
    assert!(a.ocr().is_none());
}

#[test]
fn annex_metadata_pairs() {
    let a = Asset::new(Some(&FsPath::parse("r.jpg")), None, None).unwrap();
    let min = a.to_annex_metadata(true);
    assert_eq!(min, vec![format!("acceptarium.id={}", a.id().as_str())]);
    let full = a.to_annex_metadata(false);
    assert!(full.contains(&"acceptarium.asset_path=r.jpg".to_string()));
    assert!(full.contains(&format!("acceptarium.id={}", a.id().as_str())));
}

#[test]
fn annex_metadata_reads_back_as_the_asset() {
    let mut a = Asset::new(Some(&FsPath::parse("d/r.jpg")), Some(&FsPath::parse("scan=1.jpg")), Some(sum(7))).unwrap();
    a.set_ocr(Some("Total = 12".to_string()));
    let fields: Vec<(String, JsonValue)> = a
        .to_annex_metadata(false)
        .into_iter()
        .map(|p| {
            let (k, v) = p.split_once('=').unwrap();
            (k.to_string(), JsonValue::Array(vec![JsonValue::String(v.to_string())]))
        })
        .collect();
    let record = JsonValue::Object(vec![("fields".to_string(), JsonValue::Object(fields))]);
    let b = Asset::from_annex_metadata_json(&record).unwrap();
    assert_eq!(b.id().as_str(), a.id().as_str());
    assert_eq!(b.stored_asset_path().unwrap().to_text(), "d/r.jpg");
    assert_eq!(b.source_fname().unwrap().to_text(), "scan=1.jpg");
    assert!(b.blake3().unwrap().same(&sum(7)));
    assert_eq!(b.ocr().unwrap(), "Total = 12");
    assert!(b.transaction().is_none());
}
