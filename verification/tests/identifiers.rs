use acceptarium::error::Error;
use acceptarium::ident::{AssetId, Blake3Sum};
use acceptarium::storage::LocalFile;
use acceptarium::paths::FsPath;
use acceptarium::text::basename;

#[test]
fn asset_id_parse_accepts_seven_alphanumerics() {
    let id = AssetId::parse("a1B2c3D").unwrap();
    assert_eq!(id.as_str(), "a1B2c3D");
}

#[test]
fn asset_id_parse_rejects_wrong_length() {
    match AssetId::parse("abc") {
        Err(Error::InvalidAssetId { message }) => {
            assert_eq!(message, "Asset ID must be exactly 7 characters")
        }
        other => panic!("unexpected {:?}", other),
    }
}

#[test]
fn asset_id_parse_rejects_symbols() {
    match AssetId::parse("abc-def") {
        Err(Error::InvalidAssetId { message }) => {
            assert_eq!(message, "Asset ID must only contain alphanumeric characters")
        }
        other => panic!("unexpected {:?}", other),
    }
}

#[test]
fn asset_id_length_counts_bytes() {
    match AssetId::parse("abcde\u{e9}") {
        Err(Error::InvalidAssetId { message }) => {
            assert_eq!(message, "Asset ID must only contain alphanumeric characters")
        }
        other => panic!("unexpected {:?}", other),
    }
    match AssetId::parse("abcdef\u{e9}") {
        Err(Error::InvalidAssetId { message }) => {
            assert_eq!(message, "Asset ID must be exactly 7 characters")
        }
        other => panic!("unexpected {:?}", other),
    }
}

#[test]
fn asset_id_new_is_accepted_by_parse() {
    for _ in 0..20 {
        let id = AssetId::new();
        assert_eq!(id.as_str().chars().count(), 7);
        let again = AssetId::parse(id.as_str()).unwrap();
        assert!(again.same(&id));
    }
}

#[test]
fn checksum_hex_round_trip() {
    let mut bytes = [0u8; 32];
    for (i, b) in bytes.iter_mut().enumerate() {
        *b = (i * 7) as u8;
    }
    let sum = Blake3Sum::new(bytes);
    let hex = sum.to_hex();
    assert_eq!(hex.len(), 64);
    assert!(hex.starts_with("00070e15"));
    let back = Blake3Sum::from_hex(&hex).unwrap();
    assert!(back.same(&sum));
    let upper = Blake3Sum::from_hex(&hex.to_uppercase()).unwrap();
    assert!(upper.same(&sum));
}

#[test]
fn checksum_from_bad_hex_is_hash_error() {
    assert!(matches!(Blake3Sum::from_hex("xyz"), Err(Error::Hash { .. })));
}

#[test]
fn hasher_digest_of_abc() {
    let sum = LocalFile::compute_blake3(b"abc");
    assert_eq!(
        sum.to_hex(),
        "6437b3ac38465133ffb63b75273a8db548c558465d79db03fd359c6cd5bd9d85"
    );
}

#[test]
fn basename_takes_text_after_last_slash() {
    assert_eq!(basename("a/b/c"), "c");
    assert_eq!(basename("plain"), "plain");
    assert_eq!(basename("dir/"), "");
}

#[test]
fn path_join_and_strip_prefix() {
    let project = FsPath::parse("/home/me/receipts");
    let rel = FsPath::parse("data/r1.jpg");
    let full = project.join(&rel);
    assert_eq!(full.to_text(), "/home/me/receipts/data/r1.jpg");
    let back = full.strip_prefix(&project).unwrap();
    assert_eq!(back.to_text(), "data/r1.jpg");
    let abs = FsPath::parse("/elsewhere/x.png");
    assert_eq!(project.join(&abs).to_text(), "/elsewhere/x.png");
}

#[test]
fn path_parts() {
    let p = FsPath::parse("./scans/receipt.tar.gz");
    assert_eq!(p.file_name().unwrap(), "receipt.tar.gz");
    assert_eq!(p.file_stem().unwrap(), "receipt.tar");
    assert_eq!(p.extension().unwrap(), "gz");
    assert_eq!(p.with_extension("json").to_text(), "./scans/receipt.tar.json");
    assert_eq!(p.add_extension("bak").to_text(), "./scans/receipt.tar.gz.bak");
    assert_eq!(p.parent().unwrap().to_text(), "./scans");
    let hidden = FsPath::parse(".profile");
    assert!(hidden.extension().is_none());
}

#[test]
fn path_parse_normalizes_separators() {
    let p = FsPath::parse("a//b/./c/");
    assert_eq!(p.to_text(), "a/b/c");
    assert_eq!(FsPath::parse("/").to_text(), "/");
    assert!(FsPath::parse("/x").is_absolute());
}
