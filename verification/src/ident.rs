//! Asset identifiers and content checksums.

use vstd::prelude::*;
use crate::error::Error;
use crate::text::owned;

verus! {

/// The number of characters in an asset identifier.
pub const ASSET_ID_LEN: usize = 7;

/// A character an asset identifier may hold: an ASCII letter or digit.
pub open spec fn is_id_char(c: char) -> bool {
    ('0' <= c && c <= '9') || ('a' <= c && c <= 'z') || ('A' <= c && c <= 'Z')
}

/// The number of bytes a character takes in UTF-8.
pub open spec fn utf8_width(c: char) -> nat {
    if (c as u32) < 0x80 {
        1
    } else if (c as u32) < 0x800 {
        2
    } else if (c as u32) < 0x10000 {
        3
    } else {
        4
    }
}

/// The number of bytes a text takes in UTF-8.
pub open spec fn utf8_len(s: Seq<char>) -> nat
    decreases s.len(),
{
    if s.len() == 0 {
        0
    } else {
        utf8_len(s.drop_last()) + utf8_width(s.last())
    }
}

/// Why `s` is no asset identifier: its length in bytes, else its
/// characters.
pub open spec fn invalid_id_message(s: Seq<char>) -> Seq<char> {
    if utf8_len(s) != ASSET_ID_LEN {
        "Asset ID must be exactly 7 characters"@
    } else {
        "Asset ID must only contain alphanumeric characters"@
    }
}

/// A text of ASCII characters takes one byte each; a text takes at least
/// one byte per character.
proof fn lemma_ascii_utf8_len(s: Seq<char>)
    ensures
        utf8_len(s) >= s.len(),
        (forall|i: int| 0 <= i < s.len() ==> is_id_char(#[trigger] s[i])) ==> utf8_len(s) == s.len(),
    decreases s.len(),
{
    if s.len() > 0 {
        lemma_ascii_utf8_len(s.drop_last());
        if forall|i: int| 0 <= i < s.len() ==> is_id_char(#[trigger] s[i]) {
            assert(is_id_char(s[s.len() - 1]));
            assert forall|i: int| 0 <= i < s.drop_last().len() implies is_id_char(#[trigger] s.drop_last()[i]) by {
                assert(s.drop_last()[i] == s[i]);
                assert(is_id_char(s[i]));
            }
        }
    }
}

/// The number of bytes `s` takes in UTF-8.
fn utf8_length(s: &str) -> (r: usize)
    ensures
        r == utf8_len(s@) || (r > ASSET_ID_LEN && utf8_len(s@) > ASSET_ID_LEN),
{
    let n = s.unicode_len();
    let mut total: usize = 0;
    let mut i: usize = 0;
    while i < n
        invariant
            n == s@.len(),
            i <= n,
            total == utf8_len(s@.take(i as int)),
            total <= ASSET_ID_LEN + 4,
        decreases n - i,
    {
        let c = s.get_char(i);
        let w: usize = if (c as u32) < 0x80 {
            1
        } else if (c as u32) < 0x800 {
            2
        } else if (c as u32) < 0x10000 {
            3
        } else {
            4
        };
        assert(s@.take(i + 1).drop_last() =~= s@.take(i as int));
        total = total + w;
        i += 1;
        if total > ASSET_ID_LEN {
            proof {
                lemma_utf8_len_prefix(s@, i as int);
            }
            return total;
        }
    }
    assert(s@.take(n as int) =~= s@);
    total
}

/// A text takes at least as many bytes as any of its beginnings.
proof fn lemma_utf8_len_prefix(s: Seq<char>, i: int)
    requires
        0 <= i <= s.len(),
    ensures
        utf8_len(s) >= utf8_len(s.take(i)),
    decreases s.len() - i,
{
    if i < s.len() {
        lemma_utf8_len_prefix(s, i + 1);
        assert(s.take(i + 1).drop_last() =~= s.take(i));
    } else {
        assert(s.take(i) =~= s);
    }
}

/// The text of a well-formed asset identifier.
pub open spec fn is_asset_id(s: Seq<char>) -> bool {
    s.len() == ASSET_ID_LEN && forall|i: int| 0 <= i < s.len() ==> is_id_char(#[trigger] s[i])
}

/// Draws a random identifier of `size` characters from `alphabet`.
/// Trusted: `nanoid::format` with the default random source. Its source
/// pushes characters of `alphabet` until the string holds `size` bytes,
/// which for an ASCII alphabet are `size` characters. It asserts that the
/// alphabet has at most 255 characters. Which characters come out is left
/// unsaid: they are random.
#[verifier::external_body]
fn random_id(alphabet: &[char], size: usize) -> (id: String)
    requires
        1 <= size,
        1 <= alphabet@.len() <= 255,
        forall|i: int| 0 <= i < alphabet@.len() ==> (#[trigger] alphabet@[i] as u32) < 128,
    ensures
        id@.len() == size,
        forall|i: int| 0 <= i < id@.len() ==> alphabet@.contains(#[trigger] id@[i]),
{
    nanoid::format(nanoid::rngs::default, alphabet, size)
}

/// The identifier of an asset: seven ASCII letters or digits.
#[derive(Debug)]
pub struct AssetId {
    id: String,
}

impl View for AssetId {
    type V = Seq<char>;

    closed spec fn view(&self) -> Seq<char> {
        self.id@
    }
}

impl AssetId {
    #[verifier::type_invariant]
    pub(crate) open spec fn inv(&self) -> bool {
        is_asset_id(self@)
    }

    /// A fresh random identifier.
    pub fn new() -> (r: AssetId)
        ensures
            is_asset_id(r@),
    {
        let alphabet: [char; 62] = [
            '0', '1', '2', '3', '4', '5', '6', '7', '8', '9', 'a', 'b', 'c', 'd', 'e', 'f', 'g',
            'h', 'i', 'j', 'k', 'l', 'm', 'n', 'o', 'p', 'q', 'r', 's', 't', 'u', 'v', 'w', 'x',
            'y', 'z', 'A', 'B', 'C', 'D', 'E', 'F', 'G', 'H', 'I', 'J', 'K', 'L', 'M', 'N', 'O',
            'P', 'Q', 'R', 'S', 'T', 'U', 'V', 'W', 'X', 'Y', 'Z',
        ];
        assert(forall|i: int| 0 <= i < 62 ==> is_id_char(#[trigger] alphabet@[i]));
        let id = random_id(alphabet.as_slice(), ASSET_ID_LEN);
        assert forall|i: int| 0 <= i < id@.len() implies is_id_char(#[trigger] id@[i]) by {
            let j = choose|j: int| 0 <= j < 62 && alphabet@[j] == id@[i];
            assert(is_id_char(alphabet@[j]));
        }
        AssetId { id }
    }

    /// The identifier written as `s`: it must be exactly seven characters,
    /// each an ASCII letter or digit.
    pub fn parse(s: &str) -> (r: Result<AssetId, Error>)
        ensures
            match r {
                Ok(id) => id@ == s@ && is_asset_id(s@),
                Err(Error::InvalidAssetId { message }) => !is_asset_id(s@) && message@
                    == invalid_id_message(s@),
                Err(_) => false,
            },
    {
        let n = s.unicode_len();
        if utf8_length(s) != ASSET_ID_LEN {
            proof {
                if is_asset_id(s@) {
                    lemma_ascii_utf8_len(s@);
                }
            }
            return Err(
                Error::InvalidAssetId { message: owned("Asset ID must be exactly 7 characters") },
            );
        }
        let mut i: usize = 0;
        while i < n
            invariant
                n == s@.len(),
                utf8_len(s@) == ASSET_ID_LEN,
                i <= n,
                forall|j: int| 0 <= j < i ==> is_id_char(#[trigger] s@[j]),
            decreases n - i,
        {
            let c = s.get_char(i);
            if !(('0' <= c && c <= '9') || ('a' <= c && c <= 'z') || ('A' <= c && c <= 'Z')) {
                assert(!is_id_char(s@[i as int]));
                let message = owned("Asset ID must only contain alphanumeric characters");
                return Err(Error::InvalidAssetId { message });
            }
            i += 1;
        }
        proof {
            lemma_ascii_utf8_len(s@);
        }
        Ok(AssetId { id: owned(s) })
    }

    /// The text of the identifier.
    pub fn as_str(&self) -> (r: &str)
        ensures
            r@ == self@,
    {
        self.id.as_str()
    }

    /// An owned copy of the text of the identifier.
    pub fn to_text(&self) -> (r: String)
        ensures
            r@ == self@,
    {
        self.id.clone()
    }

    /// An identifier with the same text.
    pub fn duplicate(&self) -> (r: AssetId)
        ensures
            r@ == self@,
    {
        proof {
            use_type_invariant(self);
        }
        AssetId { id: self.id.clone() }
    }

    /// Whether two identifiers have the same text.
    pub fn same(&self, other: &AssetId) -> (r: bool)
        ensures
            r == (self@ == other@),
    {
        self.id == other.id
    }

    /// The identifier written as `s`, as `TryFrom<String>` does it.
    pub fn try_from_string(s: &String) -> (r: Result<AssetId, Error>)
        ensures
            r matches Ok(id) ==> id@ == s@ && is_asset_id(s@),
            r is Err <==> !is_asset_id(s@),
            r matches Err(e) ==> (e matches Error::InvalidAssetId { message } && message@
                == invalid_id_message(s@)),
    {
        AssetId::parse(s.as_str())
    }
}


/// The lowercase hexadecimal digit for `d` (0 to 15).
pub open spec fn hex_digit(d: int) -> char {
    if d < 10 {
        (('0' as int) + d) as char
    } else {
        (('a' as int) + d - 10) as char
    }
}

/// The value of a hexadecimal digit of either case.
pub open spec fn hex_value(c: char) -> Option<int> {
    if '0' <= c && c <= '9' {
        Some(c as int - '0' as int)
    } else if 'a' <= c && c <= 'f' {
        Some(c as int - 'a' as int + 10)
    } else if 'A' <= c && c <= 'F' {
        Some(c as int - 'A' as int + 10)
    } else {
        None
    }
}

/// Lowercase hexadecimal encoding: two digits per byte, high nibble first.
pub open spec fn lower_hex(bytes: Seq<u8>) -> Seq<char> {
    Seq::new(
        2 * bytes.len(),
        |i: int|
            if i % 2 == 0 {
                hex_digit(bytes[i / 2] as int / 16)
            } else {
                hex_digit(bytes[i / 2] as int % 16)
            },
    )
}

/// The text of a checksum: exactly 64 hexadecimal digits of either case.
pub open spec fn is_hex_digest(s: Seq<char>) -> bool {
    s.len() == 64 && forall|i: int| 0 <= i < 64 ==> (#[trigger] hex_value(s[i])) is Some
}

/// The 32 bytes that 64 hexadecimal digits encode.
pub open spec fn decode_hex(s: Seq<char>) -> Seq<u8> {
    Seq::new(
        32,
        |i: int| (16 * hex_value(s[2 * i]).unwrap() + hex_value(s[2 * i + 1]).unwrap()) as u8,
    )
}

/// The BLAKE3 digest of a byte sequence.
pub uninterp spec fn blake3_digest(data: Seq<u8>) -> Seq<u8>;

/// Lowercase hex text of 32 digest bytes.
/// Trusted: `blake3::Hash::to_hex`, whose source writes, for each byte, the
/// digit of its high nibble and then of its low nibble from the table
/// "0123456789abcdef".
#[verifier::external_body]
fn digest_to_hex(bytes: &[u8; 32]) -> (r: String)
    ensures
        r@ == lower_hex(bytes@),
{
    blake3::Hash::from_bytes(*bytes).to_hex().to_string()
}

/// The digest bytes that hexadecimal text encodes.
/// Trusted: `blake3::Hash::from_hex`, whose source accepts exactly 64 bytes,
/// each a digit `0-9`, `a-f` or `A-F`, and makes each byte from two digits,
/// high nibble first. The text of the error it gives is left unsaid.
#[verifier::external_body]
fn digest_from_hex(s: &str) -> (r: Result<[u8; 32], String>)
    ensures
        r is Ok <==> is_hex_digest(s@),
        r matches Ok(b) ==> b@ == decode_hex(s@),
{
    match blake3::Hash::from_hex(s) {
        Ok(h) => Ok(*h.as_bytes()),
        Err(e) => Err(e.to_string()),
    }
}

/// The BLAKE3 checksum of an asset's content.
#[derive(Clone, Copy, Debug)]
pub struct Blake3Sum {
    bytes: [u8; 32],
}

impl View for Blake3Sum {
    type V = Seq<u8>;

    closed spec fn view(&self) -> Seq<u8> {
        self.bytes@
    }
}

impl Blake3Sum {
    /// The checksum with the given digest bytes.
    pub fn new(bytes: [u8; 32]) -> (r: Blake3Sum)
        ensures
            r@ == bytes@,
    {
        Blake3Sum { bytes }
    }

    /// The digest bytes.
    pub fn bytes(&self) -> (r: [u8; 32])
        ensures
            r@ == self@,
    {
        self.bytes
    }

    /// Every checksum has 32 bytes.
    pub proof fn lemma_len(&self)
        ensures
            self@.len() == 32,
    {
    }

    /// The checksum in lowercase hexadecimal, as it is displayed.
    pub fn to_hex(&self) -> (r: String)
        ensures
            r@ == lower_hex(self@),
    {
        digest_to_hex(&self.bytes)
    }

    /// The checksum written in hexadecimal.
    pub fn from_hex(s: &str) -> (r: Result<Blake3Sum, Error>)
        ensures
            r is Ok <==> is_hex_digest(s@),
            r matches Ok(h) ==> h@ == decode_hex(s@),
            r matches Err(e) ==> e is Hash,
    {
        match digest_from_hex(s) {
            Ok(bytes) => Ok(Blake3Sum { bytes }),
            Err(message) => Err(Error::Hash { message }),
        }
    }

    /// Whether two checksums are equal.
    pub fn same(&self, other: &Blake3Sum) -> (r: bool)
        ensures
            r == (self@ == other@),
    {
        let mut i: usize = 0;
        while i < 32
            invariant
                i <= 32,
                self@.len() == 32,
                other@.len() == 32,
                forall|j: int| 0 <= j < i ==> self@[j] == other@[j],
            decreases 32 - i,
        {
            if self.bytes[i] != other.bytes[i] {
                return false;
            }
            i += 1;
        }
        assert(self@ =~= other@);
        true
    }
}

/// An incremental BLAKE3 hasher, with the bytes it has been fed.
pub(crate) struct Blake3Hasher {
    inner: blake3::Hasher,
    fed: Ghost<Seq<u8>>,
}

#[verifier::external_type_specification]
#[verifier::external_body]
pub struct ExBlake3Hasher(blake3::Hasher);

impl Blake3Hasher {
    /// The bytes fed so far.
    pub(crate) closed spec fn fed(&self) -> Seq<u8> {
        self.fed@
    }

    /// A hasher that has been fed nothing.
    /// Trusted: `blake3::Hasher::new`, a fresh hashing state.
    #[verifier::external_body]
    pub(crate) fn new() -> (r: Blake3Hasher)
        ensures
            r.fed() == Seq::<u8>::empty(),
    {
        Blake3Hasher { inner: blake3::Hasher::new(), fed: Ghost(Seq::empty()) }
    }

    /// Feeds `chunk` to the hasher.
    /// Trusted: `blake3::Hasher::update`, which adds its input to the state.
    #[verifier::external_body]
    pub(crate) fn update(&mut self, chunk: &[u8])
        ensures
            final(self).fed() == old(self).fed() + chunk@,
    {
        self.inner.update(chunk);
    }

    /// The checksum of all bytes fed.
    /// Trusted: `blake3::Hasher::finalize`, documented to return the hash of
    /// the input fed so far (the same value `blake3::hash` gives for it).
    #[verifier::external_body]
    pub(crate) fn finalize(&self) -> (r: Blake3Sum)
        ensures
            r@ == blake3_digest(self.fed()),
    {
        Blake3Sum { bytes: *self.inner.finalize().as_bytes() }
    }
}

proof fn lemma_hex_digit_value(d: int)
    requires
        0 <= d < 16,
    ensures
        hex_value(hex_digit(d)) == Some(d),
{
}

/// Decoding the hexadecimal text of a checksum gives back its bytes, and
/// that text is always accepted.
pub proof fn law_hex_round_trip(bytes: Seq<u8>)
    requires
        bytes.len() == 32,
    ensures
        is_hex_digest(lower_hex(bytes)),
        decode_hex(lower_hex(bytes)) == bytes,
{
    let h = lower_hex(bytes);
    assert forall|i: int| 0 <= i < 64 implies (#[trigger] hex_value(h[i])) is Some by {
        if i % 2 == 0 {
            lemma_hex_digit_value(bytes[i / 2] as int / 16);
        } else {
            lemma_hex_digit_value(bytes[i / 2] as int % 16);
        }
    }
    assert forall|i: int| 0 <= i < 32 implies #[trigger] decode_hex(h)[i] == bytes[i] by {
        let b = bytes[i] as int;
        assert((2 * i) % 2 == 0);
        assert((2 * i + 1) % 2 == 1);
        assert((2 * i) / 2 == i);
        assert((2 * i + 1) / 2 == i);
        lemma_hex_digit_value(b / 16);
        lemma_hex_digit_value(b % 16);
        assert(16 * (b / 16) + b % 16 == b);
    }
    assert(decode_hex(h) =~= bytes);
}
} // verus!
