//! Commitment identifiers of operations and contracts, the tagged digest
//! they are made of, and their text forms.

use vstd::prelude::*;
use amplify::hex::{FromHex, ToHex};
use commit_verify::{DigestExt, Sha256};

verus! {

/// Domain tag of genesis commitments, the ASCII text `urn:lnpbp:rgb:genesis:v01#202302`.
pub const GENESIS_TAG: [u8; 32] = [
    117, 114, 110, 58, 108, 110, 112, 98, 112, 58, 114, 103, 98, 58, 103, 101, 110, 101, 115, 105, 115, 58, 118, 48, 49, 35, 50, 48, 50, 51, 48, 50
];

/// Domain tag of state transition commitments, the ASCII text `urn:lnpbp:rgb:transition:v01#32A`.
pub const TRANSITION_TAG: [u8; 32] = [
    117, 114, 110, 58, 108, 110, 112, 98, 112, 58, 114, 103, 98, 58, 116, 114, 97, 110, 115, 105, 116, 105, 111, 110, 58, 118, 48, 49, 35, 51, 50, 65
];

/// Domain tag of state extension commitments, the ASCII text `urn:lnpbp:rgb:extension:v01#2023`.
pub const EXTENSION_TAG: [u8; 32] = [
    117, 114, 110, 58, 108, 110, 112, 98, 112, 58, 114, 103, 98, 58, 101, 120, 116, 101, 110, 115, 105, 111, 110, 58, 118, 48, 49, 35, 50, 48, 50, 51
];

/// Domain tag of state concealment, the ASCII text `urn:lnpbp:lnpbp0007:strict:v01#A`.
pub const CONCEAL_TAG: [u8; 32] = [
    117, 114, 110, 58, 108, 110, 112, 98, 112, 58, 108, 110, 112, 98, 112, 48, 48, 48, 55, 58, 115, 116, 114, 105, 99, 116, 58, 118, 48, 49, 35, 65
];

/// The tagged SHA-256 digest of `msg` under the 32-byte domain tag `tag`.
pub uninterp spec fn tagged_sha256(tag: Seq<u8>, msg: Seq<u8>) -> Seq<u8>;

/// Relies on commit_verify's `Sha256::from_tag`, `input_raw` and `finish`: the
/// digest of `msg` under the domain tag, a function of the two alone.
#[verifier::external_body]
pub(crate) fn tagged_digest(tag: &[u8; 32], msg: &Vec<u8>) -> (r: [u8; 32])
    ensures
        r@ == tagged_sha256(tag@, msg@),
{
    let mut engine = <Sha256 as DigestExt>::from_tag(tag);
    engine.input_raw(msg.as_slice());
    engine.finish()
}

/// Equality of two 32-byte strings.
pub fn bytes32_eq(a: &[u8; 32], b: &[u8; 32]) -> (r: bool)
    ensures
        r == (*a == *b),
        r == (a@ == b@),
{
    let mut i: usize = 0;
    while i < 32
        invariant
            i <= 32,
            forall|j: int| 0 <= j < i ==> a[j] == b[j],
        decreases 32 - i,
    {
        if a[i] != b[i] {
            assert(a@[i as int] != b@[i as int]);
            return false;
        }
        i = i + 1;
    }
    assert(*a =~= *b);
    true
}

/// `a` comes before `b` in lexicographic byte order.
pub open spec fn lex_less(a: Seq<u8>, b: Seq<u8>) -> bool {
    exists|k: int|
        0 <= k < a.len() && k < b.len() && a[k] < b[k] && (forall|j: int| 0 <= j < k ==> a[j] == b[j])
}

/// Lexicographic comparison of two 32-byte strings.
pub fn cmp_bytes32(a: &[u8; 32], b: &[u8; 32]) -> (r: core::cmp::Ordering)
    ensures
        r == core::cmp::Ordering::Equal <==> a@ == b@,
        r == core::cmp::Ordering::Less <==> lex_less(a@, b@),
        r == core::cmp::Ordering::Greater <==> lex_less(b@, a@),
{
    let mut i: usize = 0;
    while i < 32
        invariant
            i <= 32,
            forall|j: int| 0 <= j < i ==> a@[j] == b@[j],
        decreases 32 - i,
    {
        if a[i] < b[i] {
            assert(lex_less(a@, b@));
            assert(!lex_less(b@, a@));
            return core::cmp::Ordering::Less;
        }
        if a[i] > b[i] {
            assert(lex_less(b@, a@));
            assert(!lex_less(a@, b@));
            return core::cmp::Ordering::Greater;
        }
        i = i + 1;
    }
    assert(a@ =~= b@);
    core::cmp::Ordering::Equal
}

/// Lowercase hex digit of a value below sixteen.
pub open spec fn hex_digit(n: u8) -> char {
    if n == 0 { '0' } else if n == 1 { '1' } else if n == 2 { '2' } else if n == 3 { '3' }
    else if n == 4 { '4' } else if n == 5 { '5' } else if n == 6 { '6' } else if n == 7 { '7' }
    else if n == 8 { '8' } else if n == 9 { '9' } else if n == 10 { 'a' } else if n == 11 { 'b' }
    else if n == 12 { 'c' } else if n == 13 { 'd' } else if n == 14 { 'e' } else { 'f' }
}

/// Value of a hex digit of either case, or -1 for any other character.
pub open spec fn hex_value(c: char) -> int {
    if c == '0' { 0 } else if c == '1' { 1 } else if c == '2' { 2 } else if c == '3' { 3 }
    else if c == '4' { 4 } else if c == '5' { 5 } else if c == '6' { 6 } else if c == '7' { 7 }
    else if c == '8' { 8 } else if c == '9' { 9 }
    else if c == 'a' || c == 'A' { 10 } else if c == 'b' || c == 'B' { 11 }
    else if c == 'c' || c == 'C' { 12 } else if c == 'd' || c == 'D' { 13 }
    else if c == 'e' || c == 'E' { 14 } else if c == 'f' || c == 'F' { 15 }
    else { -1 }
}

/// Lowercase hex text of a byte string, two digits per byte, high digit first.
pub open spec fn hex_lower(b: Seq<u8>) -> Seq<char> {
    Seq::new(
        2 * b.len(),
        |i: int| if i % 2 == 0 { hex_digit(b[i / 2] / 16) } else { hex_digit(b[i / 2] % 16) },
    )
}

/// `s` is the text of a 32-byte identifier: 64 hex digits of either case.
pub open spec fn is_hex_id_text(s: Seq<char>) -> bool {
    &&& s.len() == 64
    &&& forall|i: int| 0 <= i < s.len() ==> hex_value(#[trigger] s[i]) >= 0
}

/// `s` spells the bytes `b`, two hex digits per byte, high digit first.
pub open spec fn hex_decodes(s: Seq<char>, b: Seq<u8>) -> bool {
    &&& s.len() == 2 * b.len()
    &&& forall|i: int|
        0 <= i < b.len() ==> #[trigger] b[i] == 16 * hex_value(s[2 * i]) + hex_value(s[2 * i + 1])
}

/// Relies on amplify's `ToHex` for byte slices: two lowercase digits per byte.
#[verifier::external_body]
fn hex_of(b: &[u8; 32]) -> (r: String)
    ensures
        r@ == hex_lower(b@),
{
    b[..].to_hex()
}

/// Relies on amplify's `FromHex` for `[u8; 32]`: it accepts exactly 64 hex
/// digits of either case and decodes each pair of them into a byte.
#[verifier::external_body]
fn bytes_of_hex(s: &str) -> (r: Result<[u8; 32], amplify::hex::Error>)
    ensures
        r is Ok <==> is_hex_id_text(s@),
        r matches Ok(v) ==> hex_decodes(s@, v@),
{
    <[u8; 32]>::from_hex(s)
}

#[verifier::external_type_specification]
#[verifier::external_body]
pub struct ExHexError(amplify::hex::Error);

/// Base-58 text of a contract identifier payload with its checksum, after
/// the readable prefix `rgb:`.
pub uninterp spec fn baid58_text(payload: Seq<u8>) -> Seq<char>;

/// Relies on baid58's `Baid58::with` and its `Display` under the `::^` flags
/// (prefix `rgb:`, payload with its checksum): the text depends on the prefix
/// and the payload alone.
#[verifier::external_body]
fn baid58_of(payload: [u8; 32]) -> (r: String)
    ensures
        r@ == baid58_text(payload@),
        r@.len() > 4,
        r@.subrange(0, 4) == seq!['r', 'g', 'b', ':'],
{
    format!("{::^}", baid58::Baid58::<32>::with("rgb", payload))
}

/// Unique operation identifier: the tagged digest of the operation's
/// commitment encoding.
#[derive(Clone, Copy, PartialEq, Eq, PartialOrd, Ord, Hash, Debug)]
pub struct OpId {
    pub bytes: [u8; 32],
}

/// Unique contract identifier: the identifier of the contract's genesis.
#[derive(Clone, Copy, PartialEq, Eq, PartialOrd, Ord, Hash, Debug)]
pub struct ContractId {
    pub bytes: [u8; 32],
}

impl OpId {
    pub fn from_bytes(bytes: [u8; 32]) -> (r: OpId)
        ensures
            r.bytes == bytes,
    {
        OpId { bytes }
    }

    /// Lowercase hex text of the identifier.
    pub fn to_hex(&self) -> (r: String)
        ensures
            r@ == hex_lower(self.bytes@),
    {
        hex_of(&self.bytes)
    }

    /// Parses 64 hex digits of either case.
    pub fn from_str(s: &str) -> (r: Result<OpId, amplify::hex::Error>)
        ensures
            r is Ok <==> is_hex_id_text(s@),
            r matches Ok(id) ==> hex_decodes(s@, id.bytes@),
    {
        match bytes_of_hex(s) {
            Ok(bytes) => Ok(OpId { bytes }),
            Err(e) => Err(e),
        }
    }
}

impl ContractId {
    pub fn from_bytes(bytes: [u8; 32]) -> (r: ContractId)
        ensures
            r.bytes == bytes,
    {
        ContractId { bytes }
    }

    /// The contract identifier with the same 32 bytes as an operation identifier.
    pub fn from_op_id(id: OpId) -> (r: ContractId)
        ensures
            r.bytes == id.bytes,
    {
        ContractId { bytes: id.bytes }
    }

    /// The 32 bytes that the base-58 text encodes.
    pub fn to_baid58_payload(&self) -> (r: [u8; 32])
        ensures
            r == self.bytes,
    {
        self.bytes
    }

    /// Base-58 text of the identifier with the readable prefix `rgb`.
    pub fn to_baid58_string(&self) -> (r: String)
        ensures
            r@ == baid58_text(self.bytes@),
            r@.len() > 4,
            r@.subrange(0, 4) == seq!['r', 'g', 'b', ':'],
    {
        baid58_of(self.bytes)
    }
}

/// A hex digit read back gives the value it was written from.
proof fn lemma_hex_digit_value(n: u8)
    requires
        n < 16,
    ensures
        hex_value(hex_digit(n)) == n as int,
{
}

/// Lowercase hex text of any 32 bytes is accepted as identifier text, and the
/// only bytes it spells are the bytes it was written from: parsing the text
/// of an identifier gives that identifier back.
pub proof fn lemma_hex_round_trip(b: Seq<u8>, v: Seq<u8>)
    requires
        b.len() == 32,
        hex_decodes(hex_lower(b), v),
    ensures
        is_hex_id_text(hex_lower(b)),
        v == b,
{
    let s = hex_lower(b);
    assert forall|i: int| 0 <= i < s.len() implies hex_value(#[trigger] s[i]) >= 0 by {
        lemma_hex_digit_value(b[i / 2] / 16);
        lemma_hex_digit_value(b[i / 2] % 16);
    }
    assert forall|i: int| 0 <= i < v.len() implies v[i] == b[i] by {
        lemma_hex_digit_value(b[i] / 16);
        lemma_hex_digit_value(b[i] % 16);
        assert(s[2 * i] == hex_digit(b[i] / 16));
        assert(s[2 * i + 1] == hex_digit(b[i] % 16));
        assert(v[i] == 16 * hex_value(s[2 * i]) + hex_value(s[2 * i + 1]));
    }
    assert(v =~= b);
}

/// Every lowercase hex rendering of an identifier parses, and parses to that identifier.
pub proof fn lemma_op_id_text_round_trip(id: OpId, parsed: OpId)
    requires
        hex_decodes(hex_lower(id.bytes@), parsed.bytes@),
    ensures
        is_hex_id_text(hex_lower(id.bytes@)),
        parsed.bytes@ == id.bytes@,
{
    lemma_hex_round_trip(id.bytes@, parsed.bytes@);
}

} // verus!
