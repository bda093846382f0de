//! Decal assignment: the small number that picks a message's decoration.
//!
//! A message's id is the hexadecimal numeral of a 16-byte big-endian
//! integer. The decal is that integer modulo [`DECAL_COUNT`], so it is a
//! function of the id alone; one sender always gets [`SPECIAL_DECAL`].

use vstd::prelude::*;
use vstd::utf8::{encode_scalar, encode_utf8, is_ascii_chars, is_ascii_chars_encode_utf8};

verus! {

/// Number of ordinary decals.
pub const DECAL_COUNT: u64 = 5;

/// The decal of the special sender.
pub const SPECIAL_DECAL: u64 = 10;

/// Number of bytes in a message id.
pub const ID_BYTES: usize = 16;

/// The name of the sender whose messages always get [`SPECIAL_DECAL`].
pub open spec fn special_sender() -> Seq<char> {
    "Mikururun"@
}

/// Why an id is not the numeral of a 16-byte integer.
#[derive(Clone, Copy, Debug, PartialEq, Eq, Structural)]
pub enum ValidationError {
    /// The byte at `index` of the id, read as the character `c`, is not a
    /// hexadecimal digit.
    InvalidHexCharacter { c: char, index: usize },
    /// The id has an odd number of bytes.
    OddLength,
    /// The id has an even number of bytes, but not twice [`ID_BYTES`].
    InvalidStringLength,
}

/// The value of a hexadecimal digit, in either case.
pub open spec fn hex_digit_value(c: char) -> Option<nat> {
    if '0' <= c <= '9' {
        Some((c as int - '0' as int) as nat)
    } else if 'a' <= c <= 'f' {
        Some((c as int - 'a' as int + 10) as nat)
    } else if 'A' <= c <= 'F' {
        Some((c as int - 'A' as int + 10) as nat)
    } else {
        None
    }
}

/// The digit value or zero.
pub open spec fn digit_or_zero(c: char) -> nat {
    match hex_digit_value(c) {
        Some(v) => v,
        None => 0,
    }
}

/// `id` is made of exactly 32 hexadecimal digits.
pub open spec fn is_hex_id(id: Seq<char>) -> bool {
    &&& id.len() == 2 * ID_BYTES
    &&& forall|i: int| 0 <= i < id.len() ==> hex_digit_value(#[trigger] id[i]) is Some
}

/// The number that the hexadecimal numeral `digits` stands for.
pub open spec fn hex_value(digits: Seq<char>) -> nat
    decreases digits.len(),
{
    if digits.len() == 0 {
        0
    } else {
        hex_value(digits.drop_last()) * 16 + digit_or_zero(digits.last())
    }
}

/// The number that `bytes` stand for, most significant byte first.
pub open spec fn be_value(bytes: Seq<u8>) -> nat
    decreases bytes.len(),
{
    if bytes.len() == 0 {
        0
    } else {
        be_value(bytes.drop_last()) * 256 + bytes.last() as nat
    }
}

/// 256 to the power `n`.
pub open spec fn pow256(n: nat) -> nat
    decreases n,
{
    if n == 0 {
        1
    } else {
        256 * pow256((n - 1) as nat)
    }
}

/// The outcome of decoding the bytes `data` of an id: the 16 bytes that
/// its 32 digits spell, two digits to a byte, or the first thing wrong with
/// it. An odd length is found first, then a wrong length, then the first
/// byte that is not a digit.
pub open spec fn hex_decoded(data: Seq<u8>, r: Result<[u8; 16], ValidationError>) -> bool {
    match r {
        Ok(bytes) => {
            &&& data.len() == 2 * ID_BYTES
            &&& forall|i: int|
                0 <= i < data.len() ==> hex_digit_value(#[trigger] data[i] as char) is Some
            &&& forall|i: int|
                0 <= i < ID_BYTES ==> (#[trigger] bytes@[i]) as nat == 16 * digit_or_zero(
                    data[2 * i] as char,
                ) + digit_or_zero(data[2 * i + 1] as char)
        },
        Err(ValidationError::OddLength) => data.len() % 2 != 0,
        Err(ValidationError::InvalidStringLength) => data.len() % 2 == 0 && data.len() != 2
            * ID_BYTES,
        Err(ValidationError::InvalidHexCharacter { c, index }) => {
            &&& data.len() == 2 * ID_BYTES
            &&& index < data.len()
            &&& c == data[index as int] as char
            &&& hex_digit_value(c) is None
            &&& forall|j: int| 0 <= j < index ==> hex_digit_value(#[trigger] data[j] as char) is Some
        },
    }
}

/// `e` is the first thing wrong with the UTF-8 bytes of `id`.
pub open spec fn id_fault(id: Seq<char>, e: ValidationError) -> bool {
    hex_decoded(encode_utf8(id), Err(e))
}

/// Calls `hex::decode_to_slice` on `data` with a 16-byte buffer. The
/// contract restates that function: it rejects an odd length, then a length
/// other than 32, then the first byte in order that is not a hexadecimal
/// digit (reported with its position), and otherwise fills byte `i` with
/// sixteen times the value of digit `2 i` plus the value of digit `2 i + 1`.
#[verifier::external_body]
fn hex_decode_16(data: &[u8]) -> (r: Result<[u8; 16], ValidationError>)
    ensures
        hex_decoded(data@, r),
{
    let mut out = [0u8; 16];
    match hex::decode_to_slice(data, &mut out) {
        Ok(()) => Ok(out),
        Err(hex::FromHexError::InvalidHexCharacter { c, index }) => Err(
            ValidationError::InvalidHexCharacter { c, index },
        ),
        Err(hex::FromHexError::OddLength) => Err(ValidationError::OddLength),
        Err(hex::FromHexError::InvalidStringLength) => Err(ValidationError::InvalidStringLength),
    }
}

/// A character's code is not negative, and a code up to `0x7f` makes it an
/// ASCII character.
proof fn lemma_char_range(c: char)
    ensures
        '\0' <= c,
        c as u32 <= 0x7f ==> c <= '\u{7f}',
{
}

/// A character above the ASCII range is encoded with a first byte of at
/// least `0x80`; an ASCII character is encoded as itself.
proof fn lemma_first_byte(c: char)
    ensures
        encode_scalar(c as u32).len() >= 1,
        c as u32 <= 0x7f ==> encode_scalar(c as u32) == seq![c as u8],
        c as u32 > 0x7f ==> encode_scalar(c as u32)[0] >= 0x80,
{
    let s = c as u32;
    assert(s <= 0x7f ==> (s & 0x7F) as u8 == s as u8) by (bit_vector);
    assert((0xC0u8 | ((s >> 6) & 0x1F) as u8) >= 0x80) by (bit_vector);
    assert((0xE0u8 | ((s >> 12) & 0x0F) as u8) >= 0x80) by (bit_vector);
    assert((0xF0u8 | ((s >> 18) & 0x7) as u8) >= 0x80) by (bit_vector);
    if s <= 0x7f {
        assert(encode_scalar(s) =~= seq![c as u8]);
    }
}

/// Text whose UTF-8 encoding holds only bytes below `0x80` is ASCII text.
pub proof fn lemma_ascii_bytes_ascii_chars(chars: Seq<char>)
    requires
        forall|i: int| 0 <= i < encode_utf8(chars).len() ==> #[trigger] encode_utf8(chars)[i] < 0x80,
    ensures
        is_ascii_chars(chars),
    decreases chars.len(),
{
    if chars.len() > 0 {
        let head = encode_scalar(chars[0] as u32);
        let rest = encode_utf8(chars.drop_first());
        lemma_first_byte(chars[0]);
        assert(encode_utf8(chars) == head + rest);
        assert(encode_utf8(chars)[0] == head[0]);
        assert(chars[0] as u32 <= 0x7f);
        assert forall|i: int| 0 <= i < rest.len() implies #[trigger] rest[i] < 0x80 by {
            assert(encode_utf8(chars)[i + 1] == rest[i]);
        }
        lemma_ascii_bytes_ascii_chars(chars.drop_first());
        assert forall|i: int| 0 <= i < chars.len() implies '\0' <= #[trigger] chars[i]
            <= '\u{7f}' by {
            lemma_char_range(chars[i]);
            if i > 0 {
                assert(chars.drop_first()[i - 1] == chars[i]);
            }
        }
    }
}

/// An id of 32 hexadecimal digits is encoded digit by digit, and only such
/// an id has an encoding of 32 hexadecimal digits.
pub proof fn lemma_hex_id_bytes(id: Seq<char>)
    ensures
        is_hex_id(id) <==> (encode_utf8(id).len() == 2 * ID_BYTES && forall|i: int|
            0 <= i < encode_utf8(id).len() ==> hex_digit_value(
                #[trigger] encode_utf8(id)[i] as char,
            ) is Some),
        is_hex_id(id) ==> forall|i: int|
            0 <= i < id.len() ==> #[trigger] encode_utf8(id)[i] as char == id[i],
{
    let bytes = encode_utf8(id);
    if is_hex_id(id) {
        assert forall|i: int| 0 <= i < id.len() implies '\0' <= #[trigger] id[i] <= '\u{7f}' by {
            assert(hex_digit_value(id[i]) is Some);
        }
        is_ascii_chars_encode_utf8(id);
        assert forall|i: int| 0 <= i < id.len() implies #[trigger] bytes[i] as char == id[i] by {
            assert(id[i] as u8 == bytes[i]);
        }
        assert forall|i: int| 0 <= i < bytes.len() implies hex_digit_value(
            #[trigger] bytes[i] as char,
        ) is Some by {
            assert(bytes[i] as char == id[i]);
            assert(hex_digit_value(id[i]) is Some);
        }
    }
    if bytes.len() == 2 * ID_BYTES && forall|i: int|
        0 <= i < bytes.len() ==> hex_digit_value(#[trigger] bytes[i] as char) is Some {
        assert forall|i: int| 0 <= i < bytes.len() implies #[trigger] bytes[i] < 0x80 by {
            assert(hex_digit_value(bytes[i] as char) is Some);
        }
        lemma_ascii_bytes_ascii_chars(id);
        is_ascii_chars_encode_utf8(id);
        assert forall|i: int| 0 <= i < id.len() implies hex_digit_value(#[trigger] id[i]) is Some by {
            assert(id[i] as u8 == bytes[i]);
            assert(hex_digit_value(bytes[i] as char) is Some);
            assert(bytes[i] as char == id[i]);
        }
    }
}

/// Bytes that spell a numeral two digits at a time stand for the number
/// that the numeral stands for.
pub proof fn lemma_be_value_of_digits(bytes: Seq<u8>, digits: Seq<char>)
    requires
        digits.len() == 2 * bytes.len(),
        forall|i: int|
            0 <= i < bytes.len() ==> (#[trigger] bytes[i]) as nat == 16 * digit_or_zero(
                digits[2 * i],
            ) + digit_or_zero(digits[2 * i + 1]),
    ensures
        be_value(bytes) == hex_value(digits),
    decreases bytes.len(),
{
    if bytes.len() > 0 {
        let n = bytes.len() as int;
        let shorter = digits.drop_last().drop_last();
        assert(shorter.len() == 2 * (n - 1));
        assert forall|i: int| 0 <= i < n - 1 implies (#[trigger] bytes.drop_last()[i]) as nat == 16
            * digit_or_zero(shorter[2 * i]) + digit_or_zero(shorter[2 * i + 1]) by {
            assert(bytes.drop_last()[i] == bytes[i]);
            assert(shorter[2 * i] == digits[2 * i]);
            assert(shorter[2 * i + 1] == digits[2 * i + 1]);
        }
        lemma_be_value_of_digits(bytes.drop_last(), shorter);
        assert(bytes.last() == bytes[n - 1]);
        assert(digits.last() == digits[2 * (n - 1) + 1]);
        assert(digits.drop_last().last() == digits[2 * (n - 1)]);
        assert(hex_value(digits) == hex_value(digits.drop_last()) * 16 + digit_or_zero(
            digits.last(),
        ));
        assert(hex_value(digits.drop_last()) == hex_value(shorter) * 16 + digit_or_zero(
            digits.drop_last().last(),
        ));
    }
}

/// `n` bytes stand for a number below 256 to the power `n`.
pub proof fn lemma_be_value_bound(bytes: Seq<u8>)
    ensures
        be_value(bytes) < pow256(bytes.len()),
    decreases bytes.len(),
{
    if bytes.len() > 0 {
        lemma_be_value_bound(bytes.drop_last());
    }
}

/// Sixteen bytes stand for a number that fits 128 bits.
pub proof fn lemma_pow256_16()
    ensures
        pow256(16) == 0x1_0000_0000_0000_0000_0000_0000_0000_0000,
{
    reveal_with_fuel(pow256, 17);
}

/// Decodes the 32 hexadecimal digits of an id into its 16 bytes.
///
/// Succeeds exactly on ids of 32 hexadecimal digits; the bytes then stand
/// for the number that the id spells. Otherwise the error is the first
/// thing wrong with the id's UTF-8 bytes.
pub fn decode_id(id: &str) -> (r: Result<[u8; 16], ValidationError>)
    ensures
        r is Ok <==> is_hex_id(id@),
        r matches Ok(bytes) ==> be_value(bytes@) == hex_value(id@),
        r matches Err(e) ==> id_fault(id@, e),
{
    let r = hex_decode_16(id.as_bytes());
    proof {
        lemma_hex_id_bytes(id@);
        match r {
            Ok(bytes) => {
                let data = encode_utf8(id@);
                assert forall|i: int| 0 <= i < ID_BYTES implies (#[trigger] bytes@[i]) as nat == 16
                    * digit_or_zero(id@[2 * i]) + digit_or_zero(id@[2 * i + 1]) by {
                    assert(data[2 * i] as char == id@[2 * i]);
                    assert(data[2 * i + 1] as char == id@[2 * i + 1]);
                }
                lemma_be_value_of_digits(bytes@, id@);
            },
            Err(ValidationError::OddLength) => {},
            Err(ValidationError::InvalidStringLength) => {},
            Err(ValidationError::InvalidHexCharacter { c, index }) => {
                assert(hex_digit_value(encode_utf8(id@)[index as int] as char) is None);
            },
        }
    }
    r
}

/// The number that 16 bytes stand for, most significant byte first.
pub fn id_value(bytes: &[u8; 16]) -> (v: u128)
    ensures
        v == be_value(bytes@),
{
    let mut acc: u128 = 0;
    let mut i: usize = 0;
    proof {
        assert(bytes@.take(0) =~= Seq::<u8>::empty());
    }
    while i < 16
        invariant
            i <= 16,
            bytes@.len() == 16,
            acc == be_value(bytes@.take(i as int)),
        decreases 16 - i,
    {
        proof {
            let next = bytes@.take(i + 1);
            assert(next.drop_last() =~= bytes@.take(i as int));
            assert(next.last() == bytes@[i as int]);
            lemma_be_value_bound(next);
            lemma_pow256_le(next.len(), 16);
            lemma_pow256_16();
        }
        acc = acc * 256 + bytes[i] as u128;
        i = i + 1;
    }
    proof {
        assert(bytes@.take(16) =~= bytes@);
    }
    acc
}

/// Powers of 256 grow with the exponent.
pub proof fn lemma_pow256_le(a: nat, b: nat)
    requires
        a <= b,
    ensures
        pow256(a) <= pow256(b),
    decreases b,
{
    if a < b {
        lemma_pow256_le(a, (b - 1) as nat);
    }
}

/// The decal of a message from `sender_name` with the id `id`: the special
/// decal for the special sender, whatever the id; else the id's number
/// modulo the number of decals, for an id of 32 hexadecimal digits; else
/// nothing.
pub open spec fn decal_of(sender_name: Seq<char>, id: Seq<char>) -> Option<nat> {
    if sender_name == special_sender() {
        Some(SPECIAL_DECAL as nat)
    } else if is_hex_id(id) {
        Some(hex_value(id) % (DECAL_COUNT as nat))
    } else {
        None
    }
}

/// Assigns the decal of a message.
///
/// The result is `Ok` exactly where [`decal_of`] is defined, and is then
/// that number. Otherwise the sender is an ordinary one and the error says
/// what is wrong with the id's UTF-8 bytes.
pub fn decal_variant(sender_name: &str, id: &str) -> (r: Result<u64, ValidationError>)
    ensures
        match r {
            Ok(decal) => decal_of(sender_name@, id@) == Some(decal as nat),
            Err(e) => decal_of(sender_name@, id@) is None && id_fault(id@, e),
        },
{
    if sender_name.eq("Mikururun") {
        Ok(SPECIAL_DECAL)
    } else {
        match decode_id(id) {
            Ok(bytes) => Ok((id_value(&bytes) % (DECAL_COUNT as u128)) as u64),
            Err(e) => Err(e),
        }
    }
}

/// The decal of an ordinary sender's message is a function of the id alone:
/// whoever sent it, an id of 32 hexadecimal digits gives its number modulo
/// the number of decals.
pub proof fn lemma_decal_depends_on_id(sender_a: Seq<char>, sender_b: Seq<char>, id: Seq<char>)
    requires
        sender_a != special_sender(),
        sender_b != special_sender(),
        is_hex_id(id),
    ensures
        decal_of(sender_a, id) == decal_of(sender_b, id),
        decal_of(sender_a, id) == Some(hex_value(id) % (DECAL_COUNT as nat)),
{
}

/// The special sender's decal does not depend on the id, valid or not.
pub proof fn lemma_special_decal_ignores_id(id_a: Seq<char>, id_b: Seq<char>)
    ensures
        decal_of(special_sender(), id_a) == decal_of(special_sender(), id_b),
        decal_of(special_sender(), id_a) == Some(SPECIAL_DECAL as nat),
{
}

/// An id has one outcome: two results that both meet the decoder's
/// contract for the same bytes agree on success, on the bytes and on the
/// error.
pub proof fn lemma_decoding_is_unique(
    data: Seq<u8>,
    a: Result<[u8; 16], ValidationError>,
    b: Result<[u8; 16], ValidationError>,
)
    requires
        hex_decoded(data, a),
        hex_decoded(data, b),
    ensures
        a is Ok <==> b is Ok,
        a is Err ==> a == b,
        a matches Ok(x) ==> (b matches Ok(y) && x@ == y@),
{
    match (a, b) {
        (Ok(x), Ok(y)) => {
            assert(x@.len() == 16 && y@.len() == 16);
            assert forall|i: int| 0 <= i < 16 implies x@[i] == y@[i] by {
                assert(x@[i] as nat == y@[i] as nat);
            }
            assert(x@ =~= y@);
        },
        (
            Err(ValidationError::InvalidHexCharacter { c: c1, index: i1 }),
            Err(ValidationError::InvalidHexCharacter { c: c2, index: i2 }),
        ) => {
            if i1 < i2 {
                assert(hex_digit_value(data[i1 as int] as char) is Some);
            }
            if i2 < i1 {
                assert(hex_digit_value(data[i2 as int] as char) is Some);
            }
        },
        (Ok(_), Err(ValidationError::InvalidHexCharacter { c, index })) => {
            assert(hex_digit_value(data[index as int] as char) is Some);
        },
        (Err(ValidationError::InvalidHexCharacter { c, index }), Ok(_)) => {
            assert(hex_digit_value(data[index as int] as char) is Some);
        },
        _ => {},
    }
}

/// A decal is below the number of decals or is the special decal, and it is
/// the special decal for the special sender only.
pub proof fn lemma_decal_range(sender_name: Seq<char>, id: Seq<char>)
    ensures
        decal_of(sender_name, id) matches Some(d) ==> (d < DECAL_COUNT || d == SPECIAL_DECAL),
        sender_name == special_sender() ==> decal_of(sender_name, id) == Some(SPECIAL_DECAL as nat),
        sender_name != special_sender() ==> (decal_of(sender_name, id) matches Some(d) ==> d
            < DECAL_COUNT),
{
}

} // verus!
