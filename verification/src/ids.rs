//! Identifiers and counters as they are stored and shown.

use vstd::prelude::*;

use crate::bytes::{big_endian, id_from_bytes};
use crate::text::{append, hex, hex_text, lemma_hex_text};

verus! {

/// Why a stored value cannot be used.
#[derive(Clone, Copy, Debug, PartialEq, Eq, Structural)]
pub enum SqlValueError {
    /// The value is larger than a database holds.
    BeyondDurableBound,
    /// The stored value is negative.
    NegativeInState,
    /// The stored identifier has another length.
    IdentifierLength {
        /// Its length.
        length: usize,
    },
    /// The database is of a version that is not known.
    UnsupportedVersion {
        /// The version.
        version: i64,
    },
}

/// A counter as a database stores it.
pub fn to_sql_u64(value: u64) -> (result: Result<i64, SqlValueError>)
    ensures
        match result {
            Ok(stored) => stored == value,
            Err(error) => error == SqlValueError::BeyondDurableBound && value > i64::MAX,
        },
{
    if value > 0x7fff_ffff_ffff_ffff {
        return Err(SqlValueError::BeyondDurableBound);
    }
    Ok(value as i64)
}

/// A counter as a database gives it back.
pub fn from_sql_u64(value: i64) -> (result: Result<u64, SqlValueError>)
    ensures
        match result {
            Ok(counter) => counter == value,
            Err(error) => error == SqlValueError::NegativeInState && value < 0,
        },
{
    if value < 0 {
        return Err(SqlValueError::NegativeInState);
    }
    Ok(value as u64)
}

/// Checks the version of a database: a new one has none.
pub fn check_schema_version(version: i64, supported: i64) -> (result: Result<(), SqlValueError>)
    ensures
        result == if version == 0 || version == supported {
            Ok::<(), SqlValueError>(())
        } else {
            Err::<(), SqlValueError>(SqlValueError::UnsupportedVersion { version })
        },
{
    if version != 0 && version != supported {
        return Err(SqlValueError::UnsupportedVersion { version });
    }
    Ok(())
}

/// The number made of the first bytes of an identifier: all but so many.
pub open spec fn leading(id: nat, dropped: nat) -> nat
    decreases dropped,
{
    if dropped == 0 {
        id
    } else {
        leading(id, (dropped - 1) as nat) / 256
    }
}

/// The sixteen bytes of an identifier, the highest first.
pub open spec fn id_bytes(id: u128) -> Seq<u8> {
    Seq::new(16, |k: int| (leading(id as nat, (15 - k) as nat) % 256) as u8)
}

/// The sixteen bytes of an identifier, the highest first.
pub fn uuid_bytes(id: u128) -> (bytes: [u8; 16])
    ensures
        bytes@ == id_bytes(id),
        big_endian(bytes@) == id,
{
    let mut bytes: [u8; 16] = [0; 16];
    let mut rest: u128 = id;
    let mut i: usize = 16;
    while i > 0
        invariant
            i <= 16,
            rest == leading(id as nat, (16 - i) as nat),
            forall|k: int|
                i <= k < 16 ==> #[trigger] bytes@[k] == leading(id as nat, (15 - k) as nat) % 256,
        decreases i,
    {
        i -= 1;
        bytes[i] = (rest % 256) as u8;
        rest = rest / 256;
    }
    proof {
        stored_identifier_reads_back(id);
        assert(bytes@ =~= id_bytes(id));
    }
    bytes
}

/// An identifier that is stored by its bytes is read back as it was.
pub proof fn stored_identifier_reads_back(id: u128)
    ensures
        id_bytes(id).len() == 16,
        big_endian(id_bytes(id)) == id,
{
    lemma_leading_of_sixteen(id);
    lemma_bytes_make_number(id_bytes(id), id as nat, 16);
    assert(id_bytes(id).take(16) =~= id_bytes(id));
}

proof fn lemma_leading_of_sixteen(id: u128)
    ensures
        leading(id as nat, 16) == 0,
{
    reveal_with_fuel(leading, 17);
    assert(leading(id as nat, 8) <= 0xffff_ffff_ffff_ffff);
}

proof fn lemma_bytes_make_number(bytes: Seq<u8>, id: nat, count: int)
    requires
        bytes.len() == 16,
        0 <= count <= 16,
        leading(id, 16) == 0,
        forall|k: int| 0 <= k < 16 ==> #[trigger] bytes[k] == leading(id, (15 - k) as nat) % 256,
    ensures
        big_endian(bytes.take(count)) == leading(id, (16 - count) as nat),
    decreases count,
{
    if count > 0 {
        lemma_bytes_make_number(bytes, id, count - 1);
        assert(bytes.take(count).drop_last() =~= bytes.take(count - 1));
        let here = leading(id, (16 - count) as nat);
        assert(leading(id, (17 - count) as nat) == here / 256);
        assert(bytes[count - 1] == here % 256);
    } else {
        assert(bytes.take(0) =~= Seq::empty());
    }
}

/// An identifier as a database gives it back.
pub fn decode_uuid(bytes: &[u8]) -> (result: Result<u128, SqlValueError>)
    ensures
        match result {
            Ok(id) => bytes@.len() == 16 && id == big_endian(bytes@),
            Err(error) => bytes@.len() != 16 && error == (SqlValueError::IdentifierLength {
                length: bytes@.len() as usize,
            }),
        },
{
    let length: usize = bytes.len();
    if length != 16 {
        return Err(SqlValueError::IdentifierLength { length });
    }
    let mut whole: [u8; 16] = [0; 16];
    let mut i: usize = 0;
    while i < 16
        invariant
            i <= 16,
            bytes@.len() == 16,
            forall|k: int| 0 <= k < i ==> whole@[k] == bytes@[k],
        decreases 16 - i,
    {
        whole[i] = bytes[i];
        i += 1;
    }
    assert(whole@ =~= bytes@);
    Ok(id_from_bytes(&whole))
}

/// Hexadecimal digits in the groups of an identifier.
pub open spec fn grouped(digits: Seq<char>) -> Seq<char> {
    digits.subrange(0, 8) + "-"@ + digits.subrange(8, 12) + "-"@ + digits.subrange(12, 16) + "-"@
        + digits.subrange(16, 20) + "-"@ + digits.subrange(20, 32)
}

/// An identifier as text: eight, four, four, four and twelve hexadecimal digits.
pub open spec fn id_text(id: u128) -> Seq<char> {
    grouped(hex_text(id_bytes(id)))
}

/// Appends the hexadecimal digits of some bytes.
fn append_hex(text: &mut String, bytes: &[u8; 16], from: usize, to: usize)
    requires
        from <= to <= 16,
    ensures
        final(text)@ == old(text)@ + hex_text(bytes@).subrange(2 * from, 2 * to),
{
    let mut part: Vec<u8> = Vec::new();
    let mut i: usize = from;
    while i < to
        invariant
            from <= i <= to <= 16,
            part@ == bytes@.subrange(from as int, i as int),
        decreases to - i,
    {
        part.push(bytes[i]);
        i += 1;
    }
    let digits = hex(part.as_slice());
    proof {
        lemma_hex_of_part(bytes@, from as int, to as int);
    }
    append(text, digits.as_str());
}

proof fn lemma_hex_of_part(bytes: Seq<u8>, from: int, to: int)
    requires
        0 <= from <= to <= bytes.len(),
    ensures
        hex_text(bytes.subrange(from, to)) == hex_text(bytes).subrange(2 * from, 2 * to),
{
    let part = bytes.subrange(from, to);
    lemma_hex_text(bytes);
    lemma_hex_text(part);
    let whole = hex_text(bytes).subrange(2 * from, 2 * to);
    assert forall|k: int| 0 <= k < 2 * (to - from) implies #[trigger] hex_text(part)[k]
        == whole[k] by {
        let i = k / 2;
        assert(part[i] == bytes[from + i]);
        assert(whole[k] == hex_text(bytes)[2 * from + k]);
        if k % 2 == 0 {
            assert(k == 2 * i);
            assert(hex_text(bytes)[2 * (from + i)] == crate::text::hex_char(
                bytes[from + i] as nat / 16,
            ));
        } else {
            assert(k == 2 * i + 1);
            assert(hex_text(bytes)[2 * (from + i) + 1] == crate::text::hex_char(
                bytes[from + i] as nat % 16,
            ));
        }
    }
    assert(hex_text(part) =~= whole);
}

/// An identifier as text: eight, four, four, four and twelve hexadecimal digits.
pub fn uuid_text(id: u128) -> (text: String)
    ensures
        text@ == id_text(id),
{
    let bytes = uuid_bytes(id);
    let mut text = String::new();
    append_hex(&mut text, &bytes, 0, 4);
    append(&mut text, "-");
    append_hex(&mut text, &bytes, 4, 6);
    append(&mut text, "-");
    append_hex(&mut text, &bytes, 6, 8);
    append(&mut text, "-");
    append_hex(&mut text, &bytes, 8, 10);
    append(&mut text, "-");
    append_hex(&mut text, &bytes, 10, 16);
    assert(text@ =~= grouped(hex_text(bytes@)));
    text
}

} // verus!
