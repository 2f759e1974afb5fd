//! The header of a cartridge: twenty-eight bytes at a fixed place in the
//! image, and the two size tables that the hardware fixes.
use crate::error::DecodeError;
use byteorder::ByteOrder;
use vstd::prelude::*;
use vstd::string::*;

verus! {

/// Where the header begins in an image.
pub const HEADER_START: usize = 0x134;

/// How many bytes the header takes.
pub const HEADER_LEN: usize = 28;

/// The size of one bank of ROM, in bytes.
pub const BANK_SIZE: i32 = 0x4000;

/// The fields of the header, as the image holds them.
#[derive(Debug, Clone, Copy, PartialEq, Eq, Structural)]
pub struct CartridgeMetadata {
    /// The sixteen bytes of the title, read as one number, first byte
    /// highest. The last of them doubles as the colour flag.
    pub title: u128,
    /// Meaningful only where `old_licensee_code` is `0x33`.
    pub new_licensee_code: u16,
    pub sgb: u8,
    pub cartridge_type: u8,
    pub rom_size: u8,
    pub ram_size: u8,
    pub destination_code: u8,
    pub old_licensee_code: u8,
    pub mask_rom_version: u8,
    pub header_checksum: u8,
    pub global_checksum: u16,
}

/// The number that a run of bytes writes, first byte highest.
pub open spec fn be_value(bytes: Seq<u8>) -> nat
    decreases bytes.len(),
{
    if bytes.len() == 0 {
        0
    } else {
        be_value(bytes.drop_last()) * 256 + bytes.last() as nat
    }
}

/// The fields that a window of at least twenty-eight bytes holds.
pub open spec fn header_fields(window: Seq<u8>) -> CartridgeMetadata {
    CartridgeMetadata {
        title: be_value(window.subrange(0, 16)) as u128,
        new_licensee_code: (window[16] * 256 + window[17]) as u16,
        sgb: window[18],
        cartridge_type: window[19],
        rom_size: window[20],
        ram_size: window[21],
        destination_code: window[22],
        old_licensee_code: window[23],
        mask_rom_version: window[24],
        header_checksum: window[25],
        global_checksum: (window[26] * 256 + window[27]) as u16,
    }
}

/// What reading the header of a whole image gives.
pub open spec fn decode(image: Seq<u8>) -> Result<CartridgeMetadata, DecodeError> {
    if image.len() < HEADER_START + HEADER_LEN {
        Err(DecodeError::TruncatedImage)
    } else {
        Ok(header_fields(image.subrange(HEADER_START as int, HEADER_START + HEADER_LEN)))
    }
}

/// The label of a RAM size code, for the six codes that have one.
pub open spec fn ram_label(code: u8) -> Option<Seq<char>> {
    if code == 0x00 {
        Some(seq!['N', 'o', 'n', 'e'])
    } else if code == 0x01 {
        Some(seq!['2', 'k', 'b'])
    } else if code == 0x02 {
        Some(seq!['8', 'k', 'b'])
    } else if code == 0x03 {
        Some(seq!['3', '2', 'k', 'b'])
    } else if code == 0x04 {
        Some(seq!['1', '2', '8', 'k', 'b'])
    } else if code == 0x05 {
        Some(seq!['6', '4', 'k', 'b'])
    } else {
        None
    }
}

/// The number of ROM banks that a ROM size code stands for, for the
/// twelve codes that stand for one.
pub open spec fn rom_banks(code: u8) -> Option<int> {
    if code == 0x00 {
        Some(2)
    } else if code == 0x01 {
        Some(4)
    } else if code == 0x02 {
        Some(8)
    } else if code == 0x03 {
        Some(16)
    } else if code == 0x04 {
        Some(32)
    } else if code == 0x05 {
        Some(64)
    } else if code == 0x06 {
        Some(128)
    } else if code == 0x07 {
        Some(256)
    } else if code == 0x08 {
        Some(512)
    } else if code == 0x52 {
        Some(72)
    } else if code == 0x53 {
        Some(80)
    } else if code == 0x54 {
        Some(96)
    } else {
        None
    }
}

/// The size of the ROM in kilobytes: sixteen for each bank.
pub open spec fn rom_kilobytes(code: u8) -> Option<int> {
    match rom_banks(code) {
        Some(banks) => Some(banks * BANK_SIZE / 1024),
        None => None,
    }
}

/// The fields of a header depend on its twenty-eight bytes and on
/// nothing else: two windows that agree on them hold the same fields.
pub proof fn lemma_header_fields_of_window(a: Seq<u8>, b: Seq<u8>)
    requires
        a.len() >= HEADER_LEN,
        b.len() >= HEADER_LEN,
        a.subrange(0, HEADER_LEN as int) == b.subrange(0, HEADER_LEN as int),
    ensures
        header_fields(a) == header_fields(b),
{
    let window = a.subrange(0, HEADER_LEN as int);
    assert forall|i: int| 0 <= i < HEADER_LEN implies a[i] == b[i] by {
        assert(a[i] == window[i]);
        assert(b[i] == b.subrange(0, HEADER_LEN as int)[i]);
    }
    assert(a.subrange(0, 16) =~= b.subrange(0, 16));
}

/// Reading the header of an image looks at the bytes of the header and
/// at no other: two images long enough to hold a header, with the same
/// bytes in it, give the same fields.
pub proof fn lemma_decode_reads_the_header(a: Seq<u8>, b: Seq<u8>)
    requires
        a.len() >= HEADER_START + HEADER_LEN,
        b.len() >= HEADER_START + HEADER_LEN,
        a.subrange(HEADER_START as int, HEADER_START + HEADER_LEN) == b.subrange(
            HEADER_START as int,
            HEADER_START + HEADER_LEN,
        ),
    ensures
        decode(a) == decode(b),
        decode(a) is Ok,
{
}

/// Reads two bytes as one number, the first the higher, with the
/// `byteorder` crate. `BigEndian::read_u16` looks at the first two bytes of
/// the slice and at no other, and panics on a shorter slice.
#[verifier::external_body]
fn be_u16(buf: &[u8]) -> (r: u16)
    requires
        buf@.len() >= 2,
    ensures
        r == buf@[0] * 256 + buf@[1],
{
    byteorder::BigEndian::read_u16(buf)
}

/// Reads sixteen bytes as one number, the first the highest, with the
/// `byteorder` crate. `BigEndian::read_u128` looks at the first sixteen
/// bytes of the slice and at no other, and panics on a shorter slice.
#[verifier::external_body]
fn be_u128(buf: &[u8]) -> (r: u128)
    requires
        buf@.len() >= 16,
    ensures
        r as nat == be_value(buf@.subrange(0, 16)),
{
    byteorder::BigEndian::read_u128(buf)
}

impl CartridgeMetadata {
    /// Reads the fields of a header from the front of `rdr`, in the order
    /// of the image, the numbers of more than one byte with the first
    /// byte highest. Fewer than twenty-eight bytes are `TruncatedImage`.
    pub fn from_reader(rdr: &[u8]) -> (r: Result<CartridgeMetadata, DecodeError>)
        ensures
            rdr@.len() < HEADER_LEN ==> r == Err::<CartridgeMetadata, DecodeError>(
                DecodeError::TruncatedImage,
            ),
            rdr@.len() >= HEADER_LEN ==> r == Ok::<CartridgeMetadata, DecodeError>(
                header_fields(rdr@),
            ),
    {
        if rdr.len() < HEADER_LEN {
            return Err(DecodeError::TruncatedImage);
        }
        let title = be_u128(rdr);
        let new_licensee_code = be_u16(&rdr[16..18]);
        let sgb = rdr[18];
        let cartridge_type = rdr[19];
        let rom_size = rdr[20];
        let ram_size = rdr[21];
        let destination_code = rdr[22];
        let old_licensee_code = rdr[23];
        let mask_rom_version = rdr[24];
        let header_checksum = rdr[25];
        let global_checksum = be_u16(&rdr[26..28]);
        Ok(
            CartridgeMetadata {
                title,
                new_licensee_code,
                sgb,
                cartridge_type,
                rom_size,
                ram_size,
                destination_code,
                old_licensee_code,
                mask_rom_version,
                header_checksum,
                global_checksum,
            },
        )
    }
}

/// The header of `image`: the fields of the twenty-eight bytes from
/// `HEADER_START`, or `TruncatedImage` where the image ends before them.
pub fn read_cartridge_metadata(image: &[u8]) -> (r: Result<CartridgeMetadata, DecodeError>)
    ensures
        r == decode(image@),
{
    if image.len() < HEADER_START + HEADER_LEN {
        return Err(DecodeError::TruncatedImage);
    }
    CartridgeMetadata::from_reader(&image[HEADER_START..HEADER_START + HEADER_LEN])
}

/// The label of a RAM size code. A code outside the six of the table is
/// `MissingLookupKey`.
pub fn ram_size(value: u8) -> (r: Result<String, DecodeError>)
    ensures
        match r {
            Ok(label) => ram_label(value) == Some(label@),
            Err(e) => ram_label(value) is None && e == (DecodeError::MissingLookupKey {
                code: value,
            }),
        },
{
    proof {
        reveal_strlit("None");
        reveal_strlit("2kb");
        reveal_strlit("8kb");
        reveal_strlit("32kb");
        reveal_strlit("128kb");
        reveal_strlit("64kb");
    }
    let label = match value {
        0x00 => "None",
        0x01 => "2kb",
        0x02 => "8kb",
        0x03 => "32kb",
        0x04 => "128kb",
        0x05 => "64kb",
        _ => {
            return Err(DecodeError::MissingLookupKey { code: value });
        },
    };
    let text = String::from_str(label);
    assert(Some(text@) =~= ram_label(value));
    Ok(text)
}

/// The size of the ROM in kilobytes. A code outside the twelve of the
/// table is `MissingLookupKey`.
pub fn rom_size(value: u8) -> (r: Result<i32, DecodeError>)
    ensures
        match r {
            Ok(kilobytes) => rom_kilobytes(value) == Some(kilobytes as int),
            Err(e) => rom_kilobytes(value) is None && e == (DecodeError::MissingLookupKey {
                code: value,
            }),
        },
{
    let banks: i32 = match value {
        0x00 => 0x002,
        0x01 => 0x004,
        0x02 => 0x008,
        0x03 => 0x010,
        0x04 => 0x020,
        0x05 => 0x040,
        0x06 => 0x080,
        0x07 => 0x100,
        0x08 => 0x200,
        0x52 => 0x048,
        0x53 => 0x050,
        0x54 => 0x060,
        _ => {
            return Err(DecodeError::MissingLookupKey { code: value });
        },
    };
    Ok(banks * BANK_SIZE / 1024)
}

} // verus!
