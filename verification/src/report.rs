//! What a header says in words: its title as text, the names that the
//! reference tables give to its codes, and its sizes.
use crate::error::DecodeError;
use crate::header::{
    be_value, decode, ram_label, ram_size, read_cartridge_metadata, rom_kilobytes, rom_size,
    CartridgeMetadata,
};
use crate::table::CodeTable;
use vstd::prelude::*;
use vstd::utf8::{decode_utf8, valid_utf8};

verus! {

/// The old licensee code that hands the publisher over to the new
/// licensee code, and marks a cartridge for the colour model.
pub const NEW_LICENSEE_MARK: u8 = 0x33;

/// The report of a header.
#[derive(Debug, Clone, PartialEq)]
pub struct HeaderReport {
    pub title: String,
    /// The name of the old licensee code; `None` where that code hands
    /// over to the new licensee code.
    pub publisher: Option<String>,
    pub cartridge_type: String,
    /// Whether the destination code is that of Japan.
    pub japanese: bool,
    /// Whether the SGB flag is zero.
    pub super_gameboy: bool,
    /// Whether the old licensee code hands over to the new one.
    pub color_gameboy: bool,
    pub ram_size: String,
    /// The size of the ROM in kilobytes.
    pub rom_size: i32,
    pub global_checksum: u16,
    pub header_checksum: u8,
}

/// What a `HeaderReport` holds, as plain values.
pub struct Report {
    pub title: Seq<char>,
    pub publisher: Option<Seq<char>>,
    pub cartridge_type: Seq<char>,
    pub japanese: bool,
    pub super_gameboy: bool,
    pub color_gameboy: bool,
    pub ram_size: Seq<char>,
    pub rom_size: int,
    pub global_checksum: u16,
    pub header_checksum: u8,
}

impl View for HeaderReport {
    type V = Report;

    open spec fn view(&self) -> Report {
        Report {
            title: self.title@,
            publisher: match self.publisher {
                Some(name) => Some(name@),
                None => None,
            },
            cartridge_type: self.cartridge_type@,
            japanese: self.japanese,
            super_gameboy: self.super_gameboy,
            color_gameboy: self.color_gameboy,
            ram_size: self.ram_size@,
            rom_size: self.rom_size as int,
            global_checksum: self.global_checksum,
            header_checksum: self.header_checksum,
        }
    }
}

/// The `count` bytes that write `value`, first byte highest.
pub open spec fn be_bytes(value: nat, count: nat) -> Seq<u8>
    decreases count,
{
    if count == 0 {
        Seq::empty()
    } else {
        be_bytes(value / 256, (count - 1) as nat).push((value % 256) as u8)
    }
}

/// The sixteen bytes of the title field.
pub open spec fn title_bytes(meta: CartridgeMetadata) -> Seq<u8> {
    be_bytes(meta.title as nat, 16)
}

/// The names of a table, as characters.
pub open spec fn names(table: Map<u8, String>) -> Map<u8, Seq<char>> {
    Map::new(|code: u8| table.contains_key(code), |code: u8| table[code]@)
}

/// The result of making a report, as plain values.
pub open spec fn report_view(r: Result<HeaderReport, DecodeError>) -> Result<Report, DecodeError> {
    match r {
        Ok(report) => Ok(report@),
        Err(e) => Err(e),
    }
}

/// The report of a header, given the names of the cartridge types and of
/// the old licensee codes. It fails on the first of these that does not
/// hold: the title is UTF-8; the old licensee code has a name, unless it
/// hands over to the new code; the cartridge type has a name; the RAM
/// size code has a label; the ROM size code stands for a size.
pub open spec fn report_of(
    meta: CartridgeMetadata,
    cart_types: Map<u8, Seq<char>>,
    old_licensees: Map<u8, Seq<char>>,
) -> Result<Report, DecodeError> {
    let hands_over = meta.old_licensee_code == NEW_LICENSEE_MARK;
    if !valid_utf8(title_bytes(meta)) {
        Err(DecodeError::InvalidTitle)
    } else if !hands_over && !old_licensees.contains_key(meta.old_licensee_code) {
        Err(DecodeError::MissingLookupKey { code: meta.old_licensee_code })
    } else if !cart_types.contains_key(meta.cartridge_type) {
        Err(DecodeError::MissingLookupKey { code: meta.cartridge_type })
    } else if ram_label(meta.ram_size) is None {
        Err(DecodeError::MissingLookupKey { code: meta.ram_size })
    } else if rom_kilobytes(meta.rom_size) is None {
        Err(DecodeError::MissingLookupKey { code: meta.rom_size })
    } else {
        Ok(
            Report {
                title: decode_utf8(title_bytes(meta)),
                publisher: if hands_over {
                    None
                } else {
                    Some(old_licensees[meta.old_licensee_code])
                },
                cartridge_type: cart_types[meta.cartridge_type],
                japanese: meta.destination_code == 0,
                super_gameboy: meta.sgb == 0,
                color_gameboy: hands_over,
                ram_size: ram_label(meta.ram_size)->Some_0,
                rom_size: rom_kilobytes(meta.rom_size)->Some_0,
                global_checksum: meta.global_checksum,
                header_checksum: meta.header_checksum,
            },
        )
    }
}

/// The report of the header of a whole image.
pub open spec fn report_of_image(
    image: Seq<u8>,
    cart_types: Map<u8, Seq<char>>,
    old_licensees: Map<u8, Seq<char>>,
) -> Result<Report, DecodeError> {
    match decode(image) {
        Ok(meta) => report_of(meta, cart_types, old_licensees),
        Err(e) => Err(e),
    }
}

/// The bytes of a number, first byte highest, write that number again,
/// as long as it fits in them.
pub proof fn lemma_be_bytes_of_value(bytes: Seq<u8>)
    ensures
        be_bytes(be_value(bytes), bytes.len()) == bytes,
    decreases bytes.len(),
{
    if bytes.len() > 0 {
        lemma_be_bytes_of_value(bytes.drop_last());
        let high = be_value(bytes.drop_last());
        let low = bytes.last() as nat;
        assert((high * 256 + low) / 256 == high && (high * 256 + low) % 256 == low) by {
            vstd::arithmetic::div_mod::lemma_fundamental_div_mod_converse(
                (high * 256 + low) as int,
                256,
                high as int,
                low as int,
            );
        }
        assert(be_bytes(be_value(bytes), bytes.len()) =~= bytes);
    } else {
        assert(be_bytes(be_value(bytes), bytes.len()) =~= bytes);
    }
}

/// A run of bytes writes a number below the power of 256 that has as
/// many digits: sixteen bytes write a number that a `u128` holds.
pub proof fn lemma_be_value_bound(bytes: Seq<u8>)
    ensures
        be_value(bytes) < vstd::arithmetic::power::pow(256, bytes.len()),
    decreases bytes.len(),
{
    reveal(vstd::arithmetic::power::pow);
    if bytes.len() > 0 {
        lemma_be_value_bound(bytes.drop_last());
        let rest = vstd::arithmetic::power::pow(256, (bytes.len() - 1) as nat);
        assert(be_value(bytes.drop_last()) + 1 <= rest);
        assert((be_value(bytes.drop_last()) + 1) * 256 <= rest * 256) by (nonlinear_arith)
            requires
                be_value(bytes.drop_last()) + 1 <= rest,
        ;
        assert(vstd::arithmetic::power::pow(256, bytes.len()) == 256 * rest);
    }
}

/// The title field of a header read from a window holds the first
/// sixteen bytes of that window.
pub proof fn lemma_title_bytes_of_window(window: Seq<u8>)
    requires
        window.len() >= 16,
    ensures
        title_bytes(crate::header::header_fields(window)) == window.subrange(0, 16),
{
    let field = window.subrange(0, 16);
    lemma_be_bytes_of_value(field);
    lemma_be_value_bound(field);
    assert(vstd::arithmetic::power::pow(256, 16) == 0x1_0000_0000_0000_0000_0000_0000_0000_0000)
        by {
        reveal_with_fuel(vstd::arithmetic::power::pow, 17);
    }
}

/// The bytes of a number, first byte highest. `u128::to_be_bytes` gives
/// the sixteen bytes of the number in big-endian order.
#[verifier::external_body]
fn be_bytes_u128(value: u128) -> (r: [u8; 16])
    ensures
        r@ == be_bytes(value as nat, 16),
{
    value.to_be_bytes()
}

/// The text that a run of bytes encodes. `std::str::from_utf8` gives the
/// text where the bytes are valid UTF-8, and an error where they are not;
/// `valid_utf8` and `decode_utf8` are the definitions of that encoding
/// in `vstd`.
#[verifier::external_body]
fn utf8_text(bytes: &[u8]) -> (r: Option<&str>)
    ensures
        match r {
            Some(text) => valid_utf8(bytes@) && text@ == decode_utf8(bytes@),
            None => !valid_utf8(bytes@),
        },
{
    std::str::from_utf8(bytes).ok()
}

/// The name filed under a code byte of the header.
pub fn lookup_name(table: &CodeTable<String>, code: u8) -> (r: Result<&String, DecodeError>)
    ensures
        match r {
            Ok(name) => table@.contains_key(code) && *name == table@[code],
            Err(e) => !table@.contains_key(code) && e == (DecodeError::MissingLookupKey { code }),
        },
{
    match table.get(code) {
        Some(name) => Ok(name),
        None => Err(DecodeError::MissingLookupKey { code }),
    }
}

impl CartridgeMetadata {
    /// The title as text: all sixteen bytes of the field, the padding
    /// and the colour flag with them. Bytes that are not UTF-8 are
    /// `InvalidTitle`.
    pub fn title_text(&self) -> (r: Result<String, DecodeError>)
        ensures
            match r {
                Ok(text) => valid_utf8(title_bytes(*self)) && text@ == decode_utf8(
                    title_bytes(*self),
                ),
                Err(e) => !valid_utf8(title_bytes(*self)) && e == DecodeError::InvalidTitle,
            },
    {
        let bytes = be_bytes_u128(self.title);
        match utf8_text(bytes.as_slice()) {
            Some(text) => Ok(text.to_owned()),
            None => Err(DecodeError::InvalidTitle),
        }
    }
}

/// The report of a header that has been read.
pub fn header_report(
    meta: &CartridgeMetadata,
    cart_types: &CodeTable<String>,
    old_licensees: &CodeTable<String>,
) -> (r: Result<HeaderReport, DecodeError>)
    ensures
        report_view(r) == report_of(*meta, names(cart_types@), names(old_licensees@)),
{
    let title = match meta.title_text() {
        Ok(text) => text,
        Err(e) => {
            return Err(e);
        },
    };
    let color_gameboy = meta.old_licensee_code == NEW_LICENSEE_MARK;
    let publisher = if color_gameboy {
        None
    } else {
        match lookup_name(old_licensees, meta.old_licensee_code) {
            Ok(name) => Some(name.clone()),
            Err(e) => {
                return Err(e);
            },
        }
    };
    let cartridge_type = match lookup_name(cart_types, meta.cartridge_type) {
        Ok(name) => name.clone(),
        Err(e) => {
            return Err(e);
        },
    };
    let ram = match ram_size(meta.ram_size) {
        Ok(label) => label,
        Err(e) => {
            return Err(e);
        },
    };
    let rom = match rom_size(meta.rom_size) {
        Ok(kilobytes) => kilobytes,
        Err(e) => {
            return Err(e);
        },
    };
    Ok(
        HeaderReport {
            title,
            publisher,
            cartridge_type,
            japanese: meta.destination_code == 0x00,
            super_gameboy: meta.sgb == 0x00,
            color_gameboy,
            ram_size: ram,
            rom_size: rom,
            global_checksum: meta.global_checksum,
            header_checksum: meta.header_checksum,
        },
    )
}

/// The report of the header of `image`: `TruncatedImage` where the image
/// ends before its header, else the report of the header that it holds.
pub fn parse_rom(
    image: &[u8],
    cart_types: &CodeTable<String>,
    old_licensees: &CodeTable<String>,
) -> (r: Result<HeaderReport, DecodeError>)
    ensures
        report_view(r) == report_of_image(image@, names(cart_types@), names(old_licensees@)),
{
    match read_cartridge_metadata(image) {
        Ok(meta) => header_report(&meta, cart_types, old_licensees),
        Err(e) => Err(e),
    }
}

} // verus!
