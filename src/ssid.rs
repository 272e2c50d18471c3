//! The 8-byte serial identifier of a box: its fields, its checksum, and the
//! generation of fresh identifiers that check.
//!
//! Layout, most significant byte first: `TT RRRRRR M_ SM SS CC`, with `TT` the
//! box type, `RRRRRR` the box number, `M` and the low nibble of the second
//! manufacturer byte the manufacturer, `S` a signature that marks the
//! manufacturer as meaningful, `_` an unused nibble and `CC` the CRC-8 of the
//! first seven bytes.

use vstd::prelude::*;
use rand_core::{OsRng, RngCore};

verus! {

/// The signature that marks the manufacturer field as meaningful.
pub const MANUFACTURE_SIGNATURE: u16 = 0xb002;

/// The feedback constant of the identifier's CRC-8 (bit-reversed, LSB first).
pub const SSID_CRC_POLY: u8 = 0x8c;

#[derive(Debug, Clone, Copy, PartialEq, Eq, Structural)]
pub enum SSIDBoxType {
    Generic,
    NoneType,
    Internal,
    MattMan,
    MAME,
    Retail,
    Viewer,
}

#[derive(Debug, Clone)]
pub struct BoxTypeItem {
    pub box_type: SSIDBoxType,
    pub name: String,
    pub value: i32,
    pub hex_value: String,
    pub description: String,
}

#[derive(Debug, Clone, Copy, PartialEq, Eq, Structural)]
pub enum SSIDManufacture {
    Generic,
    Sony,
    Phillips,
    WebTVOEM,
    Pace,
    Mitsubishi,
    Unknown1,
    Fujitsu,
    Samsung,
    Echostar,
    RCA,
    Sharp,
    Unknown2,
    Unknown3,
    Unknown4,
    Unknown5,
    Unknown6,
    Matsushita,
}

#[derive(Debug, Clone)]
pub struct ManufactureItem {
    pub manufacture: SSIDManufacture,
    pub name: String,
    pub value: u16,
    pub hex_value: String,
    pub description: String,
}

/// Failures of identifier generation.
#[derive(Debug, Clone, Copy, PartialEq, Eq, Structural)]
pub enum SSIDError {
    /// The operating system's random source gave no bytes.
    RandomSource,
}

/// The lower-case hexadecimal digit of `n` (below 16).
pub open spec fn hex_char(n: u8) -> char {
        if n == 0 {
            '0'
        } else if n == 1 {
            '1'
        } else if n == 2 {
            '2'
        } else if n == 3 {
            '3'
        } else if n == 4 {
            '4'
        } else if n == 5 {
            '5'
        } else if n == 6 {
            '6'
        } else if n == 7 {
            '7'
        } else if n == 8 {
            '8'
        } else if n == 9 {
            '9'
        } else if n == 10 {
            'a'
        } else if n == 11 {
            'b'
        } else if n == 12 {
            'c'
        } else if n == 13 {
            'd'
        } else if n == 14 {
            'e'
        } else {
            'f'
        }
}

/// Two lower-case hexadecimal digits per byte.
pub open spec fn hex_string(s: Seq<u8>) -> Seq<char>
    decreases s.len(),
{
    if s.len() == 0 {
        Seq::empty()
    } else {
        hex_string(s.drop_last()) + seq![hex_char(s.last() / 16), hex_char(s.last() % 16)]
    }
}

/// The code of a box type.
pub open spec fn box_type_code(t: SSIDBoxType) -> u8 {
    match t {
        SSIDBoxType::Generic => 0xff,
        SSIDBoxType::NoneType => 0x00,
        SSIDBoxType::Internal => 0x01,
        SSIDBoxType::MattMan => 0x69,
        SSIDBoxType::MAME => 0x71,
        SSIDBoxType::Retail => 0x81,
        SSIDBoxType::Viewer => 0x91,
    }
}

/// The box type of a code; an unknown code is `Generic`.
pub open spec fn box_type_of(value: u8) -> SSIDBoxType {
    if value == 0x00 {
        SSIDBoxType::NoneType
    } else if value == 0x01 {
        SSIDBoxType::Internal
    } else if value == 0x69 {
        SSIDBoxType::MattMan
    } else if value == 0x71 {
        SSIDBoxType::MAME
    } else if value == 0x81 {
        SSIDBoxType::Retail
    } else if value == 0x91 {
        SSIDBoxType::Viewer
    } else {
        SSIDBoxType::Generic
    }
}

pub open spec fn box_type_name(t: SSIDBoxType) -> Seq<char> {
    match t {
        SSIDBoxType::Generic => "Generic"@,
        SSIDBoxType::NoneType => "None"@,
        SSIDBoxType::Internal => "Internal"@,
        SSIDBoxType::MattMan => "MattMan"@,
        SSIDBoxType::MAME => "MAME"@,
        SSIDBoxType::Retail => "Retail"@,
        SSIDBoxType::Viewer => "Viewer"@,
    }
}

/// The code of a manufacturer.
pub open spec fn manufacture_code(m: SSIDManufacture) -> u16 {
    match m {
        SSIDManufacture::Generic => 0xffff,
        SSIDManufacture::Sony => 0x0000,
        SSIDManufacture::Phillips => 0x1000,
        SSIDManufacture::WebTVOEM => 0x2000,
        SSIDManufacture::Pace => 0x3000,
        SSIDManufacture::Mitsubishi => 0x4000,
        SSIDManufacture::Unknown1 => 0x5000,
        SSIDManufacture::Fujitsu => 0x6000,
        SSIDManufacture::Samsung => 0x7000,
        SSIDManufacture::Echostar => 0x8000,
        SSIDManufacture::RCA => 0x9000,
        SSIDManufacture::Sharp => 0xa000,
        SSIDManufacture::Unknown2 => 0xb000,
        SSIDManufacture::Unknown3 => 0xc000,
        SSIDManufacture::Unknown4 => 0xd000,
        SSIDManufacture::Unknown5 => 0xe000,
        SSIDManufacture::Unknown6 => 0xf000,
        SSIDManufacture::Matsushita => 0x0001,
    }
}

/// The manufacturer of a code; an unknown code is `Generic`.
pub open spec fn manufacture_of(value: u16) -> SSIDManufacture {
    if value == 0x0000 {
        SSIDManufacture::Sony
    } else if value == 0x1000 {
        SSIDManufacture::Phillips
    } else if value == 0x2000 {
        SSIDManufacture::WebTVOEM
    } else if value == 0x3000 {
        SSIDManufacture::Pace
    } else if value == 0x4000 {
        SSIDManufacture::Mitsubishi
    } else if value == 0x5000 {
        SSIDManufacture::Unknown1
    } else if value == 0x6000 {
        SSIDManufacture::Fujitsu
    } else if value == 0x7000 {
        SSIDManufacture::Samsung
    } else if value == 0x8000 {
        SSIDManufacture::Echostar
    } else if value == 0x9000 {
        SSIDManufacture::RCA
    } else if value == 0xa000 {
        SSIDManufacture::Sharp
    } else if value == 0xb000 {
        SSIDManufacture::Unknown2
    } else if value == 0xc000 {
        SSIDManufacture::Unknown3
    } else if value == 0xd000 {
        SSIDManufacture::Unknown4
    } else if value == 0xe000 {
        SSIDManufacture::Unknown5
    } else if value == 0xf000 {
        SSIDManufacture::Unknown6
    } else if value == 0x0001 {
        SSIDManufacture::Matsushita
    } else {
        SSIDManufacture::Generic
    }
}

pub open spec fn manufacture_name(m: SSIDManufacture) -> Seq<char> {
    match m {
        SSIDManufacture::Generic => "Generic"@,
        SSIDManufacture::Sony => "Sony"@,
        SSIDManufacture::Phillips => "Phillips"@,
        SSIDManufacture::WebTVOEM => "WebTV OEM"@,
        SSIDManufacture::Pace => "PACE"@,
        SSIDManufacture::Mitsubishi => "Mitsubishi"@,
        SSIDManufacture::Unknown1 => "Unknown1"@,
        SSIDManufacture::Fujitsu => "Fujitsu"@,
        SSIDManufacture::Samsung => "Samsung"@,
        SSIDManufacture::Echostar => "Echostar"@,
        SSIDManufacture::RCA => "RCA"@,
        SSIDManufacture::Sharp => "Sharp"@,
        SSIDManufacture::Unknown2 => "Unknown2"@,
        SSIDManufacture::Unknown3 => "Unknown3"@,
        SSIDManufacture::Unknown4 => "Unknown4"@,
        SSIDManufacture::Unknown5 => "Unknown5"@,
        SSIDManufacture::Unknown6 => "Unknown6"@,
        SSIDManufacture::Matsushita => "Mitsushita"@,
    }
}

pub open spec fn is_unknown_manufacture(m: SSIDManufacture) -> bool {
    m == SSIDManufacture::Unknown1 || m == SSIDManufacture::Unknown2 || m == SSIDManufacture::Unknown3
        || m == SSIDManufacture::Unknown4 || m == SSIDManufacture::Unknown5 || m == SSIDManufacture::Unknown6
}

fn hex_digit(n: u8) -> (r: &'static str)
    requires
        n < 16,
    ensures
        r@ == seq![hex_char(n)],
{
    match n {
        0 => {
            proof { reveal_strlit("0"); }
            "0"
        },
        1 => {
            proof { reveal_strlit("1"); }
            "1"
        },
        2 => {
            proof { reveal_strlit("2"); }
            "2"
        },
        3 => {
            proof { reveal_strlit("3"); }
            "3"
        },
        4 => {
            proof { reveal_strlit("4"); }
            "4"
        },
        5 => {
            proof { reveal_strlit("5"); }
            "5"
        },
        6 => {
            proof { reveal_strlit("6"); }
            "6"
        },
        7 => {
            proof { reveal_strlit("7"); }
            "7"
        },
        8 => {
            proof { reveal_strlit("8"); }
            "8"
        },
        9 => {
            proof { reveal_strlit("9"); }
            "9"
        },
        10 => {
            proof { reveal_strlit("a"); }
            "a"
        },
        11 => {
            proof { reveal_strlit("b"); }
            "b"
        },
        12 => {
            proof { reveal_strlit("c"); }
            "c"
        },
        13 => {
            proof { reveal_strlit("d"); }
            "d"
        },
        14 => {
            proof { reveal_strlit("e"); }
            "e"
        },
        _ => {
            proof { reveal_strlit("f"); }
            "f"
        },
    }
}

/// Appends the two hexadecimal digits of `b` to `s`.
fn push_hex_byte(s: &mut String, b: u8)
    ensures
        final(s)@ == old(s)@ + seq![hex_char(b / 16), hex_char(b % 16)],
{
    s.append(hex_digit(b / 16));
    s.append(hex_digit(b % 16));
    assert(final(s)@ =~= old(s)@ + seq![hex_char(b / 16), hex_char(b % 16)]);
}

/// `0x` and the lower-case hexadecimal digits of `bytes`.
fn prefixed_hex(bytes: &Vec<u8>) -> (r: String)
    ensures
        r@ == "0x"@ + hex_string(bytes@),
{
    proof { reveal_strlit("0x"); }
    let mut s = String::from_str("0x");
    let mut i: usize = 0;
    while i < bytes.len()
        invariant
            i <= bytes@.len(),
            s@ == "0x"@ + hex_string(bytes@.subrange(0, i as int)),
        decreases bytes@.len() - i,
    {
        push_hex_byte(&mut s, bytes[i]);
        proof {
            let next = bytes@.subrange(0, i + 1);
            assert(next.drop_last() =~= bytes@.subrange(0, i as int));
        }
        i = i + 1;
    }
    assert(bytes@.subrange(0, bytes@.len() as int) =~= bytes@);
    s
}

impl SSIDBoxType {
    pub fn from_u8(value: u8) -> (r: SSIDBoxType)
        ensures
            r == box_type_of(value),
    {
        match value {
            0x00 => SSIDBoxType::NoneType,
            0x01 => SSIDBoxType::Internal,
            0x69 => SSIDBoxType::MattMan,
            0x71 => SSIDBoxType::MAME,
            0x81 => SSIDBoxType::Retail,
            0x91 => SSIDBoxType::Viewer,
            _ => SSIDBoxType::Generic,
        }
    }

    pub fn to_u8(box_type: &SSIDBoxType) -> (r: u8)
        ensures
            r == box_type_code(*box_type),
    {
        match box_type {
            SSIDBoxType::Generic => 0xff,
            SSIDBoxType::NoneType => 0x00,
            SSIDBoxType::Internal => 0x01,
            SSIDBoxType::MattMan => 0x69,
            SSIDBoxType::MAME => 0x71,
            SSIDBoxType::Retail => 0x81,
            SSIDBoxType::Viewer => 0x91,
        }
    }

    pub fn to_string(box_type: &SSIDBoxType) -> (r: String)
        ensures
            r@ == box_type_name(*box_type),
    {
        match box_type {
            SSIDBoxType::Generic => {
                proof { reveal_strlit("Generic"); }
                String::from_str("Generic")
            },
            SSIDBoxType::NoneType => {
                proof { reveal_strlit("None"); }
                String::from_str("None")
            },
            SSIDBoxType::Internal => {
                proof { reveal_strlit("Internal"); }
                String::from_str("Internal")
            },
            SSIDBoxType::MattMan => {
                proof { reveal_strlit("MattMan"); }
                String::from_str("MattMan")
            },
            SSIDBoxType::MAME => {
                proof { reveal_strlit("MAME"); }
                String::from_str("MAME")
            },
            SSIDBoxType::Retail => {
                proof { reveal_strlit("Retail"); }
                String::from_str("Retail")
            },
            SSIDBoxType::Viewer => {
                proof { reveal_strlit("Viewer"); }
                String::from_str("Viewer")
            },
        }
    }

    pub fn to_item(box_type: SSIDBoxType) -> (r: BoxTypeItem)
        ensures
            box_item_of(r, box_type),
    {
        let description = match box_type {
            SSIDBoxType::MattMan => {
                proof { reveal_strlit("MattMan's cool SSID"); }
                String::from_str("MattMan's cool SSID")
            },
            SSIDBoxType::Internal => {
                proof { reveal_strlit("Used for WNI's internal testing"); }
                String::from_str("Used for WNI's internal testing")
            },
            _ => {
                proof { reveal_strlit(""); }
                String::from_str("")
            },
        };
        let code = SSIDBoxType::to_u8(&box_type);
        let mut code_bytes: Vec<u8> = Vec::new();
        code_bytes.push(code);
        BoxTypeItem {
            box_type,
            name: SSIDBoxType::to_string(&box_type),
            value: code as i32,
            hex_value: prefixed_hex(&code_bytes),
            description,
        }
    }

    /// Every box type, in declaration order.
    pub fn to_list() -> (r: Vec<BoxTypeItem>)
        ensures
            r@.len() == all_box_types().len(),
            forall|i: int| 0 <= i < r@.len() ==> box_item_of(#[trigger] r@[i], all_box_types()[i]),
    {
        let all = [
            SSIDBoxType::Generic,
            SSIDBoxType::NoneType,
            SSIDBoxType::Internal,
            SSIDBoxType::MattMan,
            SSIDBoxType::MAME,
            SSIDBoxType::Retail,
            SSIDBoxType::Viewer,
        ];
        assert(all@ =~= all_box_types());
        let mut list: Vec<BoxTypeItem> = Vec::new();
        let mut i: usize = 0;
        while i < all.len()
            invariant
                all@ == all_box_types(),
                i <= all@.len(),
                list@.len() == i,
                forall|j: int| 0 <= j < i ==> box_item_of(#[trigger] list@[j], all_box_types()[j]),
            decreases all@.len() - i,
        {
            list.push(SSIDBoxType::to_item(all[i]));
            i = i + 1;
        }
        list
    }
}

/// Every box type, in declaration order.
pub open spec fn all_box_types() -> Seq<SSIDBoxType> {
    seq![SSIDBoxType::Generic, SSIDBoxType::NoneType, SSIDBoxType::Internal, SSIDBoxType::MattMan, SSIDBoxType::MAME, SSIDBoxType::Retail, SSIDBoxType::Viewer]
}

pub open spec fn box_type_description(t: SSIDBoxType) -> Seq<char> {
    match t {
        SSIDBoxType::MattMan => "MattMan's cool SSID"@,
        SSIDBoxType::Internal => "Used for WNI's internal testing"@,
        _ => ""@,
    }
}

/// `item` describes box type `t`.
pub open spec fn box_item_of(item: BoxTypeItem, t: SSIDBoxType) -> bool {
    &&& item.box_type == t
    &&& item.name@ == box_type_name(t)
    &&& item.value == box_type_code(t) as i32
    &&& item.hex_value@ == "0x"@ + hex_string(seq![box_type_code(t)])
    &&& item.description@ == box_type_description(t)
}

/// Every manufacturer, in declaration order.
pub open spec fn all_manufactures() -> Seq<SSIDManufacture> {
    seq![SSIDManufacture::Generic, SSIDManufacture::Sony, SSIDManufacture::Phillips, SSIDManufacture::WebTVOEM, SSIDManufacture::Pace, SSIDManufacture::Mitsubishi, SSIDManufacture::Unknown1, SSIDManufacture::Fujitsu, SSIDManufacture::Samsung, SSIDManufacture::Echostar, SSIDManufacture::RCA, SSIDManufacture::Sharp, SSIDManufacture::Unknown2, SSIDManufacture::Unknown3, SSIDManufacture::Unknown4, SSIDManufacture::Unknown5, SSIDManufacture::Unknown6, SSIDManufacture::Matsushita]
}

pub open spec fn manufacture_description(m: SSIDManufacture) -> Seq<char> {
    match m {
        SSIDManufacture::Phillips => "Phillips Magnavox"@,
        SSIDManufacture::Pace => "PACE Phillips"@,
        SSIDManufacture::Sharp => "Sharp Electronics"@,
        _ => ""@,
    }
}

/// `item` describes manufacturer `m`.
pub open spec fn manufacture_item_of(item: ManufactureItem, m: SSIDManufacture) -> bool {
    &&& item.manufacture == m
    &&& item.name@ == manufacture_name(m)
    &&& item.value == manufacture_code(m)
    &&& item.hex_value@ == "0x"@ + hex_string(seq![(manufacture_code(m) / 0x100) as u8, (manufacture_code(m) % 0x100) as u8])
    &&& item.description@ == manufacture_description(m)
}

/// Whether a listing keeps manufacturer `m`.
pub open spec fn listed(m: SSIDManufacture, include_unknown: bool, include_generic: bool) -> bool {
    (include_unknown || !is_unknown_manufacture(m)) && (include_generic || m != SSIDManufacture::Generic)
}

/// The manufacturers of `s` that a listing keeps, in order.
pub open spec fn listed_manufactures(s: Seq<SSIDManufacture>, include_unknown: bool, include_generic: bool) -> Seq<SSIDManufacture>
    decreases s.len(),
{
    if s.len() == 0 {
        Seq::empty()
    } else if listed(s.last(), include_unknown, include_generic) {
        listed_manufactures(s.drop_last(), include_unknown, include_generic).push(s.last())
    } else {
        listed_manufactures(s.drop_last(), include_unknown, include_generic)
    }
}

impl SSIDManufacture {
    pub fn from_u16(value: u16) -> (r: SSIDManufacture)
        ensures
            r == manufacture_of(value),
    {
        match value {
            0x0000 => SSIDManufacture::Sony,
            0x1000 => SSIDManufacture::Phillips,
            0x2000 => SSIDManufacture::WebTVOEM,
            0x3000 => SSIDManufacture::Pace,
            0x4000 => SSIDManufacture::Mitsubishi,
            0x5000 => SSIDManufacture::Unknown1,
            0x6000 => SSIDManufacture::Fujitsu,
            0x7000 => SSIDManufacture::Samsung,
            0x8000 => SSIDManufacture::Echostar,
            0x9000 => SSIDManufacture::RCA,
            0xa000 => SSIDManufacture::Sharp,
            0xb000 => SSIDManufacture::Unknown2,
            0xc000 => SSIDManufacture::Unknown3,
            0xd000 => SSIDManufacture::Unknown4,
            0xe000 => SSIDManufacture::Unknown5,
            0xf000 => SSIDManufacture::Unknown6,
            0x0001 => SSIDManufacture::Matsushita,
            _ => SSIDManufacture::Generic,
        }
    }

    pub fn to_u16(manufacture: &SSIDManufacture) -> (r: u16)
        ensures
            r == manufacture_code(*manufacture),
    {
        match manufacture {
            SSIDManufacture::Generic => 0xffff,
            SSIDManufacture::Sony => 0x0000,
            SSIDManufacture::Phillips => 0x1000,
            SSIDManufacture::WebTVOEM => 0x2000,
            SSIDManufacture::Pace => 0x3000,
            SSIDManufacture::Mitsubishi => 0x4000,
            SSIDManufacture::Unknown1 => 0x5000,
            SSIDManufacture::Fujitsu => 0x6000,
            SSIDManufacture::Samsung => 0x7000,
            SSIDManufacture::Echostar => 0x8000,
            SSIDManufacture::RCA => 0x9000,
            SSIDManufacture::Sharp => 0xa000,
            SSIDManufacture::Unknown2 => 0xb000,
            SSIDManufacture::Unknown3 => 0xc000,
            SSIDManufacture::Unknown4 => 0xd000,
            SSIDManufacture::Unknown5 => 0xe000,
            SSIDManufacture::Unknown6 => 0xf000,
            SSIDManufacture::Matsushita => 0x0001,
        }
    }

    pub fn to_string(manufacture: &SSIDManufacture) -> (r: String)
        ensures
            r@ == manufacture_name(*manufacture),
    {
        match manufacture {
            SSIDManufacture::Generic => {
                proof { reveal_strlit("Generic"); }
                String::from_str("Generic")
            },
            SSIDManufacture::Sony => {
                proof { reveal_strlit("Sony"); }
                String::from_str("Sony")
            },
            SSIDManufacture::Phillips => {
                proof { reveal_strlit("Phillips"); }
                String::from_str("Phillips")
            },
            SSIDManufacture::WebTVOEM => {
                proof { reveal_strlit("WebTV OEM"); }
                String::from_str("WebTV OEM")
            },
            SSIDManufacture::Pace => {
                proof { reveal_strlit("PACE"); }
                String::from_str("PACE")
            },
            SSIDManufacture::Mitsubishi => {
                proof { reveal_strlit("Mitsubishi"); }
                String::from_str("Mitsubishi")
            },
            SSIDManufacture::Unknown1 => {
                proof { reveal_strlit("Unknown1"); }
                String::from_str("Unknown1")
            },
            SSIDManufacture::Fujitsu => {
                proof { reveal_strlit("Fujitsu"); }
                String::from_str("Fujitsu")
            },
            SSIDManufacture::Samsung => {
                proof { reveal_strlit("Samsung"); }
                String::from_str("Samsung")
            },
            SSIDManufacture::Echostar => {
                proof { reveal_strlit("Echostar"); }
                String::from_str("Echostar")
            },
            SSIDManufacture::RCA => {
                proof { reveal_strlit("RCA"); }
                String::from_str("RCA")
            },
            SSIDManufacture::Sharp => {
                proof { reveal_strlit("Sharp"); }
                String::from_str("Sharp")
            },
            SSIDManufacture::Unknown2 => {
                proof { reveal_strlit("Unknown2"); }
                String::from_str("Unknown2")
            },
            SSIDManufacture::Unknown3 => {
                proof { reveal_strlit("Unknown3"); }
                String::from_str("Unknown3")
            },
            SSIDManufacture::Unknown4 => {
                proof { reveal_strlit("Unknown4"); }
                String::from_str("Unknown4")
            },
            SSIDManufacture::Unknown5 => {
                proof { reveal_strlit("Unknown5"); }
                String::from_str("Unknown5")
            },
            SSIDManufacture::Unknown6 => {
                proof { reveal_strlit("Unknown6"); }
                String::from_str("Unknown6")
            },
            SSIDManufacture::Matsushita => {
                proof { reveal_strlit("Mitsushita"); }
                String::from_str("Mitsushita")
            },
        }
    }

    pub fn to_item(manufacture: SSIDManufacture) -> (r: ManufactureItem)
        ensures
            manufacture_item_of(r, manufacture),
    {
        let description = match manufacture {
            SSIDManufacture::Phillips => {
                proof { reveal_strlit("Phillips Magnavox"); }
                String::from_str("Phillips Magnavox")
            },
            SSIDManufacture::Pace => {
                proof { reveal_strlit("PACE Phillips"); }
                String::from_str("PACE Phillips")
            },
            SSIDManufacture::Sharp => {
                proof { reveal_strlit("Sharp Electronics"); }
                String::from_str("Sharp Electronics")
            },
            _ => {
                proof { reveal_strlit(""); }
                String::from_str("")
            },
        };
        let code = SSIDManufacture::to_u16(&manufacture);
        let mut code_bytes: Vec<u8> = Vec::new();
        code_bytes.push((code / 0x100) as u8);
        code_bytes.push((code % 0x100) as u8);
        assert(code_bytes@ =~= seq![(code / 0x100) as u8, (code % 0x100) as u8]);
        ManufactureItem {
            manufacture,
            name: SSIDManufacture::to_string(&manufacture),
            value: code,
            hex_value: prefixed_hex(&code_bytes),
            description,
        }
    }

    /// The manufacturers in declaration order, without the unknown ones unless
    /// `include_unknown`, and without `Generic` unless `include_generic`.
    pub fn to_list(include_unknown: bool, include_generic: bool) -> (r: Vec<ManufactureItem>)
        ensures
            r@.len() == listed_manufactures(all_manufactures(), include_unknown, include_generic).len(),
            forall|i: int| 0 <= i < r@.len() ==> manufacture_item_of(#[trigger] r@[i], listed_manufactures(all_manufactures(), include_unknown, include_generic)[i]),
    {
        let all = [
            SSIDManufacture::Generic,
            SSIDManufacture::Sony,
            SSIDManufacture::Phillips,
            SSIDManufacture::WebTVOEM,
            SSIDManufacture::Pace,
            SSIDManufacture::Mitsubishi,
            SSIDManufacture::Unknown1,
            SSIDManufacture::Fujitsu,
            SSIDManufacture::Samsung,
            SSIDManufacture::Echostar,
            SSIDManufacture::RCA,
            SSIDManufacture::Sharp,
            SSIDManufacture::Unknown2,
            SSIDManufacture::Unknown3,
            SSIDManufacture::Unknown4,
            SSIDManufacture::Unknown5,
            SSIDManufacture::Unknown6,
            SSIDManufacture::Matsushita,
        ];
        assert(all@ =~= all_manufactures());
        let mut list: Vec<ManufactureItem> = Vec::new();
        let mut i: usize = 0;
        while i < all.len()
            invariant
                all@ == all_manufactures(),
                i <= all@.len(),
                list@.len() == listed_manufactures(all@.subrange(0, i as int), include_unknown, include_generic).len(),
                forall|j: int| 0 <= j < list@.len() ==> manufacture_item_of(#[trigger] list@[j], listed_manufactures(all@.subrange(0, i as int), include_unknown, include_generic)[j]),
            decreases all@.len() - i,
        {
            let m = all[i];
            proof {
                assert(all@.subrange(0, i + 1).drop_last() =~= all@.subrange(0, i as int));
            }
            let unknown = m == SSIDManufacture::Unknown1 || m == SSIDManufacture::Unknown2 || m == SSIDManufacture::Unknown3
                || m == SSIDManufacture::Unknown4 || m == SSIDManufacture::Unknown5 || m == SSIDManufacture::Unknown6;
            if (include_unknown || !unknown) && (include_generic || m != SSIDManufacture::Generic) {
                list.push(SSIDManufacture::to_item(m));
            }
            i = i + 1;
        }
        assert(all@.subrange(0, all@.len() as int) =~= all@);
        list
    }
}

/// Eight rounds of the identifier's CRC-8 starting from `crc`, consuming the
/// bits of `byte` least significant first.
pub open spec fn crc_bits(crc: u8, byte: u8, n: nat) -> u8
    decreases n,
{
    if n == 0 {
        crc
    } else {
        let next: u8 = if (crc ^ byte) & 1 == 1 { (crc >> 1u8) ^ SSID_CRC_POLY } else { crc >> 1u8 };
        crc_bits(next, byte >> 1u8, (n - 1) as nat)
    }
}

/// The CRC-8 of the first `n` bytes of `s`, starting from zero.
pub open spec fn ssid_crc(s: Seq<u8>, n: nat) -> u8
    decreases n,
{
    if n == 0 {
        0
    } else {
        crc_bits(ssid_crc(s, (n - 1) as nat), s[n - 1], 8)
    }
}

/// The manufacturer field: the high nibble of byte 4 and the low nibble of byte 5.
pub open spec fn manufacture_field(raw: Seq<u8>) -> u16 {
    (((raw[4] & 0xf0u8) as u16) << 8u16) | ((raw[5] & 0x0fu8) as u16)
}

/// The signature field: the high nibble of byte 5 and byte 6.
pub open spec fn signature_field(raw: Seq<u8>) -> u16 {
    (((raw[5] & 0xf0u8) as u16) << 8u16) | (raw[6] as u16)
}

/// `info` holds the fields of the 8 bytes `raw`.
pub open spec fn decodes(info: SSIDInfo, raw: Seq<u8>) -> bool {
    &&& info.raw@ == raw
    &&& info.box_type == box_type_of(raw[0])
    &&& info.box_id == (raw[1] as u32) * 0x10000 + (raw[2] as u32) * 0x100 + (raw[3] as u32)
    &&& info.manufacture == if signature_field(raw) == MANUFACTURE_SIGNATURE {
        manufacture_of(manufacture_field(raw))
    } else {
        SSIDManufacture::Generic
    }
    &&& info.manufacture_unknown1 == raw[4] & 0x0fu8
    &&& info.manufacture_signature == signature_field(raw)
    &&& info.crc == raw[7]
    &&& info.calculated_crc == ssid_crc(raw, 7)
    &&& info.value@ == hex_string(raw)
}

/// The high byte that a generated identifier stores for manufacturer `m`.
pub open spec fn manufacture_high(m: SSIDManufacture) -> u8 {
    ((manufacture_code(m) >> 8u16) & 0xf0u16) as u8
}

/// The byte that a generated identifier stores for the signature and the low
/// nibble of manufacturer `m`.
pub open spec fn manufacture_low(m: SSIDManufacture) -> u8 {
    ((((MANUFACTURE_SIGNATURE >> 8u16) & 0xf0u16) as u8) | ((manufacture_code(m) & 0x0fu16) as u8)) as u8
}

/// The first seven bytes of an identifier generated from `random`.
pub open spec fn generated_body(random: Seq<u8>, box_type: SSIDBoxType, m: SSIDManufacture) -> Seq<u8> {
    random.update(0, box_type_code(box_type)).update(4, manufacture_high(m)).update(5, manufacture_low(m)).update(
        6,
        (MANUFACTURE_SIGNATURE & 0xffu16) as u8,
    )
}

/// The 8 bytes of an identifier generated from `random`: the body and its CRC.
pub open spec fn generated_raw(random: Seq<u8>, box_type: SSIDBoxType, m: SSIDManufacture) -> Seq<u8> {
    let body = generated_body(random, box_type, m);
    body.update(7, ssid_crc(body, 7))
}

/// The CRC over the first `n` bytes depends on those bytes alone.
proof fn lemma_crc_prefix(a: Seq<u8>, b: Seq<u8>, n: nat)
    requires
        n <= a.len(),
        n <= b.len(),
        forall|i: int| 0 <= i < n ==> a[i] == b[i],
    ensures
        ssid_crc(a, n) == ssid_crc(b, n),
    decreases n,
{
    if n > 0 {
        lemma_crc_prefix(a, b, (n - 1) as nat);
    }
}

/// A generated identifier always checks: its stored CRC byte is the CRC of
/// its first seven bytes.
pub proof fn lemma_generated_ssid_checks(random: Seq<u8>, box_type: SSIDBoxType, m: SSIDManufacture)
    requires
        random.len() == 8,
    ensures
        ssid_crc(generated_raw(random, box_type, m), 7) == generated_raw(random, box_type, m)[7],
{
    let body = generated_body(random, box_type, m);
    lemma_crc_prefix(body.update(7, ssid_crc(body, 7)), body, 7);
}

/// A generated identifier decodes to the box type and manufacturer it was
/// generated for, with the signature set.
pub proof fn lemma_generated_ssid_fields(random: Seq<u8>, box_type: SSIDBoxType, m: SSIDManufacture)
    requires
        random.len() == 8,
    ensures
        box_type_of(generated_raw(random, box_type, m)[0]) == box_type,
        manufacture_of(manufacture_field(generated_raw(random, box_type, m))) == m,
        signature_field(generated_raw(random, box_type, m)) == MANUFACTURE_SIGNATURE,
{
    let raw = generated_raw(random, box_type, m);
    let code = manufacture_code(m);
    let hi = manufacture_high(m);
    let lo = manufacture_low(m);
    assert(((0xb002u16 >> 8u16) & 0xf0u16) as u8 == 0xb0u8) by (bit_vector);
    assert((0xb002u16 & 0xffu16) as u8 == 0x02u8) by (bit_vector);
    assert(raw[4] == hi && raw[5] == lo && raw[6] == 0x02u8);
    assert(lo == (0xb0u8 | ((code & 0x0fu16) as u8)) as u8);
    assert((((((code >> 8u16) & 0xf0u16) as u8) & 0xf0u8) as u16) << 8u16 | ((((0xb0u8 | ((code & 0x0fu16) as u8)) as u8) & 0x0fu8) as u16) == code & 0xf00fu16) by (bit_vector);
    assert((((((0xb0u8 | ((code & 0x0fu16) as u8)) as u8) & 0xf0u8) as u16) << 8u16) | (0x02u8 as u16) == 0xb002u16) by (bit_vector);
    assert(code == 0xffffu16 ==> code & 0xf00fu16 == 0xf00fu16) by (bit_vector);
    assert(code & 0x0ff0u16 == 0 ==> code & 0xf00fu16 == code) by (bit_vector);
    assert(code == 0xffff || code & 0x0ff0u16 == 0) by {
        assert(0x1000u16 & 0x0ff0u16 == 0) by (bit_vector);
        assert(forall|x: u16| #![trigger x & 0x0ff0u16] x % 0x1000 == 0 ==> x & 0x0ff0u16 == 0) by (bit_vector);
        assert(1u16 & 0x0ff0u16 == 0) by (bit_vector);
    }
}

/// Relies on rand_core's `OsRng::try_fill_bytes`: eight bytes from the
/// operating system's random source, or its failure.
#[verifier::external_body]
fn random_ssid_bytes() -> (r: Result<[u8; 8], SSIDError>) {
    let mut raw = [0u8; 8];
    match OsRng.try_fill_bytes(&mut raw) {
        Ok(()) => Ok(raw),
        Err(_) => Err(SSIDError::RandomSource),
    }
}

#[derive(Debug, Clone)]
pub struct SSIDInfo {
    pub box_type: SSIDBoxType,
    pub box_id: u32,
    pub manufacture: SSIDManufacture,
    pub manufacture_unknown1: u8,
    pub manufacture_signature: u16,
    pub crc: u8,
    pub calculated_crc: u8,
    pub raw: [u8; 8],
    pub value: String,
}

impl SSIDInfo {
    /// A fresh identifier of box type `box_type` and manufacturer
    /// `manufacture`, with a random box number, the signature set and a CRC
    /// that checks.
    pub fn generate(box_type: SSIDBoxType, manufacture: SSIDManufacture) -> (r: Result<SSIDInfo, SSIDError>)
        ensures
            r is Err ==> r == Err::<SSIDInfo, SSIDError>(SSIDError::RandomSource),
            r is Ok ==> r->Ok_0.box_type == box_type && r->Ok_0.manufacture == manufacture
                && r->Ok_0.manufacture_signature == MANUFACTURE_SIGNATURE
                && r->Ok_0.crc == r->Ok_0.calculated_crc,
    {
        match random_ssid_bytes() {
            Ok(random) => Ok(SSIDInfo::generate_with(random, box_type, manufacture)),
            Err(e) => Err(e),
        }
    }

    /// The identifier that `generate` makes from the random bytes `random`.
    pub fn generate_with(random: [u8; 8], box_type: SSIDBoxType, manufacture: SSIDManufacture) -> (r: SSIDInfo)
        ensures
            decodes(r, generated_raw(random@, box_type, manufacture)),
            r.box_type == box_type,
            r.manufacture == manufacture,
            r.manufacture_signature == MANUFACTURE_SIGNATURE,
            r.crc == r.calculated_crc,
    {
        let mut raw_ssid = random;
        raw_ssid[0] = SSIDBoxType::to_u8(&box_type);
        let u_manufacture: u16 = SSIDManufacture::to_u16(&manufacture);
        raw_ssid[4] = ((u_manufacture >> 8u16) & 0xf0u16) as u8;
        raw_ssid[5] = (((MANUFACTURE_SIGNATURE >> 8u16) & 0xf0u16) as u8) | ((u_manufacture & 0x0fu16) as u8);
        raw_ssid[6] = (MANUFACTURE_SIGNATURE & 0xffu16) as u8;
        assert(raw_ssid@ =~= generated_body(random@, box_type, manufacture));
        raw_ssid[7] = SSIDInfo::calculate_raw_crc(raw_ssid);
        assert(raw_ssid@ =~= generated_raw(random@, box_type, manufacture));
        proof {
            lemma_generated_ssid_checks(random@, box_type, manufacture);
            lemma_generated_ssid_fields(random@, box_type, manufacture);
        }
        SSIDInfo::new_decoded(raw_ssid)
    }

    /// Decodes the 8 bytes of an identifier; decoding itself never fails. A
    /// manufacturer field without the signature decodes as `Generic`.
    pub fn new(ssid: [u8; 8]) -> (r: Result<SSIDInfo, SSIDError>)
        ensures
            r is Ok,
            r is Ok ==> decodes(r->Ok_0, ssid@),
    {
        Ok(SSIDInfo::new_decoded(ssid))
    }

    fn new_decoded(ssid: [u8; 8]) -> (r: SSIDInfo)
        ensures
            decodes(r, ssid@),
    {
        let u_box_type = ssid[0];
        let u_box_id: u32 = (ssid[1] as u32) * 0x10000 + (ssid[2] as u32) * 0x100 + (ssid[3] as u32);
        let u_manufacture: u16 = (((ssid[4] & 0xf0u8) as u16) << 8u16) | ((ssid[5] & 0x0fu8) as u16);
        let u_manufacture_unknown1 = ssid[4] & 0x0fu8;
        let u_manufacture_signature: u16 = (((ssid[5] & 0xf0u8) as u16) << 8u16) | (ssid[6] as u16);
        let mut bytes: Vec<u8> = Vec::new();
        let mut i: usize = 0;
        while i < 8
            invariant
                i <= 8,
                bytes@ == ssid@.subrange(0, i as int),
            decreases 8 - i,
        {
            bytes.push(ssid[i]);
            assert(bytes@ =~= ssid@.subrange(0, i + 1));
            i = i + 1;
        }
        assert(bytes@ =~= ssid@);
        let mut info = SSIDInfo {
            box_type: SSIDBoxType::from_u8(u_box_type),
            box_id: u_box_id,
            // without the signature the manufacturer field is not trusted
            manufacture: if u_manufacture_signature == MANUFACTURE_SIGNATURE {
                SSIDManufacture::from_u16(u_manufacture)
            } else {
                SSIDManufacture::Generic
            },
            manufacture_unknown1: u_manufacture_unknown1,
            manufacture_signature: u_manufacture_signature,
            crc: ssid[7],
            calculated_crc: 0,
            raw: ssid,
            value: hex_of(&bytes),
        };
        info.calculated_crc = info.calculate_crc();
        info
    }

    /// The CRC-8 of the stored bytes.
    pub fn calculate_crc(&self) -> (r: u8)
        ensures
            r == ssid_crc(self.raw@, 7),
    {
        SSIDInfo::calculate_raw_crc(self.raw)
    }

    /// The CRC-8 of the first seven bytes of `raw_ssid`.
    pub fn calculate_raw_crc(raw_ssid: [u8; 8]) -> (r: u8)
        ensures
            r == ssid_crc(raw_ssid@, 7),
    {
        let mut ssid_crc_value: u8 = 0;
        let mut index: usize = 0;
        while index < 7
            invariant
                index <= 7,
                ssid_crc_value == ssid_crc(raw_ssid@, index as nat),
            decreases 7 - index,
        {
            let mut byte = raw_ssid[index];
            let mut bit: usize = 0;
            while bit < 8
                invariant
                    bit <= 8,
                    crc_bits(ssid_crc_value, byte, (8 - bit) as nat) == crc_bits(ssid_crc(raw_ssid@, index as nat), raw_ssid@[index as int], 8),
                decreases 8 - bit,
            {
                let mix = (ssid_crc_value ^ byte) & 1u8;
                ssid_crc_value = ssid_crc_value >> 1u8;
                if mix == 1 {
                    ssid_crc_value = ssid_crc_value ^ SSID_CRC_POLY;
                }
                byte = byte >> 1u8;
                bit = bit + 1;
            }
            index = index + 1;
        }
        ssid_crc_value
    }

    /// Whether the stored CRC byte matches the bytes.
    pub fn is_valid(&self) -> (r: bool)
        ensures
            r == (self.crc == self.calculated_crc),
    {
        self.crc == self.calculated_crc
    }
}

/// The lower-case hexadecimal digits of `bytes`.
fn hex_of(bytes: &Vec<u8>) -> (r: String)
    ensures
        r@ == hex_string(bytes@),
{
    proof { reveal_strlit(""); }
    let mut s = String::from_str("");
    let mut i: usize = 0;
    while i < bytes.len()
        invariant
            i <= bytes@.len(),
            s@ == hex_string(bytes@.subrange(0, i as int)),
        decreases bytes@.len() - i,
    {
        push_hex_byte(&mut s, bytes[i]);
        proof {
            let next = bytes@.subrange(0, i + 1);
            assert(next.drop_last() =~= bytes@.subrange(0, i as int));
        }
        i = i + 1;
    }
    assert(bytes@.subrange(0, bytes@.len() as int) =~= bytes@);
    s
}

} // verus!
