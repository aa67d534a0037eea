//! The command tree a server declares (the `Commands` packet), its argument
//! parsers and their properties, and the completion suggestions sent back
//! for what a player types.
//!
//! Floating-point bounds of `brigadier:double` and `brigadier:float`
//! arguments are kept as their IEEE-754 bits, which is how they travel.
use vstd::prelude::*;
use vstd::utf8::encode_utf8;

use crate::server::nbt::{nbt_bytes, nbt_view, view_id, NbtType, NbtView};
use crate::server::packet_ids::ServerPacketType;
use crate::server::packets::{
    byte_field, count_of, lemma_string_decode_len, read_text_nbt, read_varint_field, text_nbt_decode, varint_field,
    Packet, ServerPacket,
};
use crate::util::{
    lemma_encode_utf8_len, law_string_roundtrip, law_varint_roundtrip, law_varint_size, lemma_u32_be, lemma_u64_be, lemma_varint_decode_len,
    string_bytes, string_decode, u32_be, u32_of_be, u64_be, u64_of_be, varint_bytes, varint_len, write_u32_be,
    write_u64_be, write_u8, ByteReader, EncodingHelper, IoError, VarInt,
};
use crate::version::{R1_19, R1_19_3, R1_19_4, R1_20_3, R1_20_5};

verus! {

/// The longest string (in characters) the command tree carries.
pub const COMMAND_STRING_LIMIT: usize = 32767;

/// How a `brigadier:string` argument reads its text.
#[derive(Debug, Clone, Copy, PartialEq, Eq, Structural)]
pub enum StringParserType {
    SingleWord,
    QuotablePhrase,
    GreedyPhrase,
}

/// Where the client gets suggestions for an argument from.
#[derive(Debug, Clone, Copy, PartialEq, Eq, Structural)]
pub enum SuggestionsType {
    AskServer,
    AllRecipes,
    AvailableSounds,
    SummonableEntities,
}

/// The properties an argument parser carries.  `Double` and `Float` bounds
/// are the IEEE-754 bits of the values.
#[derive(Debug, Clone)]
pub enum ArgumentProperty {
    Double { min: Option<u64>, max: Option<u64> },
    Float { min: Option<u32>, max: Option<u32> },
    Int { min: Option<i32>, max: Option<i32> },
    Long { min: Option<i64>, max: Option<i64> },
    String(StringParserType),
    Entity { mask: u8 },
    ScoreHolder { mask: u8 },
    Time { min: i32 },
    ResourceOrTag { registry: String },
    ResourceOrTagKey { registry: String },
    Resource { registry: String },
    ResourceKey { registry: String },
}

/// An argument property as a spec value.
pub enum PropertyView {
    Double { min: Option<u64>, max: Option<u64> },
    Float { min: Option<u32>, max: Option<u32> },
    Int { min: Option<i32>, max: Option<i32> },
    Long { min: Option<i64>, max: Option<i64> },
    String(StringParserType),
    Entity { mask: u8 },
    ScoreHolder { mask: u8 },
    Time { min: i32 },
    ResourceOrTag { registry: Seq<char> },
    ResourceOrTagKey { registry: Seq<char> },
    Resource { registry: Seq<char> },
    ResourceKey { registry: Seq<char> },
}

impl ArgumentProperty {
    pub open spec fn view(&self) -> PropertyView {
        match self {
            ArgumentProperty::Double { min, max } => PropertyView::Double { min: *min, max: *max },
            ArgumentProperty::Float { min, max } => PropertyView::Float { min: *min, max: *max },
            ArgumentProperty::Int { min, max } => PropertyView::Int { min: *min, max: *max },
            ArgumentProperty::Long { min, max } => PropertyView::Long { min: *min, max: *max },
            ArgumentProperty::String(t) => PropertyView::String(*t),
            ArgumentProperty::Entity { mask } => PropertyView::Entity { mask: *mask },
            ArgumentProperty::ScoreHolder { mask } => PropertyView::ScoreHolder { mask: *mask },
            ArgumentProperty::Time { min } => PropertyView::Time { min: *min },
            ArgumentProperty::ResourceOrTag { registry } => PropertyView::ResourceOrTag { registry: registry@ },
            ArgumentProperty::ResourceOrTagKey { registry } => PropertyView::ResourceOrTagKey { registry: registry@ },
            ArgumentProperty::Resource { registry } => PropertyView::Resource { registry: registry@ },
            ArgumentProperty::ResourceKey { registry } => PropertyView::ResourceKey { registry: registry@ },
        }
    }
}

/// The view of an optional property.
pub open spec fn opt_property_view(p: Option<ArgumentProperty>) -> Option<PropertyView> {
    match p {
        Some(p) => Some(p.view()),
        None => None,
    }
}

// ---------------------------------------------------------------------------
// Encoding of argument properties
// ---------------------------------------------------------------------------

/// The flags byte in front of a range: bit 0 for a minimum, bit 1 for a
/// maximum.
pub open spec fn range_flags(has_min: bool, has_max: bool) -> u8 {
    (if has_min { 1u8 } else { 0u8 }) | (if has_max { 2u8 } else { 0u8 })
}

/// The bytes of an optional bound of four bytes.
pub open spec fn opt_u32_bytes(v: Option<u32>) -> Seq<u8> {
    match v {
        Some(v) => u32_be(v),
        None => Seq::empty(),
    }
}

/// The bytes of an optional bound of eight bytes.
pub open spec fn opt_u64_bytes(v: Option<u64>) -> Seq<u8> {
    match v {
        Some(v) => u64_be(v),
        None => Seq::empty(),
    }
}

/// An optional `i32` as its bits.
pub open spec fn opt_i32_bits(v: Option<i32>) -> Option<u32> {
    match v {
        Some(v) => Some(v as u32),
        None => None,
    }
}

/// An optional `i64` as its bits.
pub open spec fn opt_i64_bits(v: Option<i64>) -> Option<u64> {
    match v {
        Some(v) => Some(v as u64),
        None => None,
    }
}

/// The byte a string parser type is written as.
pub open spec fn string_parser_byte(t: StringParserType) -> u8 {
    match t {
        StringParserType::SingleWord => 0,
        StringParserType::QuotablePhrase => 1,
        StringParserType::GreedyPhrase => 2,
    }
}

/// The bytes an argument property is written as.
pub open spec fn property_bytes(p: PropertyView) -> Seq<u8> {
    match p {
        PropertyView::Double { min, max } => seq![range_flags(min is Some, max is Some)] + opt_u64_bytes(min)
            + opt_u64_bytes(max),
        PropertyView::Float { min, max } => seq![range_flags(min is Some, max is Some)] + opt_u32_bytes(min)
            + opt_u32_bytes(max),
        PropertyView::Int { min, max } => seq![range_flags(min is Some, max is Some)] + opt_u32_bytes(
            opt_i32_bits(min),
        ) + opt_u32_bytes(opt_i32_bits(max)),
        PropertyView::Long { min, max } => seq![range_flags(min is Some, max is Some)] + opt_u64_bytes(
            opt_i64_bits(min),
        ) + opt_u64_bytes(opt_i64_bits(max)),
        PropertyView::String(t) => seq![string_parser_byte(t)],
        PropertyView::Entity { mask } => seq![mask],
        PropertyView::ScoreHolder { mask } => seq![mask],
        PropertyView::Time { min } => u32_be(min as u32),
        PropertyView::ResourceOrTag { registry } => string_bytes(registry),
        PropertyView::ResourceOrTagKey { registry } => string_bytes(registry),
        PropertyView::Resource { registry } => string_bytes(registry),
        PropertyView::ResourceKey { registry } => string_bytes(registry),
    }
}

fn write_range_flags(dst: &mut Vec<u8>, has_min: bool, has_max: bool)
    ensures
        final(dst)@ == old(dst)@ + seq![range_flags(has_min, has_max)],
{
    let lo: u8 = if has_min { 1 } else { 0 };
    let hi: u8 = if has_max { 2 } else { 0 };
    write_u8(dst, lo | hi);
}

fn write_opt_u32(dst: &mut Vec<u8>, v: Option<u32>)
    ensures
        final(dst)@ == old(dst)@ + opt_u32_bytes(v),
{
    match v {
        Some(v) => write_u32_be(dst, v),
        None => {
            proof { assert(old(dst)@ + opt_u32_bytes(None) =~= old(dst)@); }
        },
    }
}

fn write_opt_u64(dst: &mut Vec<u8>, v: Option<u64>)
    ensures
        final(dst)@ == old(dst)@ + opt_u64_bytes(v),
{
    match v {
        Some(v) => write_u64_be(dst, v),
        None => {
            proof { assert(old(dst)@ + opt_u64_bytes(None) =~= old(dst)@); }
        },
    }
}

impl ArgumentProperty {
    /// Writes the property.
    pub fn encode(&self, dst: &mut Vec<u8>) -> (r: Result<(), IoError>)
        ensures
            r is Ok,
            final(dst)@ == old(dst)@ + property_bytes(self.view()),
    {
        let ghost d0 = dst@;
        match self {
            ArgumentProperty::Double { min, max } => {
                write_range_flags(dst, min.is_some(), max.is_some());
                write_opt_u64(dst, *min);
                write_opt_u64(dst, *max);
            },
            ArgumentProperty::Float { min, max } => {
                write_range_flags(dst, min.is_some(), max.is_some());
                write_opt_u32(dst, *min);
                write_opt_u32(dst, *max);
            },
            ArgumentProperty::Int { min, max } => {
                write_range_flags(dst, min.is_some(), max.is_some());
                let lo: Option<u32> = match min {
                    Some(v) => Some(*v as u32),
                    None => None,
                };
                let hi: Option<u32> = match max {
                    Some(v) => Some(*v as u32),
                    None => None,
                };
                write_opt_u32(dst, lo);
                write_opt_u32(dst, hi);
            },
            ArgumentProperty::Long { min, max } => {
                write_range_flags(dst, min.is_some(), max.is_some());
                let lo: Option<u64> = match min {
                    Some(v) => Some(*v as u64),
                    None => None,
                };
                let hi: Option<u64> = match max {
                    Some(v) => Some(*v as u64),
                    None => None,
                };
                write_opt_u64(dst, lo);
                write_opt_u64(dst, hi);
            },
            ArgumentProperty::String(t) => {
                let b: u8 = match t {
                    StringParserType::SingleWord => 0,
                    StringParserType::QuotablePhrase => 1,
                    StringParserType::GreedyPhrase => 2,
                };
                write_u8(dst, b);
            },
            ArgumentProperty::Entity { mask } => write_u8(dst, *mask),
            ArgumentProperty::ScoreHolder { mask } => write_u8(dst, *mask),
            ArgumentProperty::Time { min } => write_u32_be(dst, *min as u32),
            ArgumentProperty::ResourceOrTag { registry } => {
                let _ = EncodingHelper::write_string(dst, registry.as_str());
            },
            ArgumentProperty::ResourceOrTagKey { registry } => {
                let _ = EncodingHelper::write_string(dst, registry.as_str());
            },
            ArgumentProperty::Resource { registry } => {
                let _ = EncodingHelper::write_string(dst, registry.as_str());
            },
            ArgumentProperty::ResourceKey { registry } => {
                let _ = EncodingHelper::write_string(dst, registry.as_str());
            },
        }
        proof { assert(final(dst)@ =~= d0 + property_bytes(self.view())); }
        Ok(())
    }
}

// ---------------------------------------------------------------------------
// Decoding of argument properties
// ---------------------------------------------------------------------------

/// What an argument parser reads after its id: the decoder the parser
/// registry of a protocol version names for it.
#[derive(Debug, Clone, Copy, PartialEq, Eq, Structural)]
pub enum ParserKind {
    Nothing,
    Float,
    Double,
    Int,
    Long,
    String,
    Entity,
    ScoreHolder,
    Time,
    ResourceOrTag,
    ResourceOrTagKey,
    Resource,
    ResourceKey,
}

/// The number of parsers the registry of a protocol version lists.
pub open spec fn parser_table_len(version: i32) -> nat {
    if version >= R1_20_5 {
        54
    } else if version >= R1_20_3 {
        50
    } else if version >= R1_19_4 {
        49
    } else if version >= R1_19 {
        48
    } else {
        47
    }
}

/// The decoder of the parser with id `id` in the registry of a protocol
/// version; `None` for an id past the end of the registry.  Every parser
/// not named here reads no properties.
pub open spec fn parser_kind(version: i32, id: usize) -> Option<ParserKind> {
    if id >= parser_table_len(version) {
        None
    } else if id == 1 {
        Some(ParserKind::Float)
    } else if id == 2 {
        Some(ParserKind::Double)
    } else if id == 3 {
        Some(ParserKind::Int)
    } else if id == 4 {
        Some(ParserKind::Long)
    } else if id == 5 {
        Some(ParserKind::String)
    } else if id == 6 {
        Some(ParserKind::Entity)
    } else if version >= R1_20_5 {
        Some(
            if id == 30 {
                ParserKind::ScoreHolder
            } else if id == 42 {
                ParserKind::Time
            } else if id == 43 {
                ParserKind::ResourceOrTag
            } else if id == 44 {
                ParserKind::ResourceOrTagKey
            } else if id == 45 {
                ParserKind::Resource
            } else if id == 46 {
                ParserKind::ResourceKey
            } else {
                ParserKind::Nothing
            },
        )
    } else if version >= R1_20_3 {
        Some(
            if id == 30 {
                ParserKind::ScoreHolder
            } else if id == 41 {
                ParserKind::Time
            } else if id == 42 {
                ParserKind::ResourceOrTag
            } else if id == 43 {
                ParserKind::ResourceOrTagKey
            } else if id == 44 {
                ParserKind::Resource
            } else if id == 45 {
                ParserKind::ResourceKey
            } else {
                ParserKind::Nothing
            },
        )
    } else if version >= R1_19_4 {
        Some(
            if id == 29 {
                ParserKind::ScoreHolder
            } else if id == 40 {
                ParserKind::Time
            } else if id == 41 {
                ParserKind::ResourceOrTag
            } else if id == 42 {
                ParserKind::ResourceOrTagKey
            } else if id == 43 {
                ParserKind::Resource
            } else if id == 44 {
                ParserKind::ResourceKey
            } else {
                ParserKind::Nothing
            },
        )
    } else if version >= R1_19_3 {
        Some(
            if id == 29 {
                ParserKind::ScoreHolder
            } else if id == 41 {
                ParserKind::ResourceOrTag
            } else if id == 42 {
                ParserKind::ResourceOrTagKey
            } else if id == 43 {
                ParserKind::Resource
            } else if id == 44 {
                ParserKind::ResourceKey
            } else {
                ParserKind::Nothing
            },
        )
    } else {
        Some(
            if id == 29 {
                ParserKind::ScoreHolder
            } else if id == 43 {
                ParserKind::ResourceOrTag
            } else if id == 44 {
                ParserKind::Resource
            } else {
                ParserKind::Nothing
            },
        )
    }
}

/// Looks up the decoder of a parser id in the registry of a protocol
/// version.
pub fn parser_kind_of(version: i32, id: usize) -> (r: Option<ParserKind>)
    ensures
        r == parser_kind(version, id),
{
    let len: usize = if version >= R1_20_5 {
        54
    } else if version >= R1_20_3 {
        50
    } else if version >= R1_19_4 {
        49
    } else if version >= R1_19 {
        48
    } else {
        47
    };
    if id >= len {
        return None;
    }
    let kind = if id == 1 {
        ParserKind::Float
    } else if id == 2 {
        ParserKind::Double
    } else if id == 3 {
        ParserKind::Int
    } else if id == 4 {
        ParserKind::Long
    } else if id == 5 {
        ParserKind::String
    } else if id == 6 {
        ParserKind::Entity
    } else if version >= R1_20_5 {
        if id == 30 {
            ParserKind::ScoreHolder
        } else if id == 42 {
            ParserKind::Time
        } else if id == 43 {
            ParserKind::ResourceOrTag
        } else if id == 44 {
            ParserKind::ResourceOrTagKey
        } else if id == 45 {
            ParserKind::Resource
        } else if id == 46 {
            ParserKind::ResourceKey
        } else {
            ParserKind::Nothing
        }
    } else if version >= R1_20_3 {
        if id == 30 {
            ParserKind::ScoreHolder
        } else if id == 41 {
            ParserKind::Time
        } else if id == 42 {
            ParserKind::ResourceOrTag
        } else if id == 43 {
            ParserKind::ResourceOrTagKey
        } else if id == 44 {
            ParserKind::Resource
        } else if id == 45 {
            ParserKind::ResourceKey
        } else {
            ParserKind::Nothing
        }
    } else if version >= R1_19_4 {
        if id == 29 {
            ParserKind::ScoreHolder
        } else if id == 40 {
            ParserKind::Time
        } else if id == 41 {
            ParserKind::ResourceOrTag
        } else if id == 42 {
            ParserKind::ResourceOrTagKey
        } else if id == 43 {
            ParserKind::Resource
        } else if id == 44 {
            ParserKind::ResourceKey
        } else {
            ParserKind::Nothing
        }
    } else if version >= R1_19_3 {
        if id == 29 {
            ParserKind::ScoreHolder
        } else if id == 41 {
            ParserKind::ResourceOrTag
        } else if id == 42 {
            ParserKind::ResourceOrTagKey
        } else if id == 43 {
            ParserKind::Resource
        } else if id == 44 {
            ParserKind::ResourceKey
        } else {
            ParserKind::Nothing
        }
    } else {
        if id == 29 {
            ParserKind::ScoreHolder
        } else if id == 43 {
            ParserKind::ResourceOrTag
        } else if id == 44 {
            ParserKind::Resource
        } else {
            ParserKind::Nothing
        }
    };
    Some(kind)
}

/// Reading an optional bound of `width` bytes: the bytes when `present`,
/// else nothing.
pub open spec fn bound_field(s: Seq<u8>, present: bool, width: nat) -> Result<(Option<Seq<u8>>, nat), IoError> {
    if !present {
        Ok((None, 0))
    } else if s.len() < width {
        Err(IoError::UnexpectedEof)
    } else {
        Ok((Some(s.take(width as int)), width))
    }
}

/// Reading a range: the flags byte, then the minimum (bit 0) and the
/// maximum (bit 1), each of `width` bytes.
pub open spec fn bounds_decode(s: Seq<u8>, width: nat) -> Result<(Option<Seq<u8>>, Option<Seq<u8>>, nat), IoError> {
    match byte_field(s) {
        Err(e) => Err(e),
        Ok((flags, _)) => match bound_field(s.skip(1), flags & 0x01u8 != 0, width) {
            Err(e) => Err(e),
            Ok((lo, n1)) => match bound_field(s.skip((1 + n1) as int), flags & 0x02u8 != 0, width) {
                Err(e) => Err(e),
                Ok((hi, n2)) => Ok((lo, hi, 1 + n1 + n2)),
            },
        },
    }
}

/// Four bound bytes as their big-endian value.
pub open spec fn opt_be32(b: Option<Seq<u8>>) -> Option<u32> {
    match b {
        Some(b) => Some(u32_of_be(b)),
        None => None,
    }
}

/// Eight bound bytes as their big-endian value.
pub open spec fn opt_be64(b: Option<Seq<u8>>) -> Option<u64> {
    match b {
        Some(b) => Some(u64_of_be(b)),
        None => None,
    }
}

/// Four bound bytes as a big-endian `i32`.
pub open spec fn opt_be_i32(b: Option<Seq<u8>>) -> Option<i32> {
    match b {
        Some(b) => Some(u32_of_be(b) as i32),
        None => None,
    }
}

/// Eight bound bytes as a big-endian `i64`.
pub open spec fn opt_be_i64(b: Option<Seq<u8>>) -> Option<i64> {
    match b {
        Some(b) => Some(u64_of_be(b) as i64),
        None => None,
    }
}

/// Reading a registry name.
pub open spec fn registry_decode(s: Seq<u8>) -> Result<(Seq<char>, nat), IoError> {
    string_decode(s, COMMAND_STRING_LIMIT as nat)
}

/// Reading the properties of a parser with decoder `kind`: `None` for a
/// parser without properties.
pub open spec fn property_decode(s: Seq<u8>, kind: ParserKind) -> Result<(Option<PropertyView>, nat), IoError> {
    match kind {
        ParserKind::Nothing => Ok((None, 0)),
        ParserKind::Double => match bounds_decode(s, 8) {
            Err(e) => Err(e),
            Ok((lo, hi, n)) => Ok((Some(PropertyView::Double { min: opt_be64(lo), max: opt_be64(hi) }), n)),
        },
        ParserKind::Float => match bounds_decode(s, 4) {
            Err(e) => Err(e),
            Ok((lo, hi, n)) => Ok((Some(PropertyView::Float { min: opt_be32(lo), max: opt_be32(hi) }), n)),
        },
        ParserKind::Int => match bounds_decode(s, 4) {
            Err(e) => Err(e),
            Ok((lo, hi, n)) => Ok((Some(PropertyView::Int { min: opt_be_i32(lo), max: opt_be_i32(hi) }), n)),
        },
        ParserKind::Long => match bounds_decode(s, 8) {
            Err(e) => Err(e),
            Ok((lo, hi, n)) => Ok((Some(PropertyView::Long { min: opt_be_i64(lo), max: opt_be_i64(hi) }), n)),
        },
        ParserKind::String => match byte_field(s) {
            Err(e) => Err(e),
            Ok((b, n)) => if b == 0 {
                Ok((Some(PropertyView::String(StringParserType::SingleWord)), n))
            } else if b == 1 {
                Ok((Some(PropertyView::String(StringParserType::QuotablePhrase)), n))
            } else if b == 2 {
                Ok((Some(PropertyView::String(StringParserType::GreedyPhrase)), n))
            } else {
                Err(IoError::InvalidData)
            },
        },
        ParserKind::Entity => match byte_field(s) {
            Err(e) => Err(e),
            Ok((b, n)) => Ok((Some(PropertyView::Entity { mask: b }), n)),
        },
        ParserKind::ScoreHolder => match byte_field(s) {
            Err(e) => Err(e),
            Ok((b, n)) => Ok((Some(PropertyView::ScoreHolder { mask: b }), n)),
        },
        ParserKind::Time => if s.len() < 4 {
            Err(IoError::UnexpectedEof)
        } else {
            Ok((Some(PropertyView::Time { min: u32_of_be(s.take(4)) as i32 }), 4))
        },
        ParserKind::ResourceOrTag => match registry_decode(s) {
            Err(e) => Err(e),
            Ok((t, n)) => Ok((Some(PropertyView::ResourceOrTag { registry: t }), n)),
        },
        ParserKind::ResourceOrTagKey => match registry_decode(s) {
            Err(e) => Err(e),
            Ok((t, n)) => Ok((Some(PropertyView::ResourceOrTagKey { registry: t }), n)),
        },
        ParserKind::Resource => match registry_decode(s) {
            Err(e) => Err(e),
            Ok((t, n)) => Ok((Some(PropertyView::Resource { registry: t }), n)),
        },
        ParserKind::ResourceKey => match registry_decode(s) {
            Err(e) => Err(e),
            Ok((t, n)) => Ok((Some(PropertyView::ResourceKey { registry: t }), n)),
        },
    }
}

/// Reading the properties of the parser with id `parser_id` in a protocol
/// version: an id the registry does not list is invalid.
pub open spec fn property_by_parser_decode(s: Seq<u8>, parser_id: usize, version: i32) -> Result<
    (Option<PropertyView>, nat),
    IoError,
> {
    match parser_kind(version, parser_id) {
        None => Err(IoError::InvalidData),
        Some(kind) => property_decode(s, kind),
    }
}

fn read_bound32(src: &mut ByteReader, present: bool) -> (r: Result<Option<u32>, IoError>)
    ensures
        match bound_field(old(src).rest(), present, 4) {
            Ok((b, n)) => r == Ok::<Option<u32>, IoError>(opt_be32(b)) && final(src).rest() == old(src).rest().skip(
                n as int,
            ),
            Err(e) => r == Err::<Option<u32>, IoError>(e),
        },
{
    if present {
        let v = src.read_u32_be()?;
        Ok(Some(v))
    } else {
        proof { assert(src.rest().skip(0) =~= src.rest()); }
        Ok(None)
    }
}

fn read_bound64(src: &mut ByteReader, present: bool) -> (r: Result<Option<u64>, IoError>)
    ensures
        match bound_field(old(src).rest(), present, 8) {
            Ok((b, n)) => r == Ok::<Option<u64>, IoError>(opt_be64(b)) && final(src).rest() == old(src).rest().skip(
                n as int,
            ),
            Err(e) => r == Err::<Option<u64>, IoError>(e),
        },
{
    if present {
        let v = src.read_u64_be()?;
        Ok(Some(v))
    } else {
        proof { assert(src.rest().skip(0) =~= src.rest()); }
        Ok(None)
    }
}

fn read_bounds32(src: &mut ByteReader) -> (r: Result<(Option<u32>, Option<u32>), IoError>)
    ensures
        match bounds_decode(old(src).rest(), 4) {
            Ok((lo, hi, n)) => r == Ok::<(Option<u32>, Option<u32>), IoError>((opt_be32(lo), opt_be32(hi)))
                && final(src).rest() == old(src).rest().skip(n as int) && n <= old(src).rest().len(),
            Err(e) => r == Err::<(Option<u32>, Option<u32>), IoError>(e),
        },
{
    let ghost s = src.rest();
    let flags = src.read_u8()?;
    proof { assert(src.rest() =~= s.skip(1)); }
    let min = read_bound32(src, flags & 0x01 != 0)?;
    let ghost n1 = bound_field(s.skip(1), flags & 0x01u8 != 0, 4).unwrap().1;
    proof { assert(src.rest() =~= s.skip((1 + n1) as int)); }
    let max = read_bound32(src, flags & 0x02 != 0)?;
    proof {
        let n2 = bound_field(s.skip((1 + n1) as int), flags & 0x02u8 != 0, 4).unwrap().1;
        assert(src.rest() =~= s.skip((1 + n1 + n2) as int));
    }
    Ok((min, max))
}

fn read_bounds64(src: &mut ByteReader) -> (r: Result<(Option<u64>, Option<u64>), IoError>)
    ensures
        match bounds_decode(old(src).rest(), 8) {
            Ok((lo, hi, n)) => r == Ok::<(Option<u64>, Option<u64>), IoError>((opt_be64(lo), opt_be64(hi)))
                && final(src).rest() == old(src).rest().skip(n as int) && n <= old(src).rest().len(),
            Err(e) => r == Err::<(Option<u64>, Option<u64>), IoError>(e),
        },
{
    let ghost s = src.rest();
    let flags = src.read_u8()?;
    proof { assert(src.rest() =~= s.skip(1)); }
    let min = read_bound64(src, flags & 0x01 != 0)?;
    let ghost n1 = bound_field(s.skip(1), flags & 0x01u8 != 0, 8).unwrap().1;
    proof { assert(src.rest() =~= s.skip((1 + n1) as int)); }
    let max = read_bound64(src, flags & 0x02 != 0)?;
    proof {
        let n2 = bound_field(s.skip((1 + n1) as int), flags & 0x02u8 != 0, 8).unwrap().1;
        assert(src.rest() =~= s.skip((1 + n1 + n2) as int));
    }
    Ok((min, max))
}

fn read_registry(src: &mut ByteReader) -> (r: Result<String, IoError>)
    ensures
        match registry_decode(old(src).rest()) {
            Ok((t, n)) => r matches Ok(x) && x@ == t && final(src).rest() == old(src).rest().skip(n as int) && n
                <= old(src).rest().len(),
            Err(e) => r == Err::<String, IoError>(e),
        },
{
    proof { lemma_string_decode_len(old(src).rest(), COMMAND_STRING_LIMIT as nat); }
    EncodingHelper::read_string(src, COMMAND_STRING_LIMIT)
}

impl ArgumentProperty {
    /// Reads a `brigadier:double` range (bounds as bits).
    pub fn decode_double(src: &mut ByteReader) -> (r: Result<Option<ArgumentProperty>, IoError>)
        ensures
            match property_decode(old(src).rest(), ParserKind::Double) {
                Ok((p, n)) => r matches Ok(q) && opt_property_view(q) == p && final(src).rest() == old(src).rest().skip(
                    n as int,
                ) && n <= old(src).rest().len(),
                Err(e) => r == Err::<Option<ArgumentProperty>, IoError>(e),
            },
    {
        let (min, max) = read_bounds64(src)?;
        Ok(Some(ArgumentProperty::Double { min, max }))
    }

    /// Reads a `brigadier:float` range (bounds as bits).
    pub fn decode_float(src: &mut ByteReader) -> (r: Result<Option<ArgumentProperty>, IoError>)
        ensures
            match property_decode(old(src).rest(), ParserKind::Float) {
                Ok((p, n)) => r matches Ok(q) && opt_property_view(q) == p && final(src).rest() == old(src).rest().skip(
                    n as int,
                ) && n <= old(src).rest().len(),
                Err(e) => r == Err::<Option<ArgumentProperty>, IoError>(e),
            },
    {
        let (min, max) = read_bounds32(src)?;
        Ok(Some(ArgumentProperty::Float { min, max }))
    }

    /// Reads a `brigadier:integer` range.
    pub fn decode_int(src: &mut ByteReader) -> (r: Result<Option<ArgumentProperty>, IoError>)
        ensures
            match property_decode(old(src).rest(), ParserKind::Int) {
                Ok((p, n)) => r matches Ok(q) && opt_property_view(q) == p && final(src).rest() == old(src).rest().skip(
                    n as int,
                ) && n <= old(src).rest().len(),
                Err(e) => r == Err::<Option<ArgumentProperty>, IoError>(e),
            },
    {
        let (min, max) = read_bounds32(src)?;
        let min: Option<i32> = match min {
            Some(v) => Some(v as i32),
            None => None,
        };
        let max: Option<i32> = match max {
            Some(v) => Some(v as i32),
            None => None,
        };
        Ok(Some(ArgumentProperty::Int { min, max }))
    }

    /// Reads a `brigadier:long` range.
    pub fn decode_long(src: &mut ByteReader) -> (r: Result<Option<ArgumentProperty>, IoError>)
        ensures
            match property_decode(old(src).rest(), ParserKind::Long) {
                Ok((p, n)) => r matches Ok(q) && opt_property_view(q) == p && final(src).rest() == old(src).rest().skip(
                    n as int,
                ) && n <= old(src).rest().len(),
                Err(e) => r == Err::<Option<ArgumentProperty>, IoError>(e),
            },
    {
        let (min, max) = read_bounds64(src)?;
        let min: Option<i64> = match min {
            Some(v) => Some(v as i64),
            None => None,
        };
        let max: Option<i64> = match max {
            Some(v) => Some(v as i64),
            None => None,
        };
        Ok(Some(ArgumentProperty::Long { min, max }))
    }

    /// Reads how a `brigadier:string` argument reads its text.
    pub fn decode_string(src: &mut ByteReader) -> (r: Result<Option<ArgumentProperty>, IoError>)
        ensures
            match property_decode(old(src).rest(), ParserKind::String) {
                Ok((p, n)) => r matches Ok(q) && opt_property_view(q) == p && final(src).rest() == old(src).rest().skip(
                    n as int,
                ) && n <= old(src).rest().len(),
                Err(e) => r == Err::<Option<ArgumentProperty>, IoError>(e),
            },
    {
        let b = src.read_u8()?;
        proof { assert(old(src).rest().drop_first() =~= old(src).rest().skip(1)); }
        if b == 0 {
            Ok(Some(ArgumentProperty::String(StringParserType::SingleWord)))
        } else if b == 1 {
            Ok(Some(ArgumentProperty::String(StringParserType::QuotablePhrase)))
        } else if b == 2 {
            Ok(Some(ArgumentProperty::String(StringParserType::GreedyPhrase)))
        } else {
            Err(IoError::InvalidData)
        }
    }

    /// Reads the mask of an entity argument.
    fn decode_entity(src: &mut ByteReader) -> (r: Result<Option<ArgumentProperty>, IoError>)
        ensures
            match property_decode(old(src).rest(), ParserKind::Entity) {
                Ok((p, n)) => r matches Ok(q) && opt_property_view(q) == p && final(src).rest() == old(src).rest().skip(
                    n as int,
                ) && n <= old(src).rest().len(),
                Err(e) => r == Err::<Option<ArgumentProperty>, IoError>(e),
            },
    {
        let mask = src.read_u8()?;
        proof { assert(old(src).rest().drop_first() =~= old(src).rest().skip(1)); }
        Ok(Some(ArgumentProperty::Entity { mask }))
    }

    /// Reads the mask of a score holder argument.
    fn decode_score_holder(src: &mut ByteReader) -> (r: Result<Option<ArgumentProperty>, IoError>)
        ensures
            match property_decode(old(src).rest(), ParserKind::ScoreHolder) {
                Ok((p, n)) => r matches Ok(q) && opt_property_view(q) == p && final(src).rest() == old(src).rest().skip(
                    n as int,
                ) && n <= old(src).rest().len(),
                Err(e) => r == Err::<Option<ArgumentProperty>, IoError>(e),
            },
    {
        let mask = src.read_u8()?;
        proof { assert(old(src).rest().drop_first() =~= old(src).rest().skip(1)); }
        Ok(Some(ArgumentProperty::ScoreHolder { mask }))
    }

    /// Reads the minimum of a time argument.
    fn decode_time(src: &mut ByteReader) -> (r: Result<Option<ArgumentProperty>, IoError>)
        ensures
            match property_decode(old(src).rest(), ParserKind::Time) {
                Ok((p, n)) => r matches Ok(q) && opt_property_view(q) == p && final(src).rest() == old(src).rest().skip(
                    n as int,
                ) && n <= old(src).rest().len(),
                Err(e) => r == Err::<Option<ArgumentProperty>, IoError>(e),
            },
    {
        let min = src.read_u32_be()?;
        Ok(Some(ArgumentProperty::Time { min: min as i32 }))
    }

    /// Reads the registry of a resource-or-tag argument.
    fn decode_resource_or_tag(src: &mut ByteReader) -> (r: Result<Option<ArgumentProperty>, IoError>)
        ensures
            match property_decode(old(src).rest(), ParserKind::ResourceOrTag) {
                Ok((p, n)) => r matches Ok(q) && opt_property_view(q) == p && final(src).rest() == old(src).rest().skip(
                    n as int,
                ) && n <= old(src).rest().len(),
                Err(e) => r == Err::<Option<ArgumentProperty>, IoError>(e),
            },
    {
        let registry = read_registry(src)?;
        Ok(Some(ArgumentProperty::ResourceOrTag { registry }))
    }

    /// Reads the registry of a resource-or-tag-key argument.
    fn decode_resource_or_tag_key(src: &mut ByteReader) -> (r: Result<Option<ArgumentProperty>, IoError>)
        ensures
            match property_decode(old(src).rest(), ParserKind::ResourceOrTagKey) {
                Ok((p, n)) => r matches Ok(q) && opt_property_view(q) == p && final(src).rest() == old(src).rest().skip(
                    n as int,
                ) && n <= old(src).rest().len(),
                Err(e) => r == Err::<Option<ArgumentProperty>, IoError>(e),
            },
    {
        let registry = read_registry(src)?;
        Ok(Some(ArgumentProperty::ResourceOrTagKey { registry }))
    }

    /// Reads the registry of a resource argument.
    fn decode_resource(src: &mut ByteReader) -> (r: Result<Option<ArgumentProperty>, IoError>)
        ensures
            match property_decode(old(src).rest(), ParserKind::Resource) {
                Ok((p, n)) => r matches Ok(q) && opt_property_view(q) == p && final(src).rest() == old(src).rest().skip(
                    n as int,
                ) && n <= old(src).rest().len(),
                Err(e) => r == Err::<Option<ArgumentProperty>, IoError>(e),
            },
    {
        let registry = read_registry(src)?;
        Ok(Some(ArgumentProperty::Resource { registry }))
    }

    /// Reads the registry of a resource-key argument.
    fn decode_resource_key(src: &mut ByteReader) -> (r: Result<Option<ArgumentProperty>, IoError>)
        ensures
            match property_decode(old(src).rest(), ParserKind::ResourceKey) {
                Ok((p, n)) => r matches Ok(q) && opt_property_view(q) == p && final(src).rest() == old(src).rest().skip(
                    n as int,
                ) && n <= old(src).rest().len(),
                Err(e) => r == Err::<Option<ArgumentProperty>, IoError>(e),
            },
    {
        let registry = read_registry(src)?;
        Ok(Some(ArgumentProperty::ResourceKey { registry }))
    }

    /// Reads nothing: the parser has no properties.
    fn decode_nothing(src: &mut ByteReader) -> (r: Result<Option<ArgumentProperty>, IoError>)
        ensures
            match property_decode(old(src).rest(), ParserKind::Nothing) {
                Ok((p, n)) => r matches Ok(q) && opt_property_view(q) == p && final(src).rest() == old(src).rest().skip(
                    n as int,
                ) && n <= old(src).rest().len(),
                Err(e) => r == Err::<Option<ArgumentProperty>, IoError>(e),
            },
    {
        proof { assert(src.rest().skip(0) =~= src.rest()); }
        Ok(None)
    }

    /// Reads the properties of the parser with id `parser_id`, as the
    /// parser registry of the protocol version lists it.
    pub fn decode_by_parser_id(src: &mut ByteReader, parser_id: usize, version: i32) -> (r: Result<
        Option<ArgumentProperty>,
        IoError,
    >)
        ensures
            match property_by_parser_decode(old(src).rest(), parser_id, version) {
                Ok((p, n)) => r matches Ok(q) && opt_property_view(q) == p && final(src).rest() == old(src).rest().skip(
                    n as int,
                ) && n <= old(src).rest().len(),
                Err(e) => r == Err::<Option<ArgumentProperty>, IoError>(e),
            },
    {
        match parser_kind_of(version, parser_id) {
            None => Err(IoError::InvalidData),
            Some(kind) => match kind {
                ParserKind::Nothing => Self::decode_nothing(src),
                ParserKind::Float => Self::decode_float(src),
                ParserKind::Double => Self::decode_double(src),
                ParserKind::Int => Self::decode_int(src),
                ParserKind::Long => Self::decode_long(src),
                ParserKind::String => Self::decode_string(src),
                ParserKind::Entity => Self::decode_entity(src),
                ParserKind::ScoreHolder => Self::decode_score_holder(src),
                ParserKind::Time => Self::decode_time(src),
                ParserKind::ResourceOrTag => Self::decode_resource_or_tag(src),
                ParserKind::ResourceOrTagKey => Self::decode_resource_or_tag_key(src),
                ParserKind::Resource => Self::decode_resource(src),
                ParserKind::ResourceKey => Self::decode_resource_key(src),
            },
        }
    }
}

// ---------------------------------------------------------------------------
// Laws of argument properties
// ---------------------------------------------------------------------------

/// The decoder that reads a property of the kind `p` is.
pub open spec fn property_kind(p: PropertyView) -> ParserKind {
    match p {
        PropertyView::Double { .. } => ParserKind::Double,
        PropertyView::Float { .. } => ParserKind::Float,
        PropertyView::Int { .. } => ParserKind::Int,
        PropertyView::Long { .. } => ParserKind::Long,
        PropertyView::String(_) => ParserKind::String,
        PropertyView::Entity { .. } => ParserKind::Entity,
        PropertyView::ScoreHolder { .. } => ParserKind::ScoreHolder,
        PropertyView::Time { .. } => ParserKind::Time,
        PropertyView::ResourceOrTag { .. } => ParserKind::ResourceOrTag,
        PropertyView::ResourceOrTagKey { .. } => ParserKind::ResourceOrTagKey,
        PropertyView::Resource { .. } => ParserKind::Resource,
        PropertyView::ResourceKey { .. } => ParserKind::ResourceKey,
    }
}

/// A string the command tree can carry: within the string limit.
pub open spec fn command_string_fits(t: Seq<char>) -> bool {
    encode_utf8(t).len() <= COMMAND_STRING_LIMIT * 3
}

/// A property whose registry name, if it has one, is within the limit.
pub open spec fn property_fits(p: PropertyView) -> bool {
    match p {
        PropertyView::ResourceOrTag { registry } => command_string_fits(registry),
        PropertyView::ResourceOrTagKey { registry } => command_string_fits(registry),
        PropertyView::Resource { registry } => command_string_fits(registry),
        PropertyView::ResourceKey { registry } => command_string_fits(registry),
        _ => true,
    }
}

proof fn lemma_range_flags(a: bool, b: bool)
    ensures
        (range_flags(a, b) & 0x01u8 != 0) == a,
        (range_flags(a, b) & 0x02u8 != 0) == b,
{
    let lo: u8 = if a { 1u8 } else { 0u8 };
    let hi: u8 = if b { 2u8 } else { 0u8 };
    assert(((lo | hi) & 0x01u8 != 0) == (lo == 1u8) && ((lo | hi) & 0x02u8 != 0) == (hi == 2u8)) by (bit_vector)
        requires
            lo == 0u8 || lo == 1u8,
            hi == 0u8 || hi == 2u8,
    ;
}

proof fn lemma_bound32(v: Option<u32>, rest: Seq<u8>)
    ensures
        bound_field(opt_u32_bytes(v) + rest, v is Some, 4) matches Ok((b, n)) && opt_be32(b) == v && n
            == opt_u32_bytes(v).len(),
{
    if let Some(x) = v {
        lemma_u32_be(x);
        assert((u32_be(x) + rest).take(4) =~= u32_be(x));
    }
}

proof fn lemma_bound64(v: Option<u64>, rest: Seq<u8>)
    ensures
        bound_field(opt_u64_bytes(v) + rest, v is Some, 8) matches Ok((b, n)) && opt_be64(b) == v && n
            == opt_u64_bytes(v).len(),
{
    if let Some(x) = v {
        lemma_u64_be(x);
        assert((u64_be(x) + rest).take(8) =~= u64_be(x));
    }
}

proof fn lemma_bounds32(lo: Option<u32>, hi: Option<u32>, rest: Seq<u8>)
    ensures
        bounds_decode(seq![range_flags(lo is Some, hi is Some)] + opt_u32_bytes(lo) + opt_u32_bytes(hi) + rest, 4)
            matches Ok((a, b, n)) && opt_be32(a) == lo && opt_be32(b) == hi && n == 1 + opt_u32_bytes(lo).len()
            + opt_u32_bytes(hi).len(),
{
    let s = seq![range_flags(lo is Some, hi is Some)] + opt_u32_bytes(lo) + opt_u32_bytes(hi) + rest;
    lemma_range_flags(lo is Some, hi is Some);
    assert(s.skip(1) =~= opt_u32_bytes(lo) + (opt_u32_bytes(hi) + rest));
    lemma_bound32(lo, opt_u32_bytes(hi) + rest);
    assert(s.skip((1 + opt_u32_bytes(lo).len()) as int) =~= opt_u32_bytes(hi) + rest);
    lemma_bound32(hi, rest);
}

proof fn lemma_bounds64(lo: Option<u64>, hi: Option<u64>, rest: Seq<u8>)
    ensures
        bounds_decode(seq![range_flags(lo is Some, hi is Some)] + opt_u64_bytes(lo) + opt_u64_bytes(hi) + rest, 8)
            matches Ok((a, b, n)) && opt_be64(a) == lo && opt_be64(b) == hi && n == 1 + opt_u64_bytes(lo).len()
            + opt_u64_bytes(hi).len(),
{
    let s = seq![range_flags(lo is Some, hi is Some)] + opt_u64_bytes(lo) + opt_u64_bytes(hi) + rest;
    lemma_range_flags(lo is Some, hi is Some);
    assert(s.skip(1) =~= opt_u64_bytes(lo) + (opt_u64_bytes(hi) + rest));
    lemma_bound64(lo, opt_u64_bytes(hi) + rest);
    assert(s.skip((1 + opt_u64_bytes(lo).len()) as int) =~= opt_u64_bytes(hi) + rest);
    lemma_bound64(hi, rest);
}

proof fn lemma_i32_bits(v: Option<i32>)
    ensures
        opt_i32_bits(v) is Some == v is Some,
        forall|b: Option<Seq<u8>>| opt_be32(b) == opt_i32_bits(v) ==> opt_be_i32(b) == v,
{
    if let Some(x) = v {
        assert(((x as u32) as i32) == x) by (bit_vector);
    }
}

proof fn lemma_i64_bits_opt(v: Option<i64>)
    ensures
        opt_i64_bits(v) is Some == v is Some,
        forall|b: Option<Seq<u8>>| opt_be64(b) == opt_i64_bits(v) ==> opt_be_i64(b) == v,
{
    if let Some(x) = v {
        assert(((x as u64) as i64) == x) by (bit_vector);
    }
}

/// Law: an argument property reads back as it was written, whatever
/// follows it, by the decoder of its kind, when its registry name (if any)
/// is within the string limit.
pub proof fn law_argument_property_roundtrip(p: PropertyView, rest: Seq<u8>)
    requires
        property_fits(p),
    ensures
        property_decode(property_bytes(p) + rest, property_kind(p)) == Ok::<(Option<PropertyView>, nat), IoError>(
            (Some(p), property_bytes(p).len()),
        ),
{
    let s = property_bytes(p) + rest;
    match p {
        PropertyView::Double { min, max } => {
            lemma_bounds64(min, max, rest);
        },
        PropertyView::Float { min, max } => {
            lemma_bounds32(min, max, rest);
        },
        PropertyView::Int { min, max } => {
            lemma_bounds32(opt_i32_bits(min), opt_i32_bits(max), rest);
            lemma_i32_bits(min);
            lemma_i32_bits(max);
        },
        PropertyView::Long { min, max } => {
            lemma_bounds64(opt_i64_bits(min), opt_i64_bits(max), rest);
            lemma_i64_bits_opt(min);
            lemma_i64_bits_opt(max);
        },
        PropertyView::String(t) => {},
        PropertyView::Entity { mask } => {},
        PropertyView::ScoreHolder { mask } => {},
        PropertyView::Time { min } => {
            lemma_u32_be(min as u32);
            assert(s.take(4) =~= u32_be(min as u32));
            assert(((min as u32) as i32) == min) by (bit_vector);
        },
        PropertyView::ResourceOrTag { registry } => {
            law_string_roundtrip(registry, rest, COMMAND_STRING_LIMIT as nat);
        },
        PropertyView::ResourceOrTagKey { registry } => {
            law_string_roundtrip(registry, rest, COMMAND_STRING_LIMIT as nat);
        },
        PropertyView::Resource { registry } => {
            law_string_roundtrip(registry, rest, COMMAND_STRING_LIMIT as nat);
        },
        PropertyView::ResourceKey { registry } => {
            law_string_roundtrip(registry, rest, COMMAND_STRING_LIMIT as nat);
        },
    }
}

// ---------------------------------------------------------------------------
// The command tree
// ---------------------------------------------------------------------------

/// What a node of the command tree is.
#[derive(Debug, Clone)]
pub enum CommandNodeType {
    Root,
    Literal(String),
    Argument {
        name: String,
        parser_id: usize,
        properties: Option<ArgumentProperty>,
        suggestions_type: Option<SuggestionsType>,
    },
}

/// A node of the command tree: its children and the node it redirects to
/// are indices into the packet's list of nodes.
#[derive(Debug, Clone)]
pub struct CommandNode {
    pub childrens: Vec<usize>,
    pub node_type: CommandNodeType,
    pub executable: bool,
    pub redirect_index: Option<usize>,
}

/// The command tree a server declares to a client.
#[derive(Debug, Clone)]
pub struct Commands {
    pub nodes: Vec<CommandNode>,
    pub root_index: usize,
}

/// A node type as a spec value.
pub enum NodeTypeView {
    Root,
    Literal(Seq<char>),
    Argument {
        name: Seq<char>,
        parser_id: usize,
        properties: Option<PropertyView>,
        suggestions_type: Option<SuggestionsType>,
    },
}

/// A node as a spec value.
pub struct NodeView {
    pub children: Seq<usize>,
    pub node_type: NodeTypeView,
    pub executable: bool,
    pub redirect: Option<usize>,
}

impl CommandNodeType {
    pub open spec fn view(&self) -> NodeTypeView {
        match self {
            CommandNodeType::Root => NodeTypeView::Root,
            CommandNodeType::Literal(name) => NodeTypeView::Literal(name@),
            CommandNodeType::Argument { name, parser_id, properties, suggestions_type } => NodeTypeView::Argument {
                name: name@,
                parser_id: *parser_id,
                properties: opt_property_view(*properties),
                suggestions_type: *suggestions_type,
            },
        }
    }
}

impl CommandNode {
    pub open spec fn view(&self) -> NodeView {
        NodeView {
            children: self.childrens@,
            node_type: self.node_type.view(),
            executable: self.executable,
            redirect: self.redirect_index,
        }
    }
}

/// The views of a list of nodes.
pub open spec fn node_views(nodes: Seq<CommandNode>) -> Seq<NodeView> {
    nodes.map_values(|n: CommandNode| n.view())
}

/// The name a suggestions type is written as.
pub open spec fn suggestions_name(t: SuggestionsType) -> Seq<char> {
    match t {
        SuggestionsType::AskServer => "minecraft:ask_server"@,
        SuggestionsType::AllRecipes => "minecraft:all_recipes"@,
        SuggestionsType::AvailableSounds => "minecraft:available_sounds"@,
        SuggestionsType::SummonableEntities => "minecraft:summonable_entities"@,
    }
}

/// The suggestions type a name stands for, if any.
pub open spec fn suggestions_type_of(name: Seq<char>) -> Option<SuggestionsType> {
    if name == "minecraft:ask_server"@ {
        Some(SuggestionsType::AskServer)
    } else if name == "minecraft:all_recipes"@ {
        Some(SuggestionsType::AllRecipes)
    } else if name == "minecraft:available_sounds"@ {
        Some(SuggestionsType::AvailableSounds)
    } else if name == "minecraft:summonable_entities"@ {
        Some(SuggestionsType::SummonableEntities)
    } else {
        None
    }
}

/// The low two bits of a node's flags: what the node is.
pub open spec fn node_type_bits(t: NodeTypeView) -> u8 {
    match t {
        NodeTypeView::Root => 0,
        NodeTypeView::Literal(_) => 1,
        NodeTypeView::Argument { .. } => 2,
    }
}

/// Whether a node is an argument that names where its suggestions come from.
pub open spec fn has_suggestions(t: NodeTypeView) -> bool {
    match t {
        NodeTypeView::Argument { suggestions_type, .. } => suggestions_type is Some,
        _ => false,
    }
}

/// The flags byte of a node: its type, then 0x04 for executable, 0x08 for
/// a redirect and 0x10 for an argument with a suggestions type.
pub open spec fn node_flags(n: NodeView) -> u8 {
    node_type_bits(n.node_type) | (if n.executable { 4u8 } else { 0u8 }) | (if n.redirect is Some {
        8u8
    } else {
        0u8
    }) | (if has_suggestions(n.node_type) { 0x10u8 } else { 0u8 })
}

/// The bytes of node indices, each a VarInt.
pub open spec fn indices_bytes(v: Seq<usize>) -> Seq<u8>
    decreases v.len(),
{
    if v.len() == 0 {
        Seq::empty()
    } else {
        indices_bytes(v.drop_last()) + varint_bytes((v.last() as i32) as u32)
    }
}

/// The bytes of what follows the redirect in a node: nothing for the root,
/// the name of a literal, and the name, parser id, properties and
/// suggestions type of an argument.
pub open spec fn node_type_bytes(t: NodeTypeView) -> Seq<u8> {
    match t {
        NodeTypeView::Root => Seq::empty(),
        NodeTypeView::Literal(name) => string_bytes(name),
        NodeTypeView::Argument { name, parser_id, properties, suggestions_type } => string_bytes(name)
            + varint_bytes((parser_id as i32) as u32) + match properties {
            Some(p) => property_bytes(p),
            None => Seq::empty(),
        } + match suggestions_type {
            Some(t) => string_bytes(suggestions_name(t)),
            None => Seq::empty(),
        },
    }
}

/// The bytes of a node.
pub open spec fn node_bytes(n: NodeView) -> Seq<u8> {
    seq![node_flags(n)] + varint_bytes((n.children.len() as i32) as u32) + indices_bytes(n.children) + match n.redirect {
        Some(r) => varint_bytes((r as i32) as u32),
        None => Seq::empty(),
    } + node_type_bytes(n.node_type)
}

/// The bytes of nodes one after another.
pub open spec fn nodes_bytes(v: Seq<NodeView>) -> Seq<u8>
    decreases v.len(),
{
    if v.len() == 0 {
        Seq::empty()
    } else {
        nodes_bytes(v.drop_last()) + node_bytes(v.last())
    }
}

/// Reading `k` node indices.
pub open spec fn indices_decode(s: Seq<u8>, k: nat) -> Result<(Seq<usize>, nat), IoError>
    decreases k,
{
    if k == 0 {
        Ok((Seq::empty(), 0))
    } else {
        match indices_decode(s, (k - 1) as nat) {
            Err(e) => Err(e),
            Ok((v, n)) => match varint_field(s.skip(n as int)) {
                Err(e) => Err(e),
                Ok((x, m)) => Ok((v.push(x as usize), n + m)),
            },
        }
    }
}

/// Reading the redirect index of a node when it has one.
pub open spec fn redirect_decode(s: Seq<u8>, present: bool) -> Result<(Option<usize>, nat), IoError> {
    if present {
        match varint_field(s) {
            Err(e) => Err(e),
            Ok((x, n)) => Ok((Some(x as usize), n)),
        }
    } else {
        Ok((None, 0))
    }
}

/// Reading the suggestions type of an argument when it has one: a name that
/// stands for no type is invalid.
pub open spec fn suggestions_type_decode(s: Seq<u8>, present: bool) -> Result<(Option<SuggestionsType>, nat), IoError> {
    if present {
        match string_decode(s, COMMAND_STRING_LIMIT as nat) {
            Err(e) => Err(e),
            Ok((name, n)) => match suggestions_type_of(name) {
                Some(t) => Ok((Some(t), n)),
                None => Err(IoError::InvalidData),
            },
        }
    } else {
        Ok((None, 0))
    }
}

/// Reading what follows the redirect of a node with flags `flags`.
pub open spec fn node_type_decode(s: Seq<u8>, flags: u8, version: i32) -> Result<(NodeTypeView, nat), IoError> {
    let t = flags & 0x03u8;
    if t == 0 {
        Ok((NodeTypeView::Root, 0))
    } else if t == 1 {
        match string_decode(s, COMMAND_STRING_LIMIT as nat) {
            Err(e) => Err(e),
            Ok((name, n)) => Ok((NodeTypeView::Literal(name), n)),
        }
    } else if t == 2 {
        match string_decode(s, COMMAND_STRING_LIMIT as nat) {
            Err(e) => Err(e),
            Ok((name, n1)) => match varint_field(s.skip(n1 as int)) {
                Err(e) => Err(e),
                Ok((pid, n2)) => match property_by_parser_decode(s.skip((n1 + n2) as int), pid as usize, version) {
                    Err(e) => Err(e),
                    Ok((props, n3)) => match suggestions_type_decode(
                        s.skip((n1 + n2 + n3) as int),
                        flags & 0x10u8 != 0,
                    ) {
                        Err(e) => Err(e),
                        Ok((sugg, n4)) => Ok(
                            (
                                NodeTypeView::Argument {
                                    name,
                                    parser_id: pid as usize,
                                    properties: props,
                                    suggestions_type: sugg,
                                },
                                n1 + n2 + n3 + n4,
                            ),
                        ),
                    },
                },
            },
        }
    } else {
        Err(IoError::InvalidData)
    }
}

/// Reading a node: flags, children, redirect, then what the flags say the
/// node is.
pub open spec fn node_decode(s: Seq<u8>, version: i32) -> Result<(NodeView, nat), IoError> {
    match byte_field(s) {
        Err(e) => Err(e),
        Ok((flags, _)) => match varint_field(s.skip(1)) {
            Err(e) => Err(e),
            Ok((c, n1)) => match indices_decode(s.skip((1 + n1) as int), count_of(c)) {
                Err(e) => Err(e),
                Ok((children, n2)) => match redirect_decode(s.skip((1 + n1 + n2) as int), flags & 0x08u8 != 0) {
                    Err(e) => Err(e),
                    Ok((redirect, n3)) => match node_type_decode(s.skip((1 + n1 + n2 + n3) as int), flags, version) {
                        Err(e) => Err(e),
                        Ok((t, n4)) => Ok(
                            (
                                NodeView { children, node_type: t, executable: flags & 0x04u8 != 0, redirect },
                                1 + n1 + n2 + n3 + n4,
                            ),
                        ),
                    },
                },
            },
        },
    }
}

/// Reading `k` nodes one after another.
pub open spec fn nodes_decode(s: Seq<u8>, k: nat, version: i32) -> Result<(Seq<NodeView>, nat), IoError>
    decreases k,
{
    if k == 0 {
        Ok((Seq::empty(), 0))
    } else {
        match nodes_decode(s, (k - 1) as nat, version) {
            Err(e) => Err(e),
            Ok((v, n)) => match node_decode(s.skip(n as int), version) {
                Err(e) => Err(e),
                Ok((x, m)) => Ok((v.push(x), n + m)),
            },
        }
    }
}

/// Reading a command tree: the count of nodes, the nodes, the root index.
pub open spec fn commands_decode(s: Seq<u8>, version: i32) -> Result<(Seq<NodeView>, usize, nat), IoError> {
    match varint_field(s) {
        Err(e) => Err(e),
        Ok((c, n1)) => match nodes_decode(s.skip(n1 as int), count_of(c), version) {
            Err(e) => Err(e),
            Ok((nodes, n2)) => match varint_field(s.skip((n1 + n2) as int)) {
                Err(e) => Err(e),
                Ok((root, n3)) => Ok((nodes, root as usize, n1 + n2 + n3)),
            },
        },
    }
}

/// The bytes of a command tree.
pub open spec fn commands_bytes(nodes: Seq<NodeView>, root: usize) -> Seq<u8> {
    varint_bytes((nodes.len() as i32) as u32) + nodes_bytes(nodes) + varint_bytes((root as i32) as u32)
}

proof fn lemma_indices_decode_err(s: Seq<u8>, k: nat, m: nat)
    requires
        k <= m,
        indices_decode(s, k) is Err,
    ensures
        indices_decode(s, m) == indices_decode(s, k),
    decreases m,
{
    if m > k {
        lemma_indices_decode_err(s, k, (m - 1) as nat);
    }
}

proof fn lemma_nodes_decode_err(s: Seq<u8>, k: nat, m: nat, version: i32)
    requires
        k <= m,
        nodes_decode(s, k, version) is Err,
    ensures
        nodes_decode(s, m, version) == nodes_decode(s, k, version),
    decreases m,
{
    if m > k {
        lemma_nodes_decode_err(s, k, (m - 1) as nat, version);
    }
}

fn read_indices(src: &mut ByteReader, count: i32) -> (r: Result<Vec<usize>, IoError>)
    ensures
        match indices_decode(old(src).rest(), count_of(count)) {
            Ok((v, n)) => r matches Ok(x) && x@ == v && final(src).rest() == old(src).rest().skip(n as int) && n
                <= old(src).rest().len(),
            Err(e) => r == Err::<Vec<usize>, IoError>(e),
        },
{
    let ghost s = src.rest();
    let mut out: Vec<usize> = Vec::new();
    let mut i: i32 = 0;
    let ghost mut used: nat = 0;
    proof { assert(s.skip(0) =~= s); }
    while i < count
        invariant
            s == old(src).rest(),
            0 <= i,
            count <= 0 ==> i == 0,
            count > 0 ==> i <= count,
            indices_decode(s, i as nat) == Ok::<(Seq<usize>, nat), IoError>((out@, used)),
            src.rest() == s.skip(used as int),
            used <= s.len(),
        decreases count - i,
    {
        let ghost before = src.rest();
        match read_varint_field(src) {
            Ok(x) => {
                proof {
                    let m = varint_field(before).unwrap().1;
                    assert(src.rest() =~= s.skip((used + m) as int));
                    used = used + m;
                }
                out.push(x as usize);
                i = i + 1;
            },
            Err(e) => {
                proof { lemma_indices_decode_err(s, (i + 1) as nat, count_of(count)); }
                return Err(e);
            },
        }
    }
    Ok(out)
}

fn write_indices(dst: &mut Vec<u8>, v: &Vec<usize>)
    ensures
        final(dst)@ == old(dst)@ + indices_bytes(v@),
{
    let ghost d0 = dst@;
    let mut i: usize = 0;
    proof { assert(d0 + indices_bytes(v@.take(0)) =~= d0); }
    while i < v.len()
        invariant
            d0 == old(dst)@,
            i <= v@.len(),
            dst@ == d0 + indices_bytes(v@.take(i as int)),
        decreases v.len() - i,
    {
        let x = v[i] as i32;
        proof { law_varint_size(x); }
        let _ = VarInt(x).encode_simple(dst);
        proof {
            assert(v@.take((i + 1) as int).drop_last() =~= v@.take(i as int));
            assert(dst@ =~= d0 + indices_bytes(v@.take((i + 1) as int)));
        }
        i = i + 1;
    }
    proof { assert(v@.take(v@.len() as int) =~= v@); }
}

fn read_suggestions_type(src: &mut ByteReader, present: bool) -> (r: Result<Option<SuggestionsType>, IoError>)
    ensures
        match suggestions_type_decode(old(src).rest(), present) {
            Ok((t, n)) => r == Ok::<Option<SuggestionsType>, IoError>(t) && final(src).rest() == old(src).rest().skip(
                n as int,
            ) && n <= old(src).rest().len(),
            Err(e) => r == Err::<Option<SuggestionsType>, IoError>(e),
        },
{
    if !present {
        proof { assert(src.rest().skip(0) =~= src.rest()); }
        return Ok(None);
    }
    proof { lemma_string_decode_len(old(src).rest(), COMMAND_STRING_LIMIT as nat); }
    let name = EncodingHelper::read_string(src, COMMAND_STRING_LIMIT)?;
    let ask = "minecraft:ask_server".to_owned();
    let recipes = "minecraft:all_recipes".to_owned();
    let sounds = "minecraft:available_sounds".to_owned();
    let entities = "minecraft:summonable_entities".to_owned();
    if name == ask {
        Ok(Some(SuggestionsType::AskServer))
    } else if name == recipes {
        Ok(Some(SuggestionsType::AllRecipes))
    } else if name == sounds {
        Ok(Some(SuggestionsType::AvailableSounds))
    } else if name == entities {
        Ok(Some(SuggestionsType::SummonableEntities))
    } else {
        Err(IoError::InvalidData)
    }
}

#[verifier::rlimit(40)]
fn read_node_type(src: &mut ByteReader, flags: u8, version: i32) -> (r: Result<CommandNodeType, IoError>)
    ensures
        match node_type_decode(old(src).rest(), flags, version) {
            Ok((t, n)) => r matches Ok(x) && x.view() == t && final(src).rest() == old(src).rest().skip(n as int) && n
                <= old(src).rest().len(),
            Err(e) => r == Err::<CommandNodeType, IoError>(e),
        },
{
    let ghost s = src.rest();
    let t = flags & 0x03;
    if t == 0 {
        proof { assert(s.skip(0) =~= s); }
        Ok(CommandNodeType::Root)
    } else if t == 1 {
        let name = read_registry(src)?;
        Ok(CommandNodeType::Literal(name))
    } else if t == 2 {
        let name = read_registry(src)?;
        let ghost n1 = string_decode(s, COMMAND_STRING_LIMIT as nat).unwrap().1;
        let pid = read_varint_field(src)?;
        let ghost n2 = varint_field(s.skip(n1 as int)).unwrap().1;
        proof { assert(src.rest() =~= s.skip((n1 + n2) as int)); }
        let parser_id = pid as usize;
        let properties = ArgumentProperty::decode_by_parser_id(src, parser_id, version)?;
        let ghost n3 = property_by_parser_decode(s.skip((n1 + n2) as int), parser_id, version).unwrap().1;
        proof { assert(src.rest() =~= s.skip((n1 + n2 + n3) as int)); }
        let suggestions_type = read_suggestions_type(src, flags & 0x10 != 0)?;
        proof {
            let n4 = suggestions_type_decode(s.skip((n1 + n2 + n3) as int), flags & 0x10u8 != 0).unwrap().1;
            assert(src.rest() =~= s.skip((n1 + n2 + n3 + n4) as int));
        }
        Ok(CommandNodeType::Argument { name, parser_id, properties, suggestions_type })
    } else {
        Err(IoError::InvalidData)
    }
}

fn write_node_type(dst: &mut Vec<u8>, node_type: &CommandNodeType)
    ensures
        final(dst)@ == old(dst)@ + node_type_bytes(node_type.view()),
{
    let ghost d0 = dst@;
    match node_type {
        CommandNodeType::Root => {},
        CommandNodeType::Literal(name) => {
            let _ = EncodingHelper::write_string(dst, name.as_str());
        },
        CommandNodeType::Argument { name, parser_id, properties, suggestions_type } => {
            let _ = EncodingHelper::write_string(dst, name.as_str());
            let pid = *parser_id as i32;
            proof { law_varint_size(pid); }
            let _ = VarInt(pid).encode_simple(dst);
            let ghost d1 = dst@;
            match properties {
                Some(p) => {
                    let _ = p.encode(dst);
                },
                None => {},
            }
            let ghost d2 = dst@;
            match suggestions_type {
                Some(st) => {
                    let name = match st {
                        SuggestionsType::AskServer => "minecraft:ask_server",
                        SuggestionsType::AllRecipes => "minecraft:all_recipes",
                        SuggestionsType::AvailableSounds => "minecraft:available_sounds",
                        SuggestionsType::SummonableEntities => "minecraft:summonable_entities",
                    };
                    let _ = EncodingHelper::write_string(dst, name);
                },
                None => {},
            }
            proof {
                assert(d2 =~= d1 + match opt_property_view(*properties) {
                    Some(p) => property_bytes(p),
                    None => Seq::<u8>::empty(),
                });
            }
        },
    }
    proof { assert(dst@ =~= d0 + node_type_bytes(node_type.view())); }
}

impl CommandNode {
    fn flags(&self) -> (r: u8)
        ensures
            r == node_flags(self.view()),
    {
        let t: u8 = match &self.node_type {
            CommandNodeType::Root => 0,
            CommandNodeType::Literal(_) => 1,
            CommandNodeType::Argument { .. } => 2,
        };
        let e: u8 = if self.executable { 4 } else { 0 };
        let d: u8 = if self.redirect_index.is_some() { 8 } else { 0 };
        let g: u8 = match &self.node_type {
            CommandNodeType::Argument { suggestions_type, .. } => if suggestions_type.is_some() { 0x10 } else { 0 },
            _ => 0,
        };
        t | e | d | g
    }

    /// Writes the node.
    pub fn encode(&self, dst: &mut Vec<u8>) -> (r: Result<(), IoError>)
        ensures
            r is Ok,
            final(dst)@ == old(dst)@ + node_bytes(self.view()),
    {
        let ghost d0 = dst@;
        write_u8(dst, self.flags());
        let count = self.childrens.len() as i32;
        proof { law_varint_size(count); }
        let _ = VarInt(count).encode_simple(dst);
        write_indices(dst, &self.childrens);
        match self.redirect_index {
            Some(r) => {
                let x = r as i32;
                proof { law_varint_size(x); }
                let _ = VarInt(x).encode_simple(dst);
            },
            None => {},
        }
        write_node_type(dst, &self.node_type);
        proof { assert(dst@ =~= d0 + node_bytes(self.view())); }
        Ok(())
    }

    /// Reads a node, with the parser registry of a protocol version.
    #[verifier::rlimit(40)]
    pub fn decode(src: &mut ByteReader, version: i32) -> (r: Result<CommandNode, IoError>)
        ensures
            match node_decode(old(src).rest(), version) {
                Ok((v, n)) => r matches Ok(node) && node.view() == v && final(src).rest() == old(src).rest().skip(
                    n as int,
                ) && n <= old(src).rest().len(),
                Err(e) => r == Err::<CommandNode, IoError>(e),
            },
    {
        let ghost s = src.rest();
        let flags = src.read_u8()?;
        proof { assert(src.rest() =~= s.skip(1)); }
        let executable = flags & 0x04 != 0;
        let has_redirect = flags & 0x08 != 0;
        let count = read_varint_field(src)?;
        let ghost n1 = varint_field(s.skip(1)).unwrap().1;
        proof { assert(src.rest() =~= s.skip((1 + n1) as int)); }
        let childrens = read_indices(src, count)?;
        let ghost n2 = indices_decode(s.skip((1 + n1) as int), count_of(count)).unwrap().1;
        proof { assert(src.rest() =~= s.skip((1 + n1 + n2) as int)); }
        let redirect_index = if has_redirect {
            let x = read_varint_field(src)?;
            Some(x as usize)
        } else {
            None
        };
        let ghost n3 = redirect_decode(s.skip((1 + n1 + n2) as int), has_redirect).unwrap().1;
        proof { assert(src.rest() =~= s.skip((1 + n1 + n2 + n3) as int)); }
        let node_type = read_node_type(src, flags, version)?;
        proof {
            let n4 = node_type_decode(s.skip((1 + n1 + n2 + n3) as int), flags, version).unwrap().1;
            assert(src.rest() =~= s.skip((1 + n1 + n2 + n3 + n4) as int));
        }
        Ok(CommandNode { childrens, node_type, executable, redirect_index })
    }
}

fn read_nodes(src: &mut ByteReader, count: i32, version: i32) -> (r: Result<Vec<CommandNode>, IoError>)
    ensures
        match nodes_decode(old(src).rest(), count_of(count), version) {
            Ok((v, n)) => r matches Ok(x) && node_views(x@) == v && final(src).rest() == old(src).rest().skip(n as int)
                && n <= old(src).rest().len(),
            Err(e) => r == Err::<Vec<CommandNode>, IoError>(e),
        },
{
    let ghost s = src.rest();
    let mut out: Vec<CommandNode> = Vec::new();
    let mut i: i32 = 0;
    let ghost mut used: nat = 0;
    proof {
        assert(s.skip(0) =~= s);
        assert(node_views(out@) =~= Seq::<NodeView>::empty());
    }
    while i < count
        invariant
            s == old(src).rest(),
            0 <= i,
            count <= 0 ==> i == 0,
            count > 0 ==> i <= count,
            nodes_decode(s, i as nat, version) == Ok::<(Seq<NodeView>, nat), IoError>((node_views(out@), used)),
            src.rest() == s.skip(used as int),
            used <= s.len(),
        decreases count - i,
    {
        let ghost before = src.rest();
        match CommandNode::decode(src, version) {
            Ok(node) => {
                proof {
                    let m = node_decode(before, version).unwrap().1;
                    assert(src.rest() =~= s.skip((used + m) as int));
                    used = used + m;
                }
                let ghost prev = node_views(out@);
                let ghost nv = node.view();
                out.push(node);
                proof { assert(node_views(out@) =~= prev.push(nv)); }
                i = i + 1;
            },
            Err(e) => {
                proof { lemma_nodes_decode_err(s, (i + 1) as nat, count_of(count), version); }
                return Err(e);
            },
        }
    }
    Ok(out)
}

fn write_nodes(dst: &mut Vec<u8>, nodes: &Vec<CommandNode>)
    ensures
        final(dst)@ == old(dst)@ + nodes_bytes(node_views(nodes@)),
{
    let ghost d0 = dst@;
    let ghost vs = node_views(nodes@);
    let mut i: usize = 0;
    proof { assert(d0 + nodes_bytes(vs.take(0)) =~= d0); }
    while i < nodes.len()
        invariant
            d0 == old(dst)@,
            vs == node_views(nodes@),
            i <= nodes@.len(),
            dst@ == d0 + nodes_bytes(vs.take(i as int)),
        decreases nodes.len() - i,
    {
        let _ = nodes[i].encode(dst);
        proof {
            assert(vs.take((i + 1) as int).drop_last() =~= vs.take(i as int));
            assert(vs.take((i + 1) as int).last() == nodes@[i as int].view());
            assert(dst@ =~= d0 + nodes_bytes(vs.take((i + 1) as int)));
        }
        i = i + 1;
    }
    proof { assert(vs.take(nodes@.len() as int) =~= vs); }
}

impl ServerPacket for Commands {
    open spec fn packet_type(&self) -> ServerPacketType {
        ServerPacketType::Commands
    }

    fn get_type(&self) -> (r: ServerPacketType) {
        ServerPacketType::Commands
    }
}

impl Packet for Commands {
    open spec fn encoding(&self, version: i32) -> Seq<u8> {
        commands_bytes(node_views(self.nodes@), self.root_index)
    }

    open spec fn encodable(&self, version: i32) -> bool {
        true
    }

    fn decode(src: &mut ByteReader, version: i32) -> (r: Result<Self, IoError>)
        ensures
            match commands_decode(old(src).rest(), version) {
                Ok((nodes, root, n)) => r matches Ok(c) && node_views(c.nodes@) == nodes && c.root_index == root
                    && final(src).rest() == old(src).rest().skip(n as int),
                Err(e) => r == Err::<Self, IoError>(e),
            },
    {
        let ghost s = src.rest();
        let count = read_varint_field(src)?;
        let ghost n1 = varint_field(s).unwrap().1;
        let nodes = read_nodes(src, count, version)?;
        let ghost n2 = nodes_decode(s.skip(n1 as int), count_of(count), version).unwrap().1;
        proof { assert(src.rest() =~= s.skip((n1 + n2) as int)); }
        let root = read_varint_field(src)?;
        proof {
            let n3 = varint_field(s.skip((n1 + n2) as int)).unwrap().1;
            assert(src.rest() =~= s.skip((n1 + n2 + n3) as int));
        }
        Ok(Commands { nodes, root_index: root as usize })
    }

    fn encode(&self, dst: &mut Vec<u8>, version: i32) -> (r: Result<(), IoError>) {
        let ghost d0 = dst@;
        let count = self.nodes.len() as i32;
        proof { law_varint_size(count); }
        let _ = VarInt(count).encode_simple(dst);
        write_nodes(dst, &self.nodes);
        let root = self.root_index as i32;
        proof { law_varint_size(root); }
        let _ = VarInt(root).encode_simple(dst);
        proof { assert(dst@ =~= d0 + self.encoding(version)); }
        Ok(())
    }
}

// ---------------------------------------------------------------------------
// Completion suggestions
// ---------------------------------------------------------------------------

/// One completion: the text, and a tooltip as the NBT component it
/// travels as.
#[derive(Debug)]
pub struct Suggestion {
    pub text: String,
    pub tooltip: Option<NbtType>,
}

/// The completions for what a player typed: which part of the input they
/// replace (`start`, `length`) and the completions themselves.
#[derive(Debug)]
pub struct Suggestions {
    pub start: i32,
    pub length: i32,
    pub matches: Vec<Suggestion>,
}

/// A completion as spec values: its text and tooltip.
pub type SuggestionView = (Seq<char>, Option<NbtView>);

impl Suggestion {
    pub open spec fn view(&self) -> SuggestionView {
        (
            self.text@,
            match self.tooltip {
                Some(t) => Some(nbt_view(t)),
                None => None,
            },
        )
    }
}

/// The views of a list of completions.
pub open spec fn suggestion_views(v: Seq<Suggestion>) -> Seq<SuggestionView> {
    v.map_values(|m: Suggestion| m.view())
}

/// Reading one completion: its text, a flag, and after a nonzero flag the
/// tooltip as component NBT.
pub open spec fn suggestion_decode(s: Seq<u8>, version: i32) -> Result<(SuggestionView, nat), IoError> {
    match string_decode(s, COMMAND_STRING_LIMIT as nat) {
        Err(e) => Err(e),
        Ok((text, n1)) => match byte_field(s.skip(n1 as int)) {
            Err(e) => Err(e),
            Ok((flag, _)) => if flag != 0 {
                match text_nbt_decode(s.skip((n1 + 1) as int), version) {
                    Err(e) => Err(e),
                    Ok((t, n3)) => Ok(((text, Some(t)), n1 + 1 + n3)),
                }
            } else {
                Ok(((text, None), n1 + 1))
            },
        },
    }
}

/// Reading `k` completions one after another.
pub open spec fn suggestion_list_decode(s: Seq<u8>, k: nat, version: i32) -> Result<(Seq<SuggestionView>, nat), IoError>
    decreases k,
{
    if k == 0 {
        Ok((Seq::empty(), 0))
    } else {
        match suggestion_list_decode(s, (k - 1) as nat, version) {
            Err(e) => Err(e),
            Ok((v, n)) => match suggestion_decode(s.skip(n as int), version) {
                Err(e) => Err(e),
                Ok((x, m)) => Ok((v.push(x), n + m)),
            },
        }
    }
}

/// Reading suggestions: start, length, the count of completions, the
/// completions.
pub open spec fn suggestions_decode(s: Seq<u8>, version: i32) -> Result<(i32, i32, Seq<SuggestionView>, nat), IoError> {
    match varint_field(s) {
        Err(e) => Err(e),
        Ok((start, n1)) => match varint_field(s.skip(n1 as int)) {
            Err(e) => Err(e),
            Ok((length, n2)) => match varint_field(s.skip((n1 + n2) as int)) {
                Err(e) => Err(e),
                Ok((c, n3)) => match suggestion_list_decode(s.skip((n1 + n2 + n3) as int), count_of(c), version) {
                    Err(e) => Err(e),
                    Ok((ms, n4)) => Ok((start, length, ms, n1 + n2 + n3 + n4)),
                },
            },
        },
    }
}

/// The bytes of one completion.
pub open spec fn suggestion_bytes(m: SuggestionView) -> Seq<u8> {
    string_bytes(m.0) + match m.1 {
        Some(t) => seq![1u8, view_id(t) as u8] + nbt_bytes(t),
        None => seq![0u8],
    }
}

/// The bytes of completions one after another.
pub open spec fn suggestion_list_bytes(v: Seq<SuggestionView>) -> Seq<u8>
    decreases v.len(),
{
    if v.len() == 0 {
        Seq::empty()
    } else {
        suggestion_list_bytes(v.drop_last()) + suggestion_bytes(v.last())
    }
}

/// The bytes of suggestions.
pub open spec fn suggestions_bytes(start: i32, length: i32, ms: Seq<SuggestionView>) -> Seq<u8> {
    varint_bytes(start as u32) + varint_bytes(length as u32) + varint_bytes((ms.len() as i32) as u32)
        + suggestion_list_bytes(ms)
}

/// Whether completions travel back unchanged: no tooltips, and each text
/// within the length a command string may have.
pub open spec fn suggestions_plain(ms: Seq<SuggestionView>) -> bool {
    forall|i: int|
        0 <= i < ms.len() ==> (#[trigger] ms[i]).1 is None && encode_utf8(ms[i].0).len()
            <= COMMAND_STRING_LIMIT * 3
}

proof fn lemma_suggestion_roundtrip(m: SuggestionView, rest: Seq<u8>, version: i32)
    requires
        m.1 is None,
        encode_utf8(m.0).len() <= COMMAND_STRING_LIMIT * 3,
    ensures
        suggestion_decode(suggestion_bytes(m) + rest, version) == Ok::<(SuggestionView, nat), IoError>(
            (m, suggestion_bytes(m).len()),
        ),
{
    let s = suggestion_bytes(m) + rest;
    let tail = seq![0u8] + rest;
    assert(s =~= string_bytes(m.0) + tail);
    law_string_roundtrip(m.0, tail, COMMAND_STRING_LIMIT as nat);
    let data = encode_utf8(m.0);
    let n1 = varint_len(data.len() as u32) + data.len();
    assert(string_bytes(m.0).len() == n1);
    assert(s.skip(n1 as int) =~= tail);
}

#[verifier::rlimit(40)]
proof fn lemma_suggestion_list_roundtrip(ms: Seq<SuggestionView>, rest: Seq<u8>, version: i32)
    requires
        suggestions_plain(ms),
    ensures
        suggestion_list_decode(suggestion_list_bytes(ms) + rest, ms.len(), version) == Ok::<
            (Seq<SuggestionView>, nat),
            IoError,
        >((ms, suggestion_list_bytes(ms).len())),
    decreases ms.len(),
{
    if ms.len() > 0 {
        let k = ms.len();
        let p = ms.drop_last();
        let x = ms.last();
        let tail = suggestion_bytes(x) + rest;
        let s = suggestion_list_bytes(ms) + rest;
        assert(suggestions_plain(p)) by {
            assert forall|i: int| 0 <= i < p.len() implies (#[trigger] p[i]).1 is None && encode_utf8(p[i].0).len()
                <= COMMAND_STRING_LIMIT * 3 by {
                assert(p[i] == ms[i]);
            }
        }
        assert(x.1 is None && encode_utf8(x.0).len() <= COMMAND_STRING_LIMIT * 3) by {
            assert(x == ms[k - 1]);
        }
        let n = suggestion_list_bytes(p).len();
        let m = suggestion_bytes(x).len();
        assert(suggestion_list_bytes(ms) == suggestion_list_bytes(p) + suggestion_bytes(x));
        assert(s =~= suggestion_list_bytes(p) + tail);
        lemma_suggestion_list_roundtrip(p, tail, version);
        assert(suggestion_list_decode(s, (k - 1) as nat, version) == Ok::<(Seq<SuggestionView>, nat), IoError>(
            (p, n),
        ));
        assert(s.skip(n as int) =~= tail);
        lemma_suggestion_roundtrip(x, rest, version);
        assert(suggestion_decode(s.skip(n as int), version) == Ok::<(SuggestionView, nat), IoError>((x, m)));
        assert(p.push(x) =~= ms);
        assert(suggestion_list_bytes(ms).len() == n + m);
    } else {
        assert(ms =~= Seq::<SuggestionView>::empty());
    }
}

/// Law: what `Suggestions::encode` writes, `Suggestions::decode` reads back
/// (start, length and every completion), whatever follows it, when no
/// completion has a tooltip and each text is within the command string
/// limit.
pub proof fn law_suggestions_roundtrip(
    start: i32,
    length: i32,
    ms: Seq<SuggestionView>,
    rest: Seq<u8>,
    version: i32,
)
    requires
        suggestions_plain(ms),
        ms.len() <= i32::MAX,
    ensures
        suggestions_decode(suggestions_bytes(start, length, ms) + rest, version) == Ok::<
            (i32, i32, Seq<SuggestionView>, nat),
            IoError,
        >((start, length, ms, suggestions_bytes(start, length, ms).len())),
{
    let c = (ms.len() as i32) as u32;
    let list = suggestion_list_bytes(ms) + rest;
    let s3 = varint_bytes(c) + list;
    let s2 = varint_bytes(length as u32) + s3;
    let s = suggestions_bytes(start, length, ms) + rest;
    assert(s =~= varint_bytes(start as u32) + s2);
    law_varint_roundtrip(start, s2, 5);
    law_varint_roundtrip(length, s3, 5);
    law_varint_roundtrip(ms.len() as i32, list, 5);
    let n1 = varint_len(start as u32);
    let n2 = varint_len(length as u32);
    let n3 = varint_len(c);
    assert(s.skip(n1 as int) =~= s2);
    assert(s.skip((n1 + n2) as int) =~= s3);
    assert(s.skip((n1 + n2 + n3) as int) =~= list);
    assert(((ms.len() as i32) as u32) as i32 == ms.len());
    lemma_suggestion_list_roundtrip(ms, rest, version);
}

proof fn lemma_suggestion_list_decode_err(s: Seq<u8>, k: nat, m: nat, version: i32)
    requires
        k <= m,
        suggestion_list_decode(s, k, version) is Err,
    ensures
        suggestion_list_decode(s, m, version) == suggestion_list_decode(s, k, version),
    decreases m,
{
    if m > k {
        lemma_suggestion_list_decode_err(s, k, (m - 1) as nat, version);
    }
}

fn read_suggestion(src: &mut ByteReader, version: i32) -> (r: Result<Suggestion, IoError>)
    ensures
        match suggestion_decode(old(src).rest(), version) {
            Ok((v, n)) => r matches Ok(m) && m.view() == v && final(src).rest() == old(src).rest().skip(n as int) && n
                <= old(src).rest().len(),
            Err(e) => r == Err::<Suggestion, IoError>(e),
        },
{
    let ghost s = src.rest();
    let text = read_registry(src)?;
    let ghost n1 = string_decode(s, COMMAND_STRING_LIMIT as nat).unwrap().1;
    let flag = src.read_u8()?;
    proof { assert(src.rest() =~= s.skip((n1 + 1) as int)); }
    if flag != 0 {
        let tag = read_text_nbt(src, version)?;
        proof {
            let n3 = text_nbt_decode(s.skip((n1 + 1) as int), version).unwrap().1;
            assert(src.rest() =~= s.skip((n1 + 1 + n3) as int));
        }
        Ok(Suggestion { text, tooltip: Some(tag) })
    } else {
        Ok(Suggestion { text, tooltip: None })
    }
}

#[verifier::rlimit(80)]
fn read_suggestion_list(src: &mut ByteReader, count: i32, version: i32) -> (r: Result<Vec<Suggestion>, IoError>)
    ensures
        match suggestion_list_decode(old(src).rest(), count_of(count), version) {
            Ok((v, n)) => r matches Ok(x) && suggestion_views(x@) == v && final(src).rest() == old(src).rest().skip(
                n as int,
            ) && n <= old(src).rest().len(),
            Err(e) => r == Err::<Vec<Suggestion>, IoError>(e),
        },
{
    let ghost s = src.rest();
    let mut matches: Vec<Suggestion> = Vec::new();
    let mut i: i32 = 0;
    let ghost mut used: nat = 0;
    proof {
        assert(s.skip(0) =~= s);
        assert(suggestion_views(matches@) =~= Seq::<SuggestionView>::empty());
    }
    while i < count
        invariant
            s == old(src).rest(),
            0 <= i,
            count <= 0 ==> i == 0,
            count > 0 ==> i <= count,
            suggestion_list_decode(s, i as nat, version) == Ok::<(Seq<SuggestionView>, nat), IoError>(
                (suggestion_views(matches@), used),
            ),
            src.rest() == s.skip(used as int),
            used <= s.len(),
        decreases count - i,
    {
        let ghost before = src.rest();
        match read_suggestion(src, version) {
            Ok(m) => {
                proof {
                    let k = suggestion_decode(before, version).unwrap().1;
                    assert(src.rest() =~= s.skip((used + k) as int));
                    used = used + k;
                }
                let ghost prev = suggestion_views(matches@);
                let ghost mv = m.view();
                matches.push(m);
                proof { assert(suggestion_views(matches@) =~= prev.push(mv)); }
                i = i + 1;
            },
            Err(e) => {
                proof { lemma_suggestion_list_decode_err(s, (i + 1) as nat, count_of(count), version); }
                return Err(e);
            },
        }
    }
    Ok(matches)
}

fn write_suggestion(dst: &mut Vec<u8>, m: &Suggestion)
    ensures
        final(dst)@ == old(dst)@ + suggestion_bytes(m.view()),
{
    let ghost d0 = dst@;
    let _ = EncodingHelper::write_string(dst, m.text.as_str());
    match &m.tooltip {
        Some(tag) => {
            write_u8(dst, 1);
            write_u8(dst, tag.id() as u8);
            let _ = tag.write(dst);
        },
        None => write_u8(dst, 0),
    }
    proof { assert(dst@ =~= d0 + suggestion_bytes(m.view())); }
}

impl Suggestions {
    /// Reads suggestions, with tooltips as component NBT of a protocol
    /// version.
    pub fn decode(src: &mut ByteReader, version: i32) -> (r: Result<Suggestions, IoError>)
        ensures
            match suggestions_decode(old(src).rest(), version) {
                Ok((start, length, ms, n)) => r matches Ok(x) && x.start == start && x.length == length
                    && suggestion_views(x.matches@) == ms && final(src).rest() == old(src).rest().skip(n as int) && n
                    <= old(src).rest().len(),
                Err(e) => r == Err::<Suggestions, IoError>(e),
            },
    {
        let ghost s = src.rest();
        let start = read_varint_field(src)?;
        let ghost n1 = varint_field(s).unwrap().1;
        let length = read_varint_field(src)?;
        let ghost n2 = varint_field(s.skip(n1 as int)).unwrap().1;
        proof { assert(src.rest() =~= s.skip((n1 + n2) as int)); }
        let count = read_varint_field(src)?;
        let ghost n3 = varint_field(s.skip((n1 + n2) as int)).unwrap().1;
        proof { assert(src.rest() =~= s.skip((n1 + n2 + n3) as int)); }
        let matches = read_suggestion_list(src, count, version)?;
        proof {
            let n4 = suggestion_list_decode(s.skip((n1 + n2 + n3) as int), count_of(count), version).unwrap().1;
            assert(src.rest() =~= s.skip((n1 + n2 + n3 + n4) as int));
        }
        Ok(Suggestions { start, length, matches })
    }

    /// Writes the suggestions.
    pub fn encode(&self, dst: &mut Vec<u8>, version: i32) -> (r: Result<(), IoError>)
        ensures
            r is Ok,
            final(dst)@ == old(dst)@ + suggestions_bytes(self.start, self.length, suggestion_views(self.matches@)),
    {
        let ghost d0 = dst@;
        proof {
            law_varint_size(self.start);
            law_varint_size(self.length);
        }
        let _ = VarInt(self.start).encode_simple(dst);
        let _ = VarInt(self.length).encode_simple(dst);
        let count = self.matches.len() as i32;
        proof { law_varint_size(count); }
        let _ = VarInt(count).encode_simple(dst);
        let ghost d1 = dst@;
        let ghost vs = suggestion_views(self.matches@);
        let mut i: usize = 0;
        proof { assert(d1 + suggestion_list_bytes(vs.take(0)) =~= d1); }
        while i < self.matches.len()
            invariant
                vs == suggestion_views(self.matches@),
                i <= self.matches@.len(),
                dst@ == d1 + suggestion_list_bytes(vs.take(i as int)),
            decreases self.matches.len() - i,
        {
            write_suggestion(dst, &self.matches[i]);
            proof {
                assert(vs.take((i + 1) as int).drop_last() =~= vs.take(i as int));
                assert(vs.take((i + 1) as int).last() == self.matches@[i as int].view());
                assert(dst@ =~= d1 + suggestion_list_bytes(vs.take((i + 1) as int)));
            }
            i = i + 1;
        }
        proof {
            assert(vs.take(self.matches@.len() as int) =~= vs);
            assert(dst@ =~= d0 + suggestions_bytes(self.start, self.length, vs));
        }
        Ok(())
    }
}

// ---------------------------------------------------------------------------
// Laws of the command tree
// ---------------------------------------------------------------------------

/// A node index that survives being written as an `i32` VarInt.
pub open spec fn index_fits(i: usize) -> bool {
    i <= i32::MAX
}

/// A node the protocol version can carry back unchanged: its indices fit
/// an `i32`, its strings are within the limit, an argument's parser is in
/// the registry of the version, and it has properties exactly when that
/// parser reads some, of the parser's kind.
pub open spec fn node_fits(n: NodeView, version: i32) -> bool {
    &&& n.children.len() <= i32::MAX
    &&& forall|j: int| 0 <= j < n.children.len() ==> index_fits(#[trigger] n.children[j])
    &&& (n.redirect matches Some(r) ==> index_fits(r))
    &&& match n.node_type {
        NodeTypeView::Root => true,
        NodeTypeView::Literal(name) => command_string_fits(name),
        NodeTypeView::Argument { name, parser_id, properties, suggestions_type } => {
            &&& command_string_fits(name)
            &&& index_fits(parser_id)
            &&& parser_kind(version, parser_id) is Some
            &&& match properties {
                None => parser_kind(version, parser_id) == Some(ParserKind::Nothing),
                Some(p) => parser_kind(version, parser_id) == Some(property_kind(p)) && property_fits(p),
            }
        },
    }
}

proof fn lemma_index_roundtrip(i: usize, rest: Seq<u8>)
    requires
        index_fits(i),
    ensures
        varint_field(varint_bytes((i as i32) as u32) + rest) == Ok::<(i32, nat), IoError>(
            (i as i32, varint_bytes((i as i32) as u32).len()),
        ),
        ((i as i32) as usize) == i,
{
    law_varint_size(i as i32);
    law_varint_roundtrip(i as i32, rest, 5);
}

proof fn lemma_indices_roundtrip(v: Seq<usize>, rest: Seq<u8>)
    requires
        forall|j: int| 0 <= j < v.len() ==> index_fits(#[trigger] v[j]),
    ensures
        indices_decode(indices_bytes(v) + rest, v.len()) == Ok::<(Seq<usize>, nat), IoError>(
            (v, indices_bytes(v).len()),
        ),
    decreases v.len(),
{
    if v.len() > 0 {
        let last = v.last();
        let tail = varint_bytes((last as i32) as u32);
        assert(index_fits(v[v.len() - 1]));
        assert forall|j: int| 0 <= j < v.drop_last().len() implies index_fits(#[trigger] v.drop_last()[j]) by {
            assert(v.drop_last()[j] == v[j]);
        }
        lemma_indices_roundtrip(v.drop_last(), tail + rest);
        assert(indices_bytes(v) + rest =~= indices_bytes(v.drop_last()) + (tail + rest));
        let n = indices_bytes(v.drop_last()).len();
        assert((indices_bytes(v) + rest).skip(n as int) =~= tail + rest);
        lemma_index_roundtrip(last, rest);
        assert(v.drop_last().push(last) =~= v);
        let s = indices_bytes(v) + rest;
        assert(indices_decode(s, (v.len() - 1) as nat) == Ok::<(Seq<usize>, nat), IoError>(
            (v.drop_last(), n),
        ));
        assert(varint_field(s.skip(n as int)) == Ok::<(i32, nat), IoError>((last as i32, tail.len())));
        assert(indices_bytes(v).len() == n + tail.len());
    } else {
        assert(v =~= Seq::<usize>::empty());
    }
}

proof fn lemma_suggestions_name(t: SuggestionsType)
    ensures
        suggestions_type_of(suggestions_name(t)) == Some(t),
        command_string_fits(suggestions_name(t)),
{
    reveal_strlit("minecraft:ask_server");
    reveal_strlit("minecraft:all_recipes");
    reveal_strlit("minecraft:available_sounds");
    reveal_strlit("minecraft:summonable_entities");
    lemma_encode_utf8_len(suggestions_name(t));
}

proof fn lemma_node_flags(n: NodeView)
    ensures
        node_flags(n) & 0x03u8 == node_type_bits(n.node_type),
        (node_flags(n) & 0x04u8 != 0) == n.executable,
        (node_flags(n) & 0x08u8 != 0) == n.redirect is Some,
        (node_flags(n) & 0x10u8 != 0) == has_suggestions(n.node_type),
{
    let t = node_type_bits(n.node_type);
    let e: u8 = if n.executable { 4u8 } else { 0u8 };
    let d: u8 = if n.redirect is Some { 8u8 } else { 0u8 };
    let g: u8 = if has_suggestions(n.node_type) { 0x10u8 } else { 0u8 };
    assert(((t | e | d | g) & 0x03u8 == t) && (((t | e | d | g) & 0x04u8 != 0) == (e == 4u8)) && (((t | e | d | g)
        & 0x08u8 != 0) == (d == 8u8)) && (((t | e | d | g) & 0x10u8 != 0) == (g == 0x10u8))) by (bit_vector)
        requires
            t <= 2,
            e == 0u8 || e == 4u8,
            d == 0u8 || d == 8u8,
            g == 0u8 || g == 0x10u8,
    ;
}

#[verifier::rlimit(80)]
proof fn lemma_argument_roundtrip(t: NodeTypeView, flags: u8, version: i32, rest: Seq<u8>)
    requires
        t is Argument,
        flags & 0x03u8 == node_type_bits(t),
        (flags & 0x10u8 != 0) == has_suggestions(t),
        node_fits(NodeView { children: Seq::empty(), node_type: t, executable: false, redirect: None }, version),
    ensures
        node_type_decode(node_type_bytes(t) + rest, flags, version) == Ok::<(NodeTypeView, nat), IoError>(
            (t, node_type_bytes(t).len()),
        ),
{
    let s = node_type_bytes(t) + rest;
    match t {
        NodeTypeView::Argument { name, parser_id, properties, suggestions_type } => {
            let pb: Seq<u8> = match properties {
                Some(p) => property_bytes(p),
                None => Seq::empty(),
            };
            let sb: Seq<u8> = match suggestions_type {
                Some(x) => string_bytes(suggestions_name(x)),
                None => Seq::empty(),
            };
            let vb = varint_bytes((parser_id as i32) as u32);
            assert(s =~= string_bytes(name) + (vb + (pb + (sb + rest))));
            law_string_roundtrip(name, vb + (pb + (sb + rest)), COMMAND_STRING_LIMIT as nat);
            let n1 = string_bytes(name).len();
            assert(s.skip(n1 as int) =~= vb + (pb + (sb + rest)));
            lemma_index_roundtrip(parser_id, pb + (sb + rest));
            let n2 = vb.len();
            assert(s.skip((n1 + n2) as int) =~= pb + (sb + rest));
            match properties {
                Some(p) => {
                    law_argument_property_roundtrip(p, sb + rest);
                },
                None => {
                    assert(pb + (sb + rest) =~= sb + rest);
                },
            }
            let n3 = pb.len();
            assert(s.skip((n1 + n2 + n3) as int) =~= sb + rest);
            match suggestions_type {
                Some(x) => {
                    lemma_suggestions_name(x);
                    law_string_roundtrip(suggestions_name(x), rest, COMMAND_STRING_LIMIT as nat);
                },
                None => {},
            }
        },
        _ => {},
    }
}

proof fn lemma_node_type_roundtrip(t: NodeTypeView, flags: u8, version: i32, rest: Seq<u8>)
    requires
        flags & 0x03u8 == node_type_bits(t),
        (flags & 0x10u8 != 0) == has_suggestions(t),
        node_fits(NodeView { children: Seq::empty(), node_type: t, executable: false, redirect: None }, version),
    ensures
        node_type_decode(node_type_bytes(t) + rest, flags, version) == Ok::<(NodeTypeView, nat), IoError>(
            (t, node_type_bytes(t).len()),
        ),
{
    let s = node_type_bytes(t) + rest;
    match t {
        NodeTypeView::Root => {
            assert(s =~= rest);
        },
        NodeTypeView::Literal(name) => {
            law_string_roundtrip(name, rest, COMMAND_STRING_LIMIT as nat);
        },
        NodeTypeView::Argument { .. } => {
            lemma_argument_roundtrip(t, flags, version, rest);
        },
    }
}

/// The bytes of a node's redirect.
spec fn redirect_bytes(r: Option<usize>) -> Seq<u8> {
    match r {
        Some(r) => varint_bytes((r as i32) as u32),
        None => Seq::empty(),
    }
}

proof fn lemma_node_head(n: NodeView, version: i32, rest: Seq<u8>)
    requires
        node_fits(n, version),
    ensures
        ({
            let s = node_bytes(n) + rest;
            let n1 = varint_bytes((n.children.len() as i32) as u32).len();
            let n2 = indices_bytes(n.children).len();
            let n3 = redirect_bytes(n.redirect).len();
            &&& byte_field(s) == Ok::<(u8, nat), IoError>((node_flags(n), 1))
            &&& varint_field(s.skip(1)) == Ok::<(i32, nat), IoError>((n.children.len() as i32, n1))
            &&& count_of(n.children.len() as i32) == n.children.len()
            &&& indices_decode(s.skip((1 + n1) as int), n.children.len()) == Ok::<(Seq<usize>, nat), IoError>(
                (n.children, n2),
            )
            &&& redirect_decode(s.skip((1 + n1 + n2) as int), node_flags(n) & 0x08u8 != 0) == Ok::<
                (Option<usize>, nat),
                IoError,
            >((n.redirect, n3))
            &&& s.skip((1 + n1 + n2 + n3) as int) == node_type_bytes(n.node_type) + rest
        }),
{
    let s = node_bytes(n) + rest;
    let flags = node_flags(n);
    lemma_node_flags(n);
    let cb = varint_bytes((n.children.len() as i32) as u32);
    let ib = indices_bytes(n.children);
    let rb = redirect_bytes(n.redirect);
    let tb = node_type_bytes(n.node_type);
    assert(s =~= seq![flags] + (cb + (ib + (rb + (tb + rest)))));
    assert(s.skip(1) =~= cb + (ib + (rb + (tb + rest))));
    law_varint_size(n.children.len() as i32);
    law_varint_roundtrip(n.children.len() as i32, ib + (rb + (tb + rest)), 5);
    let n1 = cb.len();
    assert(s.skip((1 + n1) as int) =~= ib + (rb + (tb + rest)));
    lemma_indices_roundtrip(n.children, rb + (tb + rest));
    let n2 = ib.len();
    assert(s.skip((1 + n1 + n2) as int) =~= rb + (tb + rest));
    match n.redirect {
        Some(r) => {
            lemma_index_roundtrip(r, tb + rest);
        },
        None => {
            assert(rb + (tb + rest) =~= tb + rest);
        },
    }
    let n3 = rb.len();
    assert(s.skip((1 + n1 + n2 + n3) as int) =~= tb + rest);
}

/// Law: a command node reads back as it was written, whatever follows it,
/// when the protocol version can carry it (see `node_fits`).
pub proof fn law_command_node_roundtrip(n: NodeView, version: i32, rest: Seq<u8>)
    requires
        node_fits(n, version),
    ensures
        node_decode(node_bytes(n) + rest, version) == Ok::<(NodeView, nat), IoError>((n, node_bytes(n).len())),
{
    lemma_node_head(n, version, rest);
    lemma_node_flags(n);
    lemma_node_type_roundtrip(n.node_type, node_flags(n), version, rest);
}

proof fn lemma_nodes_roundtrip(v: Seq<NodeView>, version: i32, rest: Seq<u8>)
    requires
        forall|j: int| 0 <= j < v.len() ==> node_fits(#[trigger] v[j], version),
    ensures
        nodes_decode(nodes_bytes(v) + rest, v.len(), version) == Ok::<(Seq<NodeView>, nat), IoError>(
            (v, nodes_bytes(v).len()),
        ),
    decreases v.len(),
{
    if v.len() > 0 {
        let last = v.last();
        let tail = node_bytes(last);
        assert(node_fits(v[v.len() - 1], version));
        assert forall|j: int| 0 <= j < v.drop_last().len() implies node_fits(#[trigger] v.drop_last()[j], version) by {
            assert(v.drop_last()[j] == v[j]);
        }
        lemma_nodes_roundtrip(v.drop_last(), version, tail + rest);
        assert(nodes_bytes(v) + rest =~= nodes_bytes(v.drop_last()) + (tail + rest));
        let n = nodes_bytes(v.drop_last()).len();
        let s = nodes_bytes(v) + rest;
        assert(s.skip(n as int) =~= tail + rest);
        law_command_node_roundtrip(last, version, rest);
        assert(v.drop_last().push(last) =~= v);
        assert(nodes_decode(s, (v.len() - 1) as nat, version) == Ok::<(Seq<NodeView>, nat), IoError>(
            (v.drop_last(), n),
        ));
    } else {
        assert(v =~= Seq::<NodeView>::empty());
    }
}

/// Law: a command tree reads back as it was written, whatever follows it,
/// when the protocol version can carry each node (see `node_fits`) and the
/// count and root index fit an `i32`.
#[verifier::rlimit(60)]
pub proof fn law_commands_roundtrip(nodes: Seq<NodeView>, root: usize, version: i32, rest: Seq<u8>)
    requires
        nodes.len() <= i32::MAX,
        index_fits(root),
        forall|j: int| 0 <= j < nodes.len() ==> node_fits(#[trigger] nodes[j], version),
    ensures
        commands_decode(commands_bytes(nodes, root) + rest, version) == Ok::<(Seq<NodeView>, usize, nat), IoError>(
            (nodes, root, commands_bytes(nodes, root).len()),
        ),
{
    let s = commands_bytes(nodes, root) + rest;
    let cb = varint_bytes((nodes.len() as i32) as u32);
    let nb = nodes_bytes(nodes);
    let rb = varint_bytes((root as i32) as u32);
    assert(s =~= cb + (nb + (rb + rest)));
    law_varint_size(nodes.len() as i32);
    law_varint_roundtrip(nodes.len() as i32, nb + (rb + rest), 5);
    assert(count_of(nodes.len() as i32) == nodes.len());
    assert(s.skip(cb.len() as int) =~= nb + (rb + rest));
    lemma_nodes_roundtrip(nodes, version, rb + rest);
    assert(s.skip((cb.len() + nb.len()) as int) =~= rb + rest);
    lemma_index_roundtrip(root, rest);
}


/// An argument node of a command tree with the given suggestions type.
pub open spec fn argument_node(
    name: Seq<char>,
    parser_id: usize,
    properties: Option<PropertyView>,
    suggestions_type: Option<SuggestionsType>,
) -> NodeTypeView {
    NodeTypeView::Argument { name, parser_id, properties, suggestions_type }
}

proof fn lemma_identifier_reads_back(t: SuggestionsType, rest: Seq<u8>)
    ensures
        suggestions_type_decode(string_bytes(suggestions_name(t)) + rest, true) == Ok::<
            (Option<SuggestionsType>, nat),
            IoError,
        >((Some(t), string_bytes(suggestions_name(t)).len())),
{
    lemma_suggestions_name(t);
    law_string_roundtrip(suggestions_name(t), rest, COMMAND_STRING_LIMIT as nat);
}

/// Law: each suggestions type travels as its own Minecraft identifier.  An
/// argument node that names a type is written as the same node without
/// one, then the string of the identifier; and reading that string gives
/// the type back, whatever follows it.
pub proof fn law_suggestions_identifiers(
    name: Seq<char>,
    parser_id: usize,
    properties: Option<PropertyView>,
    rest: Seq<u8>,
)
    ensures
        node_type_bytes(argument_node(name, parser_id, properties, Some(SuggestionsType::AskServer)))
            == node_type_bytes(argument_node(name, parser_id, properties, None)) + string_bytes(
            "minecraft:ask_server"@,
        ),
        node_type_bytes(argument_node(name, parser_id, properties, Some(SuggestionsType::AllRecipes)))
            == node_type_bytes(argument_node(name, parser_id, properties, None)) + string_bytes(
            "minecraft:all_recipes"@,
        ),
        node_type_bytes(argument_node(name, parser_id, properties, Some(SuggestionsType::AvailableSounds)))
            == node_type_bytes(argument_node(name, parser_id, properties, None)) + string_bytes(
            "minecraft:available_sounds"@,
        ),
        node_type_bytes(argument_node(name, parser_id, properties, Some(SuggestionsType::SummonableEntities)))
            == node_type_bytes(argument_node(name, parser_id, properties, None)) + string_bytes(
            "minecraft:summonable_entities"@,
        ),
        suggestions_type_decode(string_bytes("minecraft:ask_server"@) + rest, true) == Ok::<
            (Option<SuggestionsType>, nat),
            IoError,
        >((Some(SuggestionsType::AskServer), string_bytes("minecraft:ask_server"@).len())),
        suggestions_type_decode(string_bytes("minecraft:all_recipes"@) + rest, true) == Ok::<
            (Option<SuggestionsType>, nat),
            IoError,
        >((Some(SuggestionsType::AllRecipes), string_bytes("minecraft:all_recipes"@).len())),
        suggestions_type_decode(string_bytes("minecraft:available_sounds"@) + rest, true) == Ok::<
            (Option<SuggestionsType>, nat),
            IoError,
        >((Some(SuggestionsType::AvailableSounds), string_bytes("minecraft:available_sounds"@).len())),
        suggestions_type_decode(string_bytes("minecraft:summonable_entities"@) + rest, true) == Ok::<
            (Option<SuggestionsType>, nat),
            IoError,
        >((Some(SuggestionsType::SummonableEntities), string_bytes("minecraft:summonable_entities"@).len())),
{
    let head = string_bytes(name) + varint_bytes((parser_id as i32) as u32) + match properties {
        Some(p) => property_bytes(p),
        None => Seq::empty(),
    };
    assert(node_type_bytes(argument_node(name, parser_id, properties, None)) =~= head);
    lemma_identifier_reads_back(SuggestionsType::AskServer, rest);
    lemma_identifier_reads_back(SuggestionsType::AllRecipes, rest);
    lemma_identifier_reads_back(SuggestionsType::AvailableSounds, rest);
    lemma_identifier_reads_back(SuggestionsType::SummonableEntities, rest);
}

} // verus!
