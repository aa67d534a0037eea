//! The NBT format: tagged binary values, as chat components and other data
//! travel in newer protocol versions.
//!
//! Reading is bounded by a counter that charges every tag an amount of
//! bytes and limits nesting to 512 levels.  Floating-point tags are kept as
//! their IEEE 754 bits.
use vstd::prelude::*;
use vstd::utf8::{decode_utf8, encode_utf8, valid_utf8};

use crate::util::{
    lemma_u16_be, lemma_u32_be, lemma_u64_be, u16_be, u16_of_be, u32_be, u32_of_be, u64_be, u64_of_be, write_u16_be, write_u32_be, write_u64_be, write_u8,
    ByteReader, IoError,
};
use crate::version::R1_20_2;

verus! {

// ---------------------------------------------------------------------------
// Java's modified UTF-8, through the cesu8 crate
// ---------------------------------------------------------------------------

/// What `cesu8::from_java_cesu8` makes of some bytes: the text, or `None`
/// when they are not modified UTF-8.
pub uninterp spec fn java_cesu8_decoded(b: Seq<u8>) -> Option<Seq<char>>;

/// What `cesu8::to_java_cesu8` makes of a text.
pub uninterp spec fn java_cesu8_encoded(s: Seq<char>) -> Seq<u8>;

/// Whether every character of `s` is neither NUL nor above U+FFFF: the
/// texts whose modified UTF-8 is their UTF-8.
pub open spec fn plain_java_text(s: Seq<char>) -> bool {
    forall|i: int| 0 <= i < s.len() ==> 0 < (#[trigger] s[i] as u32) && (s[i] as u32) < 0x10000
}

/// Calls `cesu8::from_java_cesu8`.  In the crate's source it first tries
/// plain UTF-8 and returns that text when the bytes are valid UTF-8.
#[verifier::external_body]
fn cesu8_decode(bytes: &[u8]) -> (r: Option<String>)
    ensures
        r matches Some(s) ==> java_cesu8_decoded(bytes@) == Some(s@),
        r is None ==> java_cesu8_decoded(bytes@) is None,
        valid_utf8(bytes@) ==> r is Some && r.unwrap()@ == decode_utf8(bytes@),
{
    match cesu8::from_java_cesu8(bytes) {
        Ok(text) => Some(text.into_owned()),
        Err(_) => None,
    }
}

/// Calls `cesu8::to_java_cesu8`.  In the crate's source a text without NUL
/// and without characters above U+FFFF is returned as its UTF-8 bytes; any
/// other text gets a NUL as `C0 80` and each character above U+FFFF as two
/// encoded surrogates, neither of which is valid UTF-8.  What it gives,
/// `cesu8::from_java_cesu8` reads back as the text (the crate's documented
/// round trip).
#[verifier::external_body]
fn cesu8_encode(s: &str) -> (r: Vec<u8>)
    ensures
        r@ == java_cesu8_encoded(s@),
        plain_java_text(s@) ==> r@ == encode_utf8(s@),
        !plain_java_text(s@) ==> !valid_utf8(r@),
        java_cesu8_decoded(r@) == Some(s@),
{
    cesu8::to_java_cesu8(s).into_owned()
}

/// The text modified UTF-8 bytes stand for: plain UTF-8 is read as such,
/// anything else as `cesu8::from_java_cesu8` reads it.
pub open spec fn java_text_of(b: Seq<u8>) -> Option<Seq<char>> {
    if valid_utf8(b) {
        Some(decode_utf8(b))
    } else {
        java_cesu8_decoded(b)
    }
}

/// The modified UTF-8 bytes of a text: its UTF-8 when it has no NUL and no
/// character above U+FFFF, else what `cesu8::to_java_cesu8` makes of it.
pub open spec fn java_text_bytes(t: Seq<char>) -> Seq<u8> {
    if plain_java_text(t) {
        encode_utf8(t)
    } else {
        java_cesu8_encoded(t)
    }
}

/// Whether the modified UTF-8 bytes of a text read back as the text.  Every
/// text does: see `write_java_utf`, which states it of each text it writes,
/// and `lemma_plain_text_reads_back`.
pub open spec fn java_text_reads_back(t: Seq<char>) -> bool {
    java_text_of(java_text_bytes(t)) == Some(t)
}

/// A text without NUL and without characters above U+FFFF reads back.
pub proof fn lemma_plain_text_reads_back(t: Seq<char>)
    requires
        plain_java_text(t),
    ensures
        java_text_reads_back(t),
{
    vstd::utf8::encode_utf8_valid_utf8(t);
    vstd::utf8::encode_utf8_decode_utf8(t);
}

/// Reading a length-prefixed modified UTF-8 string: the text and the bytes
/// it took.
pub open spec fn java_utf_decode(s: Seq<u8>) -> Result<(Seq<char>, nat), IoError> {
    if s.len() < 2 {
        Err(IoError::UnexpectedEof)
    } else {
        let len = u16_of_be(s[0], s[1]);
        if s.len() < 2 + len {
            Err(IoError::UnexpectedEof)
        } else {
            match java_text_of(s.subrange(2, 2 + len)) {
                None => Err(IoError::InvalidData),
                Some(t) => Ok((t, (2 + len) as nat)),
            }
        }
    }
}

/// The bytes of a length-prefixed modified UTF-8 string (the length is cut
/// to sixteen bits, as the writer does).
pub open spec fn java_utf_bytes(t: Seq<char>) -> Seq<u8> {
    u16_be(java_text_bytes(t).len() as u16) + java_text_bytes(t)
}

/// Reads a length-prefixed modified UTF-8 string.
pub fn read_java_utf(src: &mut ByteReader) -> (r: Result<String, IoError>)
    ensures
        match java_utf_decode(old(src).rest()) {
            Ok((t, n)) => r matches Ok(text) && text@ == t && final(src).rest() == old(src).rest().skip(n as int),
            Err(e) => r == Err::<String, IoError>(e),
        },
{
    let ghost s = src.rest();
    let len = src.read_u16_be()?;
    let bytes = src.read_exact(len as usize)?;
    proof {
        assert(bytes@ =~= s.subrange(2, 2 + len));
        assert(src.rest() =~= s.skip((2 + len) as int));
    }
    match cesu8_decode(bytes.as_slice()) {
        Some(text) => Ok(text),
        None => Err(IoError::InvalidData),
    }
}

/// Writes a length-prefixed modified UTF-8 string.
pub fn write_java_utf(dest: &mut Vec<u8>, text: &str) -> (r: Result<(), IoError>)
    ensures
        r is Ok,
        final(dest)@ == old(dest)@ + java_utf_bytes(text@),
        java_text_reads_back(text@),
{
    let encoded = cesu8_encode(text);
    proof {
        if plain_java_text(text@) {
            lemma_plain_text_reads_back(text@);
        }
    }
    write_u16_be(dest, encoded.len() as u16);
    dest.extend_from_slice(encoded.as_slice());
    proof { assert(final(dest)@ =~= old(dest)@ + java_utf_bytes(text@)); }
    Ok(())
}

// ---------------------------------------------------------------------------
// The read budget
// ---------------------------------------------------------------------------

/// The budget of a read: bytes charged so far, the most that may be
/// charged, and the nesting depth.
pub struct CounterView {
    pub used: nat,
    pub max: nat,
    pub depth: nat,
}

/// Charging `b` bytes.
pub open spec fn account(c: CounterView, b: nat) -> Result<CounterView, IoError> {
    if c.used + b > c.max {
        Err(IoError::InvalidData)
    } else {
        Ok(CounterView { used: c.used + b, max: c.max, depth: c.depth })
    }
}

/// Entering a list or compound: at most 512 levels.
pub open spec fn enter(c: CounterView) -> Result<CounterView, IoError> {
    if c.depth + 1 > 512 {
        Err(IoError::InvalidData)
    } else {
        Ok(CounterView { used: c.used, max: c.max, depth: c.depth + 1 })
    }
}

/// Leaving a list or compound.
pub open spec fn leave(c: CounterView) -> Result<CounterView, IoError> {
    if c.depth == 0 {
        Err(IoError::InvalidData)
    } else {
        Ok(CounterView { used: c.used, max: c.max, depth: (c.depth - 1) as nat })
    }
}

/// Counts what a read of NBT data has used, and fails the read past the
/// limits.
pub struct NbtCounter {
    used_bytes: u64,
    max_bytes: u64,
    depth: u16,
}

impl NbtCounter {
    #[verifier::type_invariant]
    spec fn inv(&self) -> bool {
        self.used_bytes <= self.max_bytes
    }

    /// The counter's state.
    pub closed spec fn view(&self) -> CounterView {
        CounterView { used: self.used_bytes as nat, max: self.max_bytes as nat, depth: self.depth as nat }
    }

    /// The counter a read of network NBT starts with: nothing used, no byte
    /// limit beyond the range of `u64`.
    pub fn unlimited() -> (r: NbtCounter)
        ensures
            r.view() == (CounterView { used: 0, max: u64::MAX as nat, depth: 0 }),
    {
        NbtCounter { used_bytes: 0, max_bytes: u64::MAX, depth: 0 }
    }

    /// Charges `bytes`; fails when that would pass the limit.
    pub fn account_bytes(&mut self, bytes: u64) -> (r: Result<(), IoError>)
        ensures
            match account(old(self).view(), bytes as nat) {
                Ok(c) => r is Ok && final(self).view() == c,
                Err(e) => r == Err::<(), IoError>(e) && final(self).view() == old(self).view(),
            },
    {
        proof { use_type_invariant(&*self); }
        if bytes > self.max_bytes - self.used_bytes {
            return Err(IoError::InvalidData);
        }
        self.used_bytes = self.used_bytes + bytes;
        Ok(())
    }

    /// Enters one more level of nesting; fails past 512 levels (after
    /// counting the level).
    pub fn push(&mut self) -> (r: Result<(), IoError>)
        requires
            old(self).view().depth < u16::MAX,
        ensures
            match enter(old(self).view()) {
                Ok(c) => r is Ok && final(self).view() == c,
                Err(e) => r == Err::<(), IoError>(e),
            },
            final(self).view() == (CounterView { depth: old(self).view().depth + 1, ..old(self).view() }),
    {
        proof { use_type_invariant(&*self); }
        self.depth = self.depth + 1;
        if self.depth > 512 {
            return Err(IoError::InvalidData);
        }
        Ok(())
    }

    /// Leaves a level of nesting; fails when there is none to leave.
    pub fn pop(&mut self) -> (r: Result<(), IoError>)
        ensures
            match leave(old(self).view()) {
                Ok(c) => r is Ok && final(self).view() == c,
                Err(e) => r == Err::<(), IoError>(e) && final(self).view() == old(self).view(),
            },
    {
        proof { use_type_invariant(&*self); }
        if self.depth == 0 {
            return Err(IoError::InvalidData);
        }
        self.depth = self.depth - 1;
        Ok(())
    }
}

// ---------------------------------------------------------------------------
// Tags
// ---------------------------------------------------------------------------

/// An NBT value.  Float and double tags hold the IEEE 754 bits of the
/// number; a compound holds its entries in the order they were read, each
/// name once.
#[derive(Debug)]
pub enum NbtType {
    ByteTag(i8),
    ShortTag(i16),
    IntTag(i32),
    LongTag(i64),
    FloatTag(u32),
    DoubleTag(u64),
    ByteArrayTag(Vec<i8>),
    StringTag(String),
    ListTag(i8, Vec<NbtType>),
    CompoundTag(Vec<(String, NbtType)>),
    IntArrayTag(Vec<i32>),
    LongArrayTag(Vec<i64>),
}

/// An NBT value as a spec value.
pub enum NbtView {
    Byte(i8),
    Short(i16),
    Int(i32),
    Long(i64),
    Float(u32),
    Double(u64),
    ByteArray(Seq<i8>),
    Str(Seq<char>),
    List(i8, Seq<NbtView>),
    Compound(Seq<(Seq<char>, NbtView)>),
    IntArray(Seq<i32>),
    LongArray(Seq<i64>),
}

/// The spec value of a tag.
pub open spec fn nbt_view(t: NbtType) -> NbtView
    decreases t, 2nat,
{
    match t {
        NbtType::ByteTag(v) => NbtView::Byte(v),
        NbtType::ShortTag(v) => NbtView::Short(v),
        NbtType::IntTag(v) => NbtView::Int(v),
        NbtType::LongTag(v) => NbtView::Long(v),
        NbtType::FloatTag(v) => NbtView::Float(v),
        NbtType::DoubleTag(v) => NbtView::Double(v),
        NbtType::ByteArrayTag(v) => NbtView::ByteArray(v@),
        NbtType::StringTag(v) => NbtView::Str(v@),
        NbtType::ListTag(e, v) => NbtView::List(e, nbt_views(v@)),
        NbtType::CompoundTag(v) => NbtView::Compound(entry_views(v@)),
        NbtType::IntArrayTag(v) => NbtView::IntArray(v@),
        NbtType::LongArrayTag(v) => NbtView::LongArray(v@),
    }
}

/// The spec values of some tags.
pub open spec fn nbt_views(s: Seq<NbtType>) -> Seq<NbtView>
    decreases s, 1nat,
{
    if s.len() == 0 {
        Seq::empty()
    } else {
        nbt_views(s.drop_last()).push(nbt_view(s[s.len() - 1]))
    }
}

/// The spec values of some compound entries.
pub open spec fn entry_views(s: Seq<(String, NbtType)>) -> Seq<(Seq<char>, NbtView)>
    decreases s, 1nat,
{
    if s.len() == 0 {
        Seq::empty()
    } else {
        entry_views(s.drop_last()).push((s[s.len() - 1].0@, nbt_view(s[s.len() - 1].1)))
    }
}

/// The type id of a tag value.
pub open spec fn view_id(v: NbtView) -> i8 {
    match v {
        NbtView::Byte(_) => 1,
        NbtView::Short(_) => 2,
        NbtView::Int(_) => 3,
        NbtView::Long(_) => 4,
        NbtView::Float(_) => 5,
        NbtView::Double(_) => 6,
        NbtView::ByteArray(_) => 7,
        NbtView::Str(_) => 8,
        NbtView::List(_, _) => 9,
        NbtView::Compound(_) => 10,
        NbtView::IntArray(_) => 11,
        NbtView::LongArray(_) => 12,
    }
}

impl NbtType {
    /// The tag's type id.
    pub fn id(&self) -> (r: i8)
        ensures
            r == view_id(nbt_view(*self)),
    {
        match self {
            NbtType::ByteTag(_) => 1,
            NbtType::ShortTag(_) => 2,
            NbtType::IntTag(_) => 3,
            NbtType::LongTag(_) => 4,
            NbtType::FloatTag(_) => 5,
            NbtType::DoubleTag(_) => 6,
            NbtType::ByteArrayTag(_) => 7,
            NbtType::StringTag(_) => 8,
            NbtType::ListTag(_, _) => 9,
            NbtType::CompoundTag(_) => 10,
            NbtType::IntArrayTag(_) => 11,
            NbtType::LongArrayTag(_) => 12,
        }
    }
}

// ---------------------------------------------------------------------------
// Reading tags
// ---------------------------------------------------------------------------

/// The number of iterations a count read as an `i32` gives.
pub open spec fn count_of(c: i32) -> nat {
    if c <= 0 {
        0
    } else {
        c as nat
    }
}

/// Bytes read as signed bytes.
pub open spec fn bytes_as_i8(b: Seq<u8>) -> Seq<i8> {
    b.map_values(|x: u8| x as i8)
}

/// The bytes charged for an array of `len` items of `width` bytes.
pub open spec fn array_charge(len: i32, width: int) -> nat {
    ((len as int * width) as u64) as nat
}

/// The last position of an entry named `name`, if any.
pub open spec fn key_index(acc: Seq<(Seq<char>, NbtView)>, name: Seq<char>) -> Option<int>
    decreases acc.len(),
{
    if acc.len() == 0 {
        None
    } else if acc.last().0 == name {
        Some(acc.len() - 1)
    } else {
        key_index(acc.drop_last(), name)
    }
}

proof fn lemma_key_index(acc: Seq<(Seq<char>, NbtView)>, name: Seq<char>)
    ensures
        key_index(acc, name) matches Some(i) ==> 0 <= i < acc.len() && acc[i].0 == name,
    decreases acc.len(),
{
    if acc.len() > 0 && acc.last().0 != name {
        lemma_key_index(acc.drop_last(), name);
    }
}

/// Putting an entry into a compound: a name already there gets the new
/// value in its place, a new name goes at the end.
pub open spec fn insert_entry(acc: Seq<(Seq<char>, NbtView)>, name: Seq<char>, v: NbtView) -> Seq<(Seq<char>, NbtView)> {
    match key_index(acc, name) {
        Some(i) => acc.update(i, (name, v)),
        None => acc.push((name, v)),
    }
}

/// Adding what came before to the result of reading the rest.
pub open spec fn prepend(vs: Seq<NbtView>, m: nat, r: Result<(Seq<NbtView>, nat, CounterView), IoError>) -> Result<
    (Seq<NbtView>, nat, CounterView),
    IoError,
> {
    match r {
        Ok((ws, n, c)) => Ok((vs + ws, m + n, c)),
        Err(e) => Err(e),
    }
}

/// Counting what came before in the bytes a compound read took.
pub open spec fn shift(m: nat, r: Result<(Seq<(Seq<char>, NbtView)>, nat, CounterView), IoError>) -> Result<
    (Seq<(Seq<char>, NbtView)>, nat, CounterView),
    IoError,
> {
    match r {
        Ok((es, n, c)) => Ok((es, m + n, c)),
        Err(e) => Err(e),
    }
}

proof fn lemma_prepend_assoc(
    a: Seq<NbtView>,
    m: nat,
    b: Seq<NbtView>,
    n: nat,
    r: Result<(Seq<NbtView>, nat, CounterView), IoError>,
)
    ensures
        prepend(a, m, prepend(b, n, r)) == prepend(a + b, m + n, r),
{
    if let Ok((ws, k, c)) = r {
        assert(a + (b + ws) =~= (a + b) + ws);
    }
}

/// Reading a fixed-width value of `width` bytes after charging `charge`.
pub open spec fn fixed_decode(s: Seq<u8>, c: CounterView, charge: nat, width: nat, v: NbtView) -> Result<
    (NbtView, nat, CounterView),
    IoError,
> {
    match account(c, charge) {
        Err(e) => Err(e),
        Ok(c1) => if s.len() < width {
            Err(IoError::UnexpectedEof)
        } else {
            Ok((v, width, c1))
        },
    }
}

/// Reading the payload of a tag of type `id` from the start of `s` with
/// the budget `c`: the value, the bytes it took, and the budget after.
pub open spec fn nbt_decode(s: Seq<u8>, id: i8, c: CounterView) -> Result<(NbtView, nat, CounterView), IoError>
    decreases s.len(), 2nat, 0nat,
{
    if id == 1 {
        fixed_decode(s, c, 9, 1, NbtView::Byte(s[0] as i8))
    } else if id == 2 {
        fixed_decode(s, c, 10, 2, NbtView::Short(u16_of_be(s[0], s[1]) as i16))
    } else if id == 3 {
        fixed_decode(s, c, 12, 4, NbtView::Int(u32_of_be(s) as i32))
    } else if id == 4 {
        fixed_decode(s, c, 14, 8, NbtView::Long(u64_of_be(s) as i64))
    } else if id == 5 {
        fixed_decode(s, c, 12, 4, NbtView::Float(u32_of_be(s)))
    } else if id == 6 {
        fixed_decode(s, c, 14, 8, NbtView::Double(u64_of_be(s)))
    } else if id == 7 || id == 11 || id == 12 {
        let width: nat = if id == 7 { 1 } else if id == 11 { 4 } else { 8 };
        match account(c, 24) {
            Err(e) => Err(e),
            Ok(c1) => if s.len() < 4 {
                Err(IoError::UnexpectedEof)
            } else {
                let len = u32_of_be(s) as i32;
                if len < 0 {
                    Err(IoError::InvalidData)
                } else {
                    match account(c1, array_charge(len, width as int)) {
                        Err(e) => Err(e),
                        Ok(c2) => if s.len() < 4 + len * width {
                            Err(IoError::UnexpectedEof)
                        } else {
                            let total = (4 + len * width) as nat;
                            if id == 7 {
                                Ok((NbtView::ByteArray(bytes_as_i8(s.subrange(4, 4 + len))), total, c2))
                            } else if id == 11 {
                                Ok(
                                    (
                                        NbtView::IntArray(
                                            Seq::new(len as nat, |k: int| u32_of_be(s.skip((4 + 4 * k) as int)) as i32),
                                        ),
                                        total,
                                        c2,
                                    ),
                                )
                            } else {
                                Ok(
                                    (
                                        NbtView::LongArray(
                                            Seq::new(len as nat, |k: int| u64_of_be(s.skip((4 + 8 * k) as int)) as i64),
                                        ),
                                        total,
                                        c2,
                                    ),
                                )
                            }
                        },
                    }
                }
            },
        }
    } else if id == 8 {
        match account(c, 36) {
            Err(e) => Err(e),
            Ok(c1) => match java_utf_decode(s) {
                Err(e) => Err(e),
                Ok((t, n)) => match account(c1, 2 * encode_utf8(t).len()) {
                    Err(e) => Err(e),
                    Ok(c2) => Ok((NbtView::Str(t), n, c2)),
                },
            },
        }
    } else if id == 9 {
        match enter(c) {
            Err(e) => Err(e),
            Ok(c1) => match account(c1, 37) {
                Err(e) => Err(e),
                Ok(c2) => if s.len() < 5 {
                    Err(IoError::UnexpectedEof)
                } else {
                    let elem = s[0] as i8;
                    let amt = u32_of_be(s.skip(1)) as i32;
                    if elem == 0 && amt > 0 {
                        Err(IoError::InvalidData)
                    } else {
                        match account(c2, array_charge(amt, 4)) {
                            Err(e) => Err(e),
                            Ok(c3) => match list_decode(s.skip(5), elem, count_of(amt), c3) {
                                Err(e) => Err(e),
                                Ok((vs, n, c4)) => match leave(c4) {
                                    Err(e) => Err(e),
                                    Ok(c5) => Ok((NbtView::List(elem, vs), 5 + n, c5)),
                                },
                            },
                        }
                    }
                },
            },
        }
    } else if id == 10 {
        match enter(c) {
            Err(e) => Err(e),
            Ok(c1) => match account(c1, 48) {
                Err(e) => Err(e),
                Ok(c2) => match compound_decode(s, c2, Seq::empty()) {
                    Err(e) => Err(e),
                    Ok((es, n, c3)) => match leave(c3) {
                        Err(e) => Err(e),
                        Ok(c4) => Ok((NbtView::Compound(es), n, c4)),
                    },
                },
            },
        }
    } else {
        Err(IoError::InvalidData)
    }
}

/// Reading `k` payloads of type `elem` one after another.
pub open spec fn list_decode(s: Seq<u8>, elem: i8, k: nat, c: CounterView) -> Result<
    (Seq<NbtView>, nat, CounterView),
    IoError,
>
    decreases s.len(), 3nat, k,
{
    if k == 0 {
        Ok((Seq::empty(), 0, c))
    } else {
        match nbt_decode(s, elem, c) {
            Err(e) => Err(e),
            Ok((v, n, c1)) => if n == 0 || n > s.len() {
                Err(IoError::InvalidData)
            } else {
                prepend(seq![v], n, list_decode(s.skip(n as int), elem, (k - 1) as nat, c1))
            },
        }
    }
}

/// Reading one compound entry (type, name, payload) into the entries
/// `acc` read so far: `None` at the end tag (one byte), else the entries
/// after it, the bytes it took, and the budget after.
pub open spec fn compound_step(s: Seq<u8>, c: CounterView, acc: Seq<(Seq<char>, NbtView)>) -> Result<
    Option<(Seq<(Seq<char>, NbtView)>, nat, CounterView)>,
    IoError,
>
    decreases s.len(), 1nat, 0nat,
{
    if s.len() < 1 {
        Err(IoError::UnexpectedEof)
    } else if s[0] == 0 {
        Ok(None)
    } else {
        match java_utf_decode(s.skip(1)) {
            Err(e) => Err(e),
            Ok((name, m)) => match account(c, 28) {
                Err(e) => Err(e),
                Ok(c1) => match account(c1, 2 * encode_utf8(name).len()) {
                    Err(e) => Err(e),
                    Ok(c2) => match nbt_decode(s.skip((1 + m) as int), s[0] as i8, c2) {
                        Err(e) => Err(e),
                        Ok((v, n, c3)) => {
                            let charged = if key_index(acc, name) is None {
                                account(c3, 36)
                            } else {
                                Ok(c3)
                            };
                            match charged {
                                Err(e) => Err(e),
                                Ok(c4) => Ok(Some((insert_entry(acc, name, v), 1 + m + n, c4))),
                            }
                        },
                    },
                },
            },
        }
    }
}

/// Reading compound entries until the end tag, into the entries `acc`
/// read so far.
pub open spec fn compound_decode(s: Seq<u8>, c: CounterView, acc: Seq<(Seq<char>, NbtView)>) -> Result<
    (Seq<(Seq<char>, NbtView)>, nat, CounterView),
    IoError,
>
    decreases s.len(), 1nat, 1nat,
{
    match compound_step(s, c, acc) {
        Err(e) => Err(e),
        Ok(None) => Ok((acc, 1, c)),
        Ok(Some((acc2, n, c2))) => if n == 0 || n > s.len() {
            Err(IoError::InvalidData)
        } else {
            shift(n, compound_decode(s.skip(n as int), c2, acc2))
        },
    }
}


/// The spec values of tags, one by one.
proof fn lemma_nbt_views(s: Seq<NbtType>)
    ensures
        nbt_views(s).len() == s.len(),
        forall|i: int| 0 <= i < s.len() ==> #[trigger] nbt_views(s)[i] == nbt_view(s[i]),
    decreases s.len(),
{
    if s.len() > 0 {
        lemma_nbt_views(s.drop_last());
    }
}

/// The spec values of compound entries, one by one.
proof fn lemma_entry_views(s: Seq<(String, NbtType)>)
    ensures
        entry_views(s).len() == s.len(),
        forall|i: int| 0 <= i < s.len() ==> #[trigger] entry_views(s)[i] == (s[i].0@, nbt_view(s[i].1)),
    decreases s.len(),
{
    if s.len() > 0 {
        lemma_entry_views(s.drop_last());
    }
}

/// The last entry named `name`, searching from the end.
fn find_entry(entries: &Vec<(String, NbtType)>, name: &String) -> (r: Option<usize>)
    ensures
        match key_index(entry_views(entries@), name@) {
            Some(i) => r is Some && r.unwrap() as int == i,
            None => r is None,
        },
{
    proof { lemma_entry_views(entries@); }
    let mut i: usize = entries.len();
    proof { assert(entry_views(entries@).take(i as int) =~= entry_views(entries@)); }
    while i > 0
        invariant
            i <= entries@.len(),
            entry_views(entries@).len() == entries@.len(),
            forall|k: int| 0 <= k < entries@.len() ==> #[trigger] entry_views(entries@)[k] == (entries@[k].0@, nbt_view(entries@[k].1)),
            key_index(entry_views(entries@), name@) == key_index(entry_views(entries@).take(i as int), name@),
        decreases i,
    {
        proof { assert(entry_views(entries@).take(i as int).drop_last() =~= entry_views(entries@).take(i - 1)); }
        if entries[i - 1].0 == *name {
            return Some(i - 1);
        }
        i = i - 1;
    }
    None
}

impl NbtType {
    fn read_array(src: &mut ByteReader, counter: &mut NbtCounter, id: i8) -> (r: Result<NbtType, IoError>)
        requires
            id == 7 || id == 11 || id == 12,
        ensures
            match nbt_decode(old(src).rest(), id, old(counter).view()) {
                Ok((v, n, c)) => r matches Ok(t) && nbt_view(t) == v && final(src).rest() == old(src).rest().skip(n as int)
                    && final(counter).view() == c && 1 <= n <= old(src).rest().len(),
                Err(e) => r == Err::<NbtType, IoError>(e),
            },
    {
        let ghost s = src.rest();
        let width: u64 = if id == 7 { 1 } else if id == 11 { 4 } else { 8 };
        counter.account_bytes(24)?;
        let len = src.read_u32_be()? as i32;
        if len < 0 {
            return Err(IoError::InvalidData);
        }
        counter.account_bytes(((len as i64) * (width as i64)) as u64)?;
        if (src.remaining() as u64) < (len as u64) * width {
            return Err(IoError::UnexpectedEof);
        }
        let ghost t = src.rest();
        proof { assert(t =~= s.skip(4)); }
        if id == 7 {
            let raw = src.read_exact(len as usize)?;
            let mut bytes: Vec<i8> = Vec::new();
            let mut k: usize = 0;
            while k < raw.len()
                invariant
                    k <= raw@.len(),
                    bytes@ == bytes_as_i8(raw@.take(k as int)),
                decreases raw.len() - k,
            {
                bytes.push(raw[k] as i8);
                k = k + 1;
                proof { assert(bytes@ =~= bytes_as_i8(raw@.take(k as int))); }
            }
            proof {
                assert(raw@.take(raw@.len() as int) =~= raw@);
                assert(raw@ =~= s.subrange(4, 4 + len));
                assert(src.rest() =~= s.skip((4 + len) as int));
            }
            Ok(NbtType::ByteArrayTag(bytes))
        } else if id == 11 {
            let mut ints: Vec<i32> = Vec::new();
            let mut k: i32 = 0;
            while k < len
                invariant
                    0 <= k <= len,
                    t.len() >= 4 * len,
                    t == s.skip(4),
                    s.len() >= 4,
                    src.rest() == t.skip((4 * k) as int),
                    ints@ == Seq::new(k as nat, |j: int| u32_of_be(s.skip((4 + 4 * j) as int)) as i32),
                decreases len - k,
            {
                let v = src.read_u32_be()?;
                proof {
                    let a = t.skip((4 * k) as int).take(4);
                    let b = s.skip((4 + 4 * k) as int);
                    assert(a[0] == b[0] && a[1] == b[1] && a[2] == b[2] && a[3] == b[3]);
                    assert(src.rest() =~= t.skip(4 * (k + 1)));
                }
                ints.push(v as i32);
                k = k + 1;
                proof { assert(ints@ =~= Seq::new(k as nat, |j: int| u32_of_be(s.skip((4 + 4 * j) as int)) as i32)); }
            }
            proof { assert(src.rest() =~= s.skip((4 + 4 * len) as int)); }
            Ok(NbtType::IntArrayTag(ints))
        } else {
            let mut longs: Vec<i64> = Vec::new();
            let mut k: i32 = 0;
            while k < len
                invariant
                    0 <= k <= len,
                    t.len() >= 8 * len,
                    t == s.skip(4),
                    s.len() >= 4,
                    src.rest() == t.skip((8 * k) as int),
                    longs@ == Seq::new(k as nat, |j: int| u64_of_be(s.skip((4 + 8 * j) as int)) as i64),
                decreases len - k,
            {
                let v = src.read_u64_be()?;
                proof {
                    let a = t.skip((8 * k) as int).take(8);
                    let b = s.skip((4 + 8 * k) as int);
                    assert(a[0] == b[0] && a[1] == b[1] && a[2] == b[2] && a[3] == b[3]);
                    assert(a[4] == b[4] && a[5] == b[5] && a[6] == b[6] && a[7] == b[7]);
                    assert(src.rest() =~= t.skip(8 * (k + 1)));
                }
                longs.push(v as i64);
                k = k + 1;
                proof { assert(longs@ =~= Seq::new(k as nat, |j: int| u64_of_be(s.skip((4 + 8 * j) as int)) as i64)); }
            }
            proof { assert(src.rest() =~= s.skip((4 + 8 * len) as int)); }
            Ok(NbtType::LongArrayTag(longs))
        }
    }
}

impl NbtType {
    /// Reads the payload of a tag of type `id`, charging `counter`.
    fn read(src: &mut ByteReader, counter: &mut NbtCounter, id: i8) -> (r: Result<NbtType, IoError>)
        requires
            old(counter).view().depth <= 512,
        ensures
            match nbt_decode(old(src).rest(), id, old(counter).view()) {
                Ok((v, n, c)) => r matches Ok(t) && nbt_view(t) == v && final(src).rest() == old(src).rest().skip(n as int)
                    && final(counter).view() == c && 1 <= n <= old(src).rest().len(),
                Err(e) => r == Err::<NbtType, IoError>(e),
            },
            r is Ok ==> final(counter).view().depth == old(counter).view().depth,
        decreases old(src).rest().len(), 2nat,
    {
        let ghost s = src.rest();
        if id == 1 {
            counter.account_bytes(9)?;
            let b = src.read_u8()?;
            proof { assert(src.rest() =~= s.skip(1)); }
            Ok(NbtType::ByteTag(b as i8))
        } else if id == 2 {
            counter.account_bytes(10)?;
            let v = src.read_u16_be()?;
            Ok(NbtType::ShortTag(v as i16))
        } else if id == 3 {
            counter.account_bytes(12)?;
            let v = src.read_u32_be()?;
            Ok(NbtType::IntTag(v as i32))
        } else if id == 4 {
            counter.account_bytes(14)?;
            let v = src.read_u64_be()?;
            Ok(NbtType::LongTag(v as i64))
        } else if id == 5 {
            counter.account_bytes(12)?;
            let v = src.read_u32_be()?;
            Ok(NbtType::FloatTag(v))
        } else if id == 6 {
            counter.account_bytes(14)?;
            let v = src.read_u64_be()?;
            Ok(NbtType::DoubleTag(v))
        } else if id == 7 || id == 11 || id == 12 {
            Self::read_array(src, counter, id)
        } else if id == 8 {
            counter.account_bytes(36)?;
            let text = read_java_utf(src)?;
            let blen = text.as_str().as_bytes().len();
            if (blen as u64) > u64::MAX / 2 {
                return Err(IoError::InvalidData);
            }
            counter.account_bytes((blen as u64) * 2)?;
            proof { vstd::utf8::encode_utf8_valid_utf8(text@); }
            Ok(NbtType::StringTag(text))
        } else if id == 9 {
            Self::read_list(src, counter)
        } else if id == 10 {
            Self::read_compound(src, counter)
        } else {
            Err(IoError::InvalidData)
        }
    }

    fn read_list(src: &mut ByteReader, counter: &mut NbtCounter) -> (r: Result<NbtType, IoError>)
        requires
            old(counter).view().depth <= 512,
        ensures
            match nbt_decode(old(src).rest(), 9, old(counter).view()) {
                Ok((v, n, c)) => r matches Ok(t) && nbt_view(t) == v && final(src).rest() == old(src).rest().skip(n as int)
                    && final(counter).view() == c && 1 <= n <= old(src).rest().len(),
                Err(e) => r == Err::<NbtType, IoError>(e),
            },
            r is Ok ==> final(counter).view().depth == old(counter).view().depth,
        decreases old(src).rest().len(), 1nat,
    {
        let ghost s = src.rest();
        let ghost c0 = counter.view();
        counter.push()?;
        counter.account_bytes(37)?;
        let elem = src.read_u8()? as i8;
        let amt = src.read_u32_be()? as i32;
        proof { assert(src.rest() =~= s.skip(5)); }
        if elem == 0 && amt > 0 {
            return Err(IoError::InvalidData);
        }
        counter.account_bytes(((amt as i64) * 4) as u64)?;
        let ghost s1 = src.rest();
        let ghost c3 = counter.view();
        let ghost k0 = count_of(amt);
        let mut tags: Vec<NbtType> = Vec::new();
        let ghost mut used: nat = 0;
        let mut i: i32 = 0;
        proof {
            lemma_nbt_views(tags@);
            assert(s1.skip(0) =~= s1);
            assert(nbt_views(tags@) + Seq::<NbtView>::empty() =~= Seq::<NbtView>::empty());
        }
        while i < amt
            invariant
                s == old(src).rest(),
                c0 == old(counter).view(),
                enter(c0) is Ok,
                account(enter(c0).unwrap(), 37) is Ok,
                account(account(enter(c0).unwrap(), 37).unwrap(), array_charge(amt, 4)) == Ok::<CounterView, IoError>(c3),
                elem == s[0] as i8,
                amt == u32_of_be(s.skip(1)) as i32,
                !(elem == 0 && amt > 0),
                s1 == s.skip(5),
                s.len() >= 5,
                k0 == count_of(amt),
                0 <= i,
                amt > 0 ==> i <= amt,
                amt <= 0 ==> i == 0,
                src.rest() == s1.skip(used as int),
                used <= s1.len(),
                counter.view().depth == c3.depth,
                c3.depth <= 512,
                list_decode(s1, elem, k0, c3) == prepend(
                    nbt_views(tags@),
                    used,
                    list_decode(src.rest(), elem, (k0 - i) as nat, counter.view()),
                ),
            decreases amt - i,
        {
            let ghost cur = src.rest();
            let ghost cc = counter.view();
            let ghost before = nbt_views(tags@);
            let ghost old_tags = tags@;
            let tag = Self::read(src, counter, elem)?;
            proof {
                let n = nbt_decode(cur, elem, cc).unwrap().1;
                assert(src.rest() =~= s1.skip((used + n) as int));
                assert(cur.skip(n as int) == src.rest());
                let rest_r = list_decode(src.rest(), elem, (k0 - (i + 1)) as nat, counter.view());
                assert(list_decode(cur, elem, (k0 - i) as nat, cc) == prepend(seq![nbt_view(tag)], n, rest_r));
                lemma_prepend_assoc(before, used, seq![nbt_view(tag)], n, rest_r);
                assert(before + seq![nbt_view(tag)] =~= before.push(nbt_view(tag)));
                used = used + n;
            }
            tags.push(tag);
            proof {
                assert(tags@.drop_last() =~= old_tags);
                assert(nbt_views(tags@) == before.push(nbt_view(tags@[tags@.len() - 1])));
            }
            i = i + 1;
        }
        counter.pop()?;
        proof {
            assert(nbt_views(tags@) + Seq::<NbtView>::empty() =~= nbt_views(tags@));
            assert(src.rest() =~= s.skip((5 + used) as int));
        }
        Ok(NbtType::ListTag(elem, tags))
    }

    fn read_compound_entry(src: &mut ByteReader, counter: &mut NbtCounter, entries: &mut Vec<(String, NbtType)>) -> (r: Result<bool, IoError>)
        requires
            old(counter).view().depth <= 512,
        ensures
            match compound_step(old(src).rest(), old(counter).view(), entry_views(old(entries)@)) {
                Ok(None) => r == Ok::<bool, IoError>(true) && final(src).rest() == old(src).rest().skip(1)
                    && final(counter).view() == old(counter).view() && old(src).rest().len() >= 1 && final(entries)@
                    == old(entries)@,
                Ok(Some((acc, n, c))) => r == Ok::<bool, IoError>(false) && entry_views(final(entries)@) == acc
                    && final(src).rest() == old(src).rest().skip(n as int) && final(counter).view() == c && 1 <= n
                    <= old(src).rest().len(),
                Err(e) => r == Err::<bool, IoError>(e),
            },
            r is Ok ==> final(counter).view().depth == old(counter).view().depth,
        decreases old(src).rest().len(), 0nat,
    {
        let ghost cur = src.rest();
        let ghost acc = entry_views(entries@);
        let t = src.read_u8()?;
        if t == 0 {
            proof { assert(src.rest() =~= cur.skip(1)); }
            return Ok(true);
        }
        let name = read_java_utf(src)?;
        let ghost m = java_utf_decode(cur.skip(1)).unwrap().1;
        counter.account_bytes(28)?;
        let blen = name.as_str().as_bytes().len();
        proof { vstd::utf8::encode_utf8_valid_utf8(name@); }
        if (blen as u64) > u64::MAX / 2 {
            return Err(IoError::InvalidData);
        }
        counter.account_bytes((blen as u64) * 2)?;
        proof { assert(src.rest() =~= cur.skip((1 + m) as int)); }
        let ghost c2 = counter.view();
        let tag = Self::read(src, counter, t as i8)?;
        let ghost n = nbt_decode(cur.skip((1 + m) as int), t as i8, c2).unwrap().1;
        let found = find_entry(entries, &name);
        proof {
            lemma_key_index(acc, name@);
            lemma_entry_views(entries@);
        }
        if found.is_none() {
            counter.account_bytes(36)?;
        }
        let ghost tv = nbt_view(tag);
        let ghost nm = name@;
        proof { lemma_entry_views(entries@); }
        match found {
            Some(idx) => {
                proof {
                    let ki = key_index(acc, nm);
                    assert(ki is Some);
                    assert(ki.unwrap() < acc.len());
                    assert(idx as int == ki.unwrap());
                }
                entries.set(idx, (name, tag));
                proof {
                    lemma_entry_views(entries@);
                    assert(entry_views(entries@) =~= acc.update(idx as int, (nm, tv)));
                    assert(key_index(acc, nm) == Some(idx as int));
                    assert(entry_views(entries@) == insert_entry(acc, nm, tv));
                }
            },
            None => {
                entries.push((name, tag));
                proof {
                    lemma_entry_views(entries@);
                    assert(entry_views(entries@) =~= acc.push((nm, tv)));
                    assert(key_index(acc, nm) is None);
                    assert(entry_views(entries@) == insert_entry(acc, nm, tv));
                }
            },
        }
        proof {
            assert(src.rest() =~= cur.skip((1 + m + n) as int));
            assert(entry_views(entries@) == insert_entry(acc, nm, tv));
            assert(nbt_decode(cur.skip((1 + m) as int), cur[0] as i8, c2) is Ok);
            assert(compound_step(cur, old(counter).view(), acc) == Ok::<Option<(Seq<(Seq<char>, NbtView)>, nat, CounterView)>, IoError>(Some((insert_entry(acc, nm, tv), 1 + m + n, counter.view()))));
        }
        Ok(false)
    }

    fn read_compound(src: &mut ByteReader, counter: &mut NbtCounter) -> (r: Result<NbtType, IoError>)
        requires
            old(counter).view().depth <= 512,
        ensures
            match nbt_decode(old(src).rest(), 10, old(counter).view()) {
                Ok((v, n, c)) => r matches Ok(t) && nbt_view(t) == v && final(src).rest() == old(src).rest().skip(n as int)
                    && final(counter).view() == c && 1 <= n <= old(src).rest().len(),
                Err(e) => r == Err::<NbtType, IoError>(e),
            },
            r is Ok ==> final(counter).view().depth == old(counter).view().depth,
        decreases old(src).rest().len(), 1nat,
    {
        let ghost s = src.rest();
        let ghost c0 = counter.view();
        counter.push()?;
        counter.account_bytes(48)?;
        let ghost c2 = counter.view();
        let mut entries: Vec<(String, NbtType)> = Vec::new();
        let ghost mut used: nat = 0;
        proof {
            assert(s.skip(0) =~= s);
            assert(entry_views(entries@) =~= Seq::<(Seq<char>, NbtView)>::empty());
        }
        loop
            invariant
                s == old(src).rest(),
                c0 == old(counter).view(),
                enter(c0) is Ok,
                account(enter(c0).unwrap(), 48) == Ok::<CounterView, IoError>(c2),
                src.rest() == s.skip(used as int),
                used <= s.len(),
                counter.view().depth == c2.depth,
                c2.depth <= 512,
                compound_decode(s, c2, Seq::empty()) == shift(
                    used,
                    compound_decode(src.rest(), counter.view(), entry_views(entries@)),
                ),
            decreases src.rest().len(),
        {
            let ghost cur = src.rest();
            let ghost cc = counter.view();
            let ghost acc = entry_views(entries@);
            let done = Self::read_compound_entry(src, counter, &mut entries)?;
            if done {
                proof {
                    assert(compound_step(cur, cc, acc) == Ok::<Option<(Seq<(Seq<char>, NbtView)>, nat, CounterView)>, IoError>(None));
                    assert(compound_decode(cur, cc, acc) == Ok::<(Seq<(Seq<char>, NbtView)>, nat, CounterView), IoError>((acc, 1, cc)));
                }
                counter.pop()?;
                proof { assert(src.rest() =~= s.skip((used + 1) as int)); }
                return Ok(NbtType::CompoundTag(entries));
            }
            proof {
                let n = compound_step(cur, cc, acc).unwrap().unwrap().1;
                assert(src.rest() =~= s.skip((used + n) as int));
                used = used + n;
            }
        }
    }
}

// ---------------------------------------------------------------------------
// Writing tags
// ---------------------------------------------------------------------------

/// Signed bytes as bytes.
pub open spec fn i8_as_bytes(b: Seq<i8>) -> Seq<u8> {
    b.map_values(|x: i8| x as u8)
}

/// The bytes of `i32` values one after another.
pub open spec fn ints_bytes(a: Seq<i32>) -> Seq<u8>
    decreases a.len(),
{
    if a.len() == 0 {
        Seq::empty()
    } else {
        ints_bytes(a.drop_last()) + u32_be(a.last() as u32)
    }
}

/// The bytes of `i64` values one after another.
pub open spec fn longs_bytes(a: Seq<i64>) -> Seq<u8>
    decreases a.len(),
{
    if a.len() == 0 {
        Seq::empty()
    } else {
        longs_bytes(a.drop_last()) + u64_be(a.last() as u64)
    }
}

/// The bytes of a tag's payload.
pub open spec fn nbt_bytes(v: NbtView) -> Seq<u8>
    decreases v, 2nat,
{
    match v {
        NbtView::Byte(b) => seq![b as u8],
        NbtView::Short(x) => u16_be(x as u16),
        NbtView::Int(x) => u32_be(x as u32),
        NbtView::Long(x) => u64_be(x as u64),
        NbtView::Float(b) => u32_be(b),
        NbtView::Double(b) => u64_be(b),
        NbtView::ByteArray(a) => u32_be((a.len() as i32) as u32) + i8_as_bytes(a),
        NbtView::Str(t) => java_utf_bytes(t),
        NbtView::List(e, vs) => seq![e as u8] + u32_be((vs.len() as i32) as u32) + list_bytes(vs),
        NbtView::Compound(es) => compound_bytes(es) + seq![0u8],
        NbtView::IntArray(a) => u32_be((a.len() as i32) as u32) + ints_bytes(a),
        NbtView::LongArray(a) => u32_be((a.len() as i32) as u32) + longs_bytes(a),
    }
}

/// The payloads of list elements one after another.
pub open spec fn list_bytes(vs: Seq<NbtView>) -> Seq<u8>
    decreases vs, 1nat,
{
    if vs.len() == 0 {
        Seq::empty()
    } else {
        list_bytes(vs.drop_last()) + nbt_bytes(vs[vs.len() - 1])
    }
}

/// Compound entries one after another: type id, name, payload.
pub open spec fn compound_bytes(es: Seq<(Seq<char>, NbtView)>) -> Seq<u8>
    decreases es, 1nat,
{
    if es.len() == 0 {
        Seq::empty()
    } else {
        compound_bytes(es.drop_last()) + seq![view_id(es[es.len() - 1].1) as u8] + java_utf_bytes(es[es.len() - 1].0)
            + nbt_bytes(es[es.len() - 1].1)
    }
}

impl NbtType {
    /// Writes the tag's payload.
    pub fn write(&self, out: &mut Vec<u8>) -> (r: Result<(), IoError>)
        ensures
            r is Ok,
            final(out)@ == old(out)@ + nbt_bytes(nbt_view(*self)),
            texts_read_back(nbt_view(*self)),
        decreases self,
    {
        match self {
            NbtType::ByteTag(v) => write_u8(out, *v as u8),
            NbtType::ShortTag(v) => write_u16_be(out, *v as u16),
            NbtType::IntTag(v) => write_u32_be(out, *v as u32),
            NbtType::LongTag(v) => write_u64_be(out, *v as u64),
            NbtType::FloatTag(v) => write_u32_be(out, *v),
            NbtType::DoubleTag(v) => write_u64_be(out, *v),
            NbtType::ByteArrayTag(v) => {
                write_u32_be(out, (v.len() as i32) as u32);
                let ghost o1 = out@;
                let mut k: usize = 0;
                while k < v.len()
                    invariant
                        k <= v@.len(),
                        out@ == o1 + i8_as_bytes(v@.take(k as int)),
                    decreases v.len() - k,
                {
                    out.push(v[k] as u8);
                    k = k + 1;
                    proof { assert(out@ =~= o1 + i8_as_bytes(v@.take(k as int))); }
                }
                proof { assert(v@.take(v@.len() as int) =~= v@); }
            },
            NbtType::StringTag(v) => {
                let _ = write_java_utf(out, v.as_str());
            },
            NbtType::ListTag(e, values) => {
                write_u8(out, *e as u8);
                write_u32_be(out, (values.len() as i32) as u32);
                let ghost o1 = out@;
                proof { lemma_nbt_views(values@); }
                let mut k: usize = 0;
                while k < values.len()
                    invariant
                        *self == NbtType::ListTag(*e, *values),
                        k <= values@.len(),
                        nbt_views(values@).len() == values@.len(),
                        forall|j: int| 0 <= j < values@.len() ==> #[trigger] nbt_views(values@)[j] == nbt_view(values@[j]),
                        out@ == o1 + list_bytes(nbt_views(values@).take(k as int)),
                        forall|j: int| 0 <= j < k ==> texts_read_back(#[trigger] nbt_views(values@)[j]),
                    decreases values.len() - k,
                {
                    proof {
                        assert(decreases_to!(*self => (*self)->1));
                        assert((*self)->1 == *values);
                        assert(decreases_to!(*values => values@));
                        assert(decreases_to!(values@ => values@[k as int]));
                    }
                    values[k].write(out);
                    proof {
                        assert(nbt_views(values@).take(k + 1).drop_last() =~= nbt_views(values@).take(k as int));
                        assert(out@ =~= o1 + list_bytes(nbt_views(values@).take(k + 1)));
                    }
                    k = k + 1;
                }
                proof {
                    assert(nbt_views(values@).take(values@.len() as int) =~= nbt_views(values@));
                    lemma_items_texts(nbt_views(values@));
                }
            },
            NbtType::CompoundTag(entries) => {
                let ghost o0 = out@;
                proof { lemma_entry_views(entries@); }
                let mut k: usize = 0;
                while k < entries.len()
                    invariant
                        *self == NbtType::CompoundTag(*entries),
                        k <= entries@.len(),
                        entry_views(entries@).len() == entries@.len(),
                        forall|j: int|
                            0 <= j < entries@.len() ==> #[trigger] entry_views(entries@)[j] == (
                                entries@[j].0@,
                                nbt_view(entries@[j].1),
                            ),
                        out@ == o0 + compound_bytes(entry_views(entries@).take(k as int)),
                        forall|j: int|
                            0 <= j < k ==> java_text_reads_back((#[trigger] entry_views(entries@)[j]).0)
                                && texts_read_back(entry_views(entries@)[j].1),
                    decreases entries.len() - k,
                {
                    let id = entries[k].1.id();
                    write_u8(out, id as u8);
                    let _ = write_java_utf(out, entries[k].0.as_str());
                    proof {
                        assert(decreases_to!(*self => (*self)->CompoundTag_0));
                        assert((*self)->CompoundTag_0 == *entries);
                        assert(decreases_to!(*entries => entries@));
                        assert(decreases_to!(entries@ => entries@[k as int]));
                        assert(decreases_to!(entries@[k as int] => entries@[k as int].1));
                    }
                    entries[k].1.write(out);
                    proof {
                        assert(entry_views(entries@).take(k + 1).drop_last() =~= entry_views(entries@).take(k as int));
                        assert(out@ =~= o0 + compound_bytes(entry_views(entries@).take(k + 1)));
                    }
                    k = k + 1;
                }
                proof {
                    assert(entry_views(entries@).take(entries@.len() as int) =~= entry_views(entries@));
                    lemma_entries_texts(entry_views(entries@));
                }
                write_u8(out, 0);
            },
            NbtType::IntArrayTag(v) => {
                write_u32_be(out, (v.len() as i32) as u32);
                let ghost o1 = out@;
                let mut k: usize = 0;
                while k < v.len()
                    invariant
                        k <= v@.len(),
                        out@ == o1 + ints_bytes(v@.take(k as int)),
                    decreases v.len() - k,
                {
                    write_u32_be(out, v[k] as u32);
                    proof {
                        assert(v@.take(k + 1).drop_last() =~= v@.take(k as int));
                        assert(out@ =~= o1 + ints_bytes(v@.take(k + 1)));
                    }
                    k = k + 1;
                }
                proof { assert(v@.take(v@.len() as int) =~= v@); }
            },
            NbtType::LongArrayTag(v) => {
                write_u32_be(out, (v.len() as i32) as u32);
                let ghost o1 = out@;
                let mut k: usize = 0;
                while k < v.len()
                    invariant
                        k <= v@.len(),
                        out@ == o1 + longs_bytes(v@.take(k as int)),
                    decreases v.len() - k,
                {
                    write_u64_be(out, v[k] as u64);
                    proof {
                        assert(v@.take(k + 1).drop_last() =~= v@.take(k as int));
                        assert(out@ =~= o1 + longs_bytes(v@.take(k + 1)));
                    }
                    k = k + 1;
                }
                proof { assert(v@.take(v@.len() as int) =~= v@); }
            },
        }
        proof { assert(final(out)@ =~= old(out)@ + nbt_bytes(nbt_view(*self))); }
        Ok(())
    }
}

// ---------------------------------------------------------------------------
// NBT in packets
// ---------------------------------------------------------------------------

/// A tag with a name, as packets before 1.20.2 carry it.
#[derive(Debug)]
pub struct NamedTag {
    name: String,
    tag: NbtType,
}

impl NamedTag {
    /// The tag's name.
    pub closed spec fn name_view(&self) -> Seq<char> {
        self.name@
    }

    /// The tag's value.
    pub closed spec fn tag_view(&self) -> NbtView {
        nbt_view(self.tag)
    }
}

/// NBT as a packet carries it: from 1.20.2 on a type id and a payload (or
/// just the id 0 for none), before that a named tag.
#[derive(Debug)]
pub enum NetworkNbt {
    Unnamed(Option<NbtType>),
    Named(NamedTag),
}

/// Network NBT as spec values.
pub enum NetworkNbtView {
    Unnamed(Option<NbtView>),
    Named(Seq<char>, NbtView),
}

impl NetworkNbt {
    pub open spec fn view(&self) -> NetworkNbtView {
        match self {
            NetworkNbt::Unnamed(None) => NetworkNbtView::Unnamed(None),
            NetworkNbt::Unnamed(Some(t)) => NetworkNbtView::Unnamed(Some(nbt_view(*t))),
            NetworkNbt::Named(n) => NetworkNbtView::Named(n.name_view(), n.tag_view()),
        }
    }
}

/// The budget a network read starts with.
pub open spec fn fresh_counter() -> CounterView {
    CounterView { used: 0, max: u64::MAX as nat, depth: 0 }
}

/// Reading network NBT in a protocol version.
pub open spec fn network_nbt_decode(s: Seq<u8>, version: i32) -> Result<(NetworkNbtView, nat), IoError> {
    if s.len() < 1 {
        Err(IoError::UnexpectedEof)
    } else if s[0] == 0 {
        Ok((NetworkNbtView::Unnamed(None), 1))
    } else if version >= R1_20_2 {
        match nbt_decode(s.skip(1), s[0] as i8, fresh_counter()) {
            Err(e) => Err(e),
            Ok((v, n, _)) => Ok((NetworkNbtView::Unnamed(Some(v)), 1 + n)),
        }
    } else {
        match account(fresh_counter(), 28) {
            Err(e) => Err(e),
            Ok(c1) => match java_utf_decode(s.skip(1)) {
                Err(e) => Err(e),
                Ok((name, m)) => match account(c1, 2 * encode_utf8(name).len()) {
                    Err(e) => Err(e),
                    Ok(c2) => match nbt_decode(s.skip((1 + m) as int), s[0] as i8, c2) {
                        Err(e) => Err(e),
                        Ok((v, n, _)) => Ok((NetworkNbtView::Named(name, v), 1 + m + n)),
                    },
                },
            },
        }
    }
}

/// The bytes network NBT is written as.  A named tag is written as its name
/// and payload, without the type id a reader expects first.
pub open spec fn network_nbt_bytes(v: NetworkNbtView) -> Seq<u8> {
    match v {
        NetworkNbtView::Unnamed(Some(t)) => seq![view_id(t) as u8] + nbt_bytes(t),
        NetworkNbtView::Unnamed(None) => seq![0u8],
        NetworkNbtView::Named(name, t) => java_utf_bytes(name) + nbt_bytes(t),
    }
}

/// Reads NBT as a packet of a protocol version carries it.
pub fn read_networking_nbt(src: &mut ByteReader, version: i32) -> (r: Result<NetworkNbt, IoError>)
    ensures
        match network_nbt_decode(old(src).rest(), version) {
            Ok((v, n)) => r matches Ok(nbt) && nbt.view() == v && final(src).rest() == old(src).rest().skip(n as int)
                && n <= old(src).rest().len(),
            Err(e) => r == Err::<NetworkNbt, IoError>(e),
        },
{
    let ghost s = src.rest();
    let mut counter = NbtCounter::unlimited();
    let tag_byte = src.read_u8()?;
    proof { assert(src.rest() =~= s.skip(1)); }
    if tag_byte == 0 {
        return Ok(NetworkNbt::Unnamed(None));
    }
    let tag_type = tag_byte as i8;
    if version >= R1_20_2 {
        let tag = NbtType::read(src, &mut counter, tag_type)?;
        proof {
            let n = nbt_decode(s.skip(1), tag_type, fresh_counter()).unwrap().1;
            assert(src.rest() =~= s.skip((1 + n) as int));
        }
        Ok(NetworkNbt::Unnamed(Some(tag)))
    } else {
        counter.account_bytes(28)?;
        let name = read_java_utf(src)?;
        let ghost m = java_utf_decode(s.skip(1)).unwrap().1;
        let blen = name.as_str().as_bytes().len();
        proof { vstd::utf8::encode_utf8_valid_utf8(name@); }
        if (blen as u64) > u64::MAX / 2 {
            return Err(IoError::InvalidData);
        }
        counter.account_bytes((blen as u64) * 2)?;
        proof { assert(src.rest() =~= s.skip((1 + m) as int)); }
        let ghost c2 = counter.view();
        let tag = NbtType::read(src, &mut counter, tag_type)?;
        proof {
            let n = nbt_decode(s.skip((1 + m) as int), tag_type, c2).unwrap().1;
            assert(src.rest() =~= s.skip((1 + m + n) as int));
        }
        Ok(NetworkNbt::Named(NamedTag { name, tag }))
    }
}

/// Writes NBT as a packet carries it.
pub fn write_networking_nbt(out: &mut Vec<u8>, version: i32, nbt: &NetworkNbt) -> (r: Result<(), IoError>)
    ensures
        r is Ok,
        final(out)@ == old(out)@ + network_nbt_bytes(nbt.view()),
        match nbt.view() {
            NetworkNbtView::Unnamed(Some(v)) => texts_read_back(v),
            NetworkNbtView::Unnamed(None) => true,
            NetworkNbtView::Named(n, v) => java_text_reads_back(n) && texts_read_back(v),
        },
{
    match nbt {
        NetworkNbt::Unnamed(Some(tag)) => {
            write_u8(out, tag.id() as u8);
            let _ = tag.write(out);
        },
        NetworkNbt::Unnamed(None) => {
            write_u8(out, 0);
        },
        NetworkNbt::Named(named) => {
            let _ = write_java_utf(out, named.name.as_str());
            let _ = named.tag.write(out);
        },
    }
    proof { assert(final(out)@ =~= old(out)@ + network_nbt_bytes(nbt.view())); }
    Ok(())
}

// ---------------------------------------------------------------------------
// What a read gives back of a write
// ---------------------------------------------------------------------------

/// Whether a text is written and read back alike: it reads back (as every
/// text does, see `java_text_reads_back`), and its modified UTF-8 form fits
/// the 16-bit length prefix.
pub open spec fn nbt_text_ok(t: Seq<char>) -> bool {
    java_text_reads_back(t) && java_text_bytes(t).len() <= 65535
}

/// Whether every name of a compound occurs once.
pub open spec fn names_distinct(es: Seq<(Seq<char>, NbtView)>) -> bool {
    forall|i: int, j: int| 0 <= i < j < es.len() ==> (#[trigger] es[i]).0 != (#[trigger] es[j]).0
}

/// Whether a value reads back as it is written: texts as above, arrays and
/// lists whose lengths fit an `i32`, list items all of the list's type, and
/// compound names each once.
pub open spec fn nbt_wf(v: NbtView) -> bool
    decreases v, 2nat,
{
    match v {
        NbtView::ByteArray(a) => a.len() <= i32::MAX,
        NbtView::IntArray(a) => a.len() <= i32::MAX,
        NbtView::LongArray(a) => a.len() <= i32::MAX,
        NbtView::Str(t) => nbt_text_ok(t),
        NbtView::List(e, vs) => vs.len() <= i32::MAX && items_wf(vs, e),
        NbtView::Compound(es) => names_distinct(es) && entries_wf(es),
        _ => true,
    }
}

/// Whether list items are all of type `e` and each reads back as written.
pub open spec fn items_wf(vs: Seq<NbtView>, e: i8) -> bool
    decreases vs, 1nat,
{
    if vs.len() == 0 {
        true
    } else {
        view_id(vs[0]) == e && nbt_wf(vs[0]) && items_wf(vs.subrange(1, vs.len() as int), e)
    }
}

/// Whether compound entries have names and values that read back as written.
pub open spec fn entries_wf(es: Seq<(Seq<char>, NbtView)>) -> bool
    decreases es, 1nat,
{
    if es.len() == 0 {
        true
    } else {
        nbt_text_ok(es[0].0) && nbt_wf(es[0].1) && entries_wf(es.subrange(1, es.len() as int))
    }
}

/// Whether a value has the form that reads back, its texts aside: texts
/// whose modified UTF-8 fits the 16-bit length, arrays and lists whose
/// lengths fit an `i32`, list items all of the list's type, and compound
/// names each once.
pub open spec fn nbt_shape_ok(v: NbtView) -> bool
    decreases v, 2nat,
{
    match v {
        NbtView::ByteArray(a) => a.len() <= i32::MAX,
        NbtView::IntArray(a) => a.len() <= i32::MAX,
        NbtView::LongArray(a) => a.len() <= i32::MAX,
        NbtView::Str(t) => java_text_bytes(t).len() <= 65535,
        NbtView::List(e, vs) => vs.len() <= i32::MAX && items_shape_ok(vs, e),
        NbtView::Compound(es) => names_distinct(es) && entries_shape_ok(es),
        _ => true,
    }
}

/// Whether list items are all of type `e` and each has the form that reads
/// back.
pub open spec fn items_shape_ok(vs: Seq<NbtView>, e: i8) -> bool
    decreases vs, 1nat,
{
    if vs.len() == 0 {
        true
    } else {
        view_id(vs[0]) == e && nbt_shape_ok(vs[0]) && items_shape_ok(vs.subrange(1, vs.len() as int), e)
    }
}

/// Whether compound entries have names that fit and values of the form that
/// reads back.
pub open spec fn entries_shape_ok(es: Seq<(Seq<char>, NbtView)>) -> bool
    decreases es, 1nat,
{
    if es.len() == 0 {
        true
    } else {
        java_text_bytes(es[0].0).len() <= 65535 && nbt_shape_ok(es[0].1) && entries_shape_ok(
            es.subrange(1, es.len() as int),
        )
    }
}

/// Whether every text of a value reads back: its strings and the names in
/// its compounds.  `NbtType::write` states it of every value it writes.
pub open spec fn texts_read_back(v: NbtView) -> bool
    decreases v, 2nat,
{
    match v {
        NbtView::Str(t) => java_text_reads_back(t),
        NbtView::List(e, vs) => items_texts_read_back(vs),
        NbtView::Compound(es) => entries_texts_read_back(es),
        _ => true,
    }
}

/// Whether every text of some list items reads back.
pub open spec fn items_texts_read_back(vs: Seq<NbtView>) -> bool
    decreases vs, 1nat,
{
    if vs.len() == 0 {
        true
    } else {
        texts_read_back(vs[0]) && items_texts_read_back(vs.subrange(1, vs.len() as int))
    }
}

/// Whether every name and every text of some compound entries reads back.
pub open spec fn entries_texts_read_back(es: Seq<(Seq<char>, NbtView)>) -> bool
    decreases es, 1nat,
{
    if es.len() == 0 {
        true
    } else {
        java_text_reads_back(es[0].0) && texts_read_back(es[0].1) && entries_texts_read_back(
            es.subrange(1, es.len() as int),
        )
    }
}

/// Items whose texts each read back have texts that read back.
proof fn lemma_items_texts(vs: Seq<NbtView>)
    requires
        forall|i: int| 0 <= i < vs.len() ==> texts_read_back(#[trigger] vs[i]),
    ensures
        items_texts_read_back(vs),
    decreases vs.len(),
{
    if vs.len() > 0 {
        let tail = vs.subrange(1, vs.len() as int);
        assert forall|i: int| 0 <= i < tail.len() implies texts_read_back(#[trigger] tail[i]) by {
            assert(tail[i] == vs[i + 1]);
        }
        lemma_items_texts(tail);
        assert(texts_read_back(vs[0]));
    }
}

/// Entries whose names and texts each read back have texts that read back.
proof fn lemma_entries_texts(es: Seq<(Seq<char>, NbtView)>)
    requires
        forall|i: int|
            0 <= i < es.len() ==> java_text_reads_back((#[trigger] es[i]).0) && texts_read_back(es[i].1),
    ensures
        entries_texts_read_back(es),
    decreases es.len(),
{
    if es.len() > 0 {
        let tail = es.subrange(1, es.len() as int);
        assert forall|i: int| 0 <= i < tail.len() implies java_text_reads_back((#[trigger] tail[i]).0)
            && texts_read_back(tail[i].1) by {
            assert(tail[i] == es[i + 1]);
        }
        lemma_entries_texts(tail);
        assert(java_text_reads_back(es[0].0) && texts_read_back(es[0].1));
    }
}

/// A value of the form that reads back whose texts read back is one that
/// reads back.
proof fn lemma_wf_of_parts(v: NbtView)
    requires
        nbt_shape_ok(v),
        texts_read_back(v),
    ensures
        nbt_wf(v),
    decreases v, 2nat,
{
    match v {
        NbtView::List(e, vs) => lemma_items_wf_of_parts(vs, e),
        NbtView::Compound(es) => lemma_entries_wf_of_parts(es),
        _ => {},
    }
}

proof fn lemma_items_wf_of_parts(vs: Seq<NbtView>, e: i8)
    requires
        items_shape_ok(vs, e),
        items_texts_read_back(vs),
    ensures
        items_wf(vs, e),
    decreases vs, 1nat,
{
    if vs.len() > 0 {
        lemma_wf_of_parts(vs[0]);
        lemma_items_wf_of_parts(vs.subrange(1, vs.len() as int), e);
    }
}

proof fn lemma_entries_wf_of_parts(es: Seq<(Seq<char>, NbtView)>)
    requires
        entries_shape_ok(es),
        entries_texts_read_back(es),
    ensures
        entries_wf(es),
    decreases es, 1nat,
{
    if es.len() > 0 {
        lemma_wf_of_parts(es[0].1);
        lemma_entries_wf_of_parts(es.subrange(1, es.len() as int));
    }
}

/// What reading a value charges the budget.
pub open spec fn nbt_cost(v: NbtView) -> nat
    decreases v, 2nat,
{
    match v {
        NbtView::Byte(_) => 9,
        NbtView::Short(_) => 10,
        NbtView::Int(_) => 12,
        NbtView::Long(_) => 14,
        NbtView::Float(_) => 12,
        NbtView::Double(_) => 14,
        NbtView::ByteArray(a) => 24 + array_charge(a.len() as i32, 1),
        NbtView::IntArray(a) => 24 + array_charge(a.len() as i32, 4),
        NbtView::LongArray(a) => 24 + array_charge(a.len() as i32, 8),
        NbtView::Str(t) => 36 + 2 * encode_utf8(t).len(),
        NbtView::List(_, vs) => 37 + array_charge(vs.len() as i32, 4) + items_cost(vs),
        NbtView::Compound(es) => 48 + entries_cost(es),
    }
}

/// What reading list items charges the budget.
pub open spec fn items_cost(vs: Seq<NbtView>) -> nat
    decreases vs, 1nat,
{
    if vs.len() == 0 {
        0
    } else {
        nbt_cost(vs[0]) + items_cost(vs.subrange(1, vs.len() as int))
    }
}

/// What reading compound entries charges the budget.
pub open spec fn entries_cost(es: Seq<(Seq<char>, NbtView)>) -> nat
    decreases es, 1nat,
{
    if es.len() == 0 {
        0
    } else {
        28 + 2 * encode_utf8(es[0].0).len() + nbt_cost(es[0].1) + 36 + entries_cost(es.subrange(1, es.len() as int))
    }
}

/// How deep lists and compounds nest in a value.
pub open spec fn nbt_depth(v: NbtView) -> nat
    decreases v, 2nat,
{
    match v {
        NbtView::List(_, vs) => 1 + items_depth(vs),
        NbtView::Compound(es) => 1 + entries_depth(es),
        _ => 0,
    }
}

/// How deep the deepest list item nests.
pub open spec fn items_depth(vs: Seq<NbtView>) -> nat
    decreases vs, 1nat,
{
    if vs.len() == 0 {
        0
    } else {
        let a = nbt_depth(vs[0]);
        let b = items_depth(vs.subrange(1, vs.len() as int));
        if a < b {
            b
        } else {
            a
        }
    }
}

/// How deep the deepest compound value nests.
pub open spec fn entries_depth(es: Seq<(Seq<char>, NbtView)>) -> nat
    decreases es, 1nat,
{
    if es.len() == 0 {
        0
    } else {
        let a = nbt_depth(es[0].1);
        let b = entries_depth(es.subrange(1, es.len() as int));
        if a < b {
            b
        } else {
            a
        }
    }
}

/// The budget after charging `b` bytes.
pub open spec fn charged(c: CounterView, b: nat) -> CounterView {
    CounterView { used: c.used + b, max: c.max, depth: c.depth }
}

/// The bytes of one compound entry: type id, name, payload.
pub open spec fn entry_bytes(e: (Seq<char>, NbtView)) -> Seq<u8> {
    seq![view_id(e.1) as u8] + java_utf_bytes(e.0) + nbt_bytes(e.1)
}

proof fn lemma_list_bytes_front(vs: Seq<NbtView>)
    requires
        vs.len() > 0,
    ensures
        list_bytes(vs) == nbt_bytes(vs[0]) + list_bytes(vs.subrange(1, vs.len() as int)),
    decreases vs.len(),
{
    if vs.len() == 1 {
        assert(vs.drop_last() =~= Seq::<NbtView>::empty());
        assert(vs.subrange(1, 1) =~= Seq::<NbtView>::empty());
        assert(list_bytes(vs) =~= nbt_bytes(vs[0]) + list_bytes(vs.subrange(1, vs.len() as int)));
    } else {
        let d = vs.drop_last();
        lemma_list_bytes_front(d);
        let t = vs.subrange(1, vs.len() as int);
        assert(t.drop_last() =~= d.subrange(1, d.len() as int));
        assert(t[t.len() - 1] == vs[vs.len() - 1]);
        assert(list_bytes(vs) =~= nbt_bytes(vs[0]) + list_bytes(t));
    }
}

proof fn lemma_compound_bytes_front(es: Seq<(Seq<char>, NbtView)>)
    requires
        es.len() > 0,
    ensures
        compound_bytes(es) == entry_bytes(es[0]) + compound_bytes(es.subrange(1, es.len() as int)),
    decreases es.len(),
{
    if es.len() == 1 {
        assert(es.drop_last() =~= Seq::<(Seq<char>, NbtView)>::empty());
        assert(es.subrange(1, 1) =~= Seq::<(Seq<char>, NbtView)>::empty());
        assert(compound_bytes(es) =~= entry_bytes(es[0]) + compound_bytes(es.subrange(1, es.len() as int)));
    } else {
        let d = es.drop_last();
        lemma_compound_bytes_front(d);
        let t = es.subrange(1, es.len() as int);
        assert(t.drop_last() =~= d.subrange(1, d.len() as int));
        assert(t[t.len() - 1] == es[es.len() - 1]);
        assert(compound_bytes(es) =~= entry_bytes(es[0]) + compound_bytes(t));
    }
}

proof fn lemma_ints_bytes(a: Seq<i32>)
    ensures
        ints_bytes(a).len() == 4 * a.len(),
        forall|k: int, j: int|
            0 <= k < a.len() && 0 <= j < 4 ==> #[trigger] ints_bytes(a)[4 * k + j] == u32_be(a[k] as u32)[j],
    decreases a.len(),
{
    if a.len() > 0 {
        let d = a.drop_last();
        lemma_ints_bytes(d);
        assert forall|k: int, j: int| 0 <= k < a.len() && 0 <= j < 4 implies #[trigger] ints_bytes(a)[4 * k + j]
            == u32_be(a[k] as u32)[j] by {
            if k < d.len() {
                assert(ints_bytes(d)[4 * k + j] == u32_be(d[k] as u32)[j]);
            }
        }
    }
}

proof fn lemma_longs_bytes(a: Seq<i64>)
    ensures
        longs_bytes(a).len() == 8 * a.len(),
        forall|k: int, j: int|
            0 <= k < a.len() && 0 <= j < 8 ==> #[trigger] longs_bytes(a)[8 * k + j] == u64_be(a[k] as u64)[j],
    decreases a.len(),
{
    if a.len() > 0 {
        let d = a.drop_last();
        lemma_longs_bytes(d);
        assert forall|k: int, j: int| 0 <= k < a.len() && 0 <= j < 8 implies #[trigger] longs_bytes(a)[8 * k + j]
            == u64_be(a[k] as u64)[j] by {
            if k < d.len() {
                assert(longs_bytes(d)[8 * k + j] == u64_be(d[k] as u64)[j]);
            }
        }
    }
}

proof fn lemma_java_utf_read_back(t: Seq<char>, rest: Seq<u8>)
    requires
        nbt_text_ok(t),
    ensures
        java_utf_bytes(t).len() == 2 + java_text_bytes(t).len(),
        java_utf_decode(java_utf_bytes(t) + rest) == Ok::<(Seq<char>, nat), IoError>(
            (t, java_utf_bytes(t).len()),
        ),
{
    let b = java_text_bytes(t);
    let s = java_utf_bytes(t) + rest;
    lemma_u16_be(b.len() as u16);
    assert(s.subrange(2, 2 + b.len() as int) =~= b);
}


proof fn lemma_number_read_back(v: NbtView, rest: Seq<u8>, c: CounterView)
    requires
        v is Byte || v is Short || v is Int || v is Long || v is Float || v is Double,
        c.used + nbt_cost(v) <= c.max,
    ensures
        nbt_bytes(v).len() > 0,
        nbt_decode(nbt_bytes(v) + rest, view_id(v), c) == Ok::<(NbtView, nat, CounterView), IoError>(
            (v, nbt_bytes(v).len(), charged(c, nbt_cost(v))),
        ),
{
    let s = nbt_bytes(v) + rest;
    match v {
        NbtView::Byte(b) => {
            assert((b as u8) as i8 == b) by (bit_vector);
        },
        NbtView::Short(x) => {
            lemma_u16_be(x as u16);
            assert((x as u16) as i16 == x) by (bit_vector);
        },
        NbtView::Int(x) => {
            lemma_u32_be(x as u32);
            assert(u32_of_be(s) == u32_of_be(u32_be(x as u32)));
            assert((x as u32) as i32 == x) by (bit_vector);
        },
        NbtView::Long(x) => {
            lemma_u64_be(x as u64);
            assert(u64_of_be(s) == u64_of_be(u64_be(x as u64)));
            assert((x as u64) as i64 == x) by (bit_vector);
        },
        NbtView::Float(b) => {
            lemma_u32_be(b);
            assert(u32_of_be(s) == u32_of_be(u32_be(b)));
        },
        NbtView::Double(b) => {
            lemma_u64_be(b);
            assert(u64_of_be(s) == u64_of_be(u64_be(b)));
        },
        _ => {},
    }
}

proof fn lemma_length_read_back(n: i32, body: Seq<u8>)
    requires
        n >= 0,
    ensures
        u32_of_be(u32_be(n as u32) + body) as i32 == n,
{
    let s = u32_be(n as u32) + body;
    lemma_u32_be(n as u32);
    assert(u32_of_be(s) == u32_of_be(u32_be(n as u32)));
    assert((n as u32) as i32 == n) by (bit_vector);
}

proof fn lemma_byte_array_read_back(a: Seq<i8>, rest: Seq<u8>, c: CounterView)
    requires
        a.len() <= i32::MAX,
        c.used + nbt_cost(NbtView::ByteArray(a)) <= c.max,
    ensures
        nbt_decode(nbt_bytes(NbtView::ByteArray(a)) + rest, 7, c) == Ok::<(NbtView, nat, CounterView), IoError>(
            (NbtView::ByteArray(a), nbt_bytes(NbtView::ByteArray(a)).len(), charged(c, nbt_cost(NbtView::ByteArray(a)))),
        ),
{
    let v = NbtView::ByteArray(a);
    let s = nbt_bytes(v) + rest;
    let n = a.len() as i32;
    assert(s =~= u32_be(n as u32) + (i8_as_bytes(a) + rest));
    lemma_length_read_back(n, i8_as_bytes(a) + rest);
    let body = s.subrange(4, 4 + a.len() as int);
    assert(body =~= i8_as_bytes(a));
    assert forall|i: int| 0 <= i < a.len() implies (#[trigger] bytes_as_i8(body)[i]) == a[i] by {
        let x = a[i];
        assert((x as u8) as i8 == x) by (bit_vector);
    }
    assert(bytes_as_i8(body) =~= a);
}

proof fn lemma_int_array_read_back(a: Seq<i32>, rest: Seq<u8>, c: CounterView)
    requires
        a.len() <= i32::MAX,
        c.used + nbt_cost(NbtView::IntArray(a)) <= c.max,
    ensures
        nbt_decode(nbt_bytes(NbtView::IntArray(a)) + rest, 11, c) == Ok::<(NbtView, nat, CounterView), IoError>(
            (NbtView::IntArray(a), nbt_bytes(NbtView::IntArray(a)).len(), charged(c, nbt_cost(NbtView::IntArray(a)))),
        ),
{
    let v = NbtView::IntArray(a);
    let s = nbt_bytes(v) + rest;
    let n = a.len() as i32;
    assert(s =~= u32_be(n as u32) + (ints_bytes(a) + rest));
    lemma_length_read_back(n, ints_bytes(a) + rest);
    lemma_ints_bytes(a);
    let got = Seq::new(a.len(), |k: int| u32_of_be(s.skip((4 + 4 * k) as int)) as i32);
    assert forall|k: int| 0 <= k < a.len() implies #[trigger] got[k] == a[k] by {
        let w = s.skip((4 + 4 * k) as int);
        assert(w[0] == ints_bytes(a)[4 * k + 0]);
        assert(w[1] == ints_bytes(a)[4 * k + 1]);
        assert(w[2] == ints_bytes(a)[4 * k + 2]);
        assert(w[3] == ints_bytes(a)[4 * k + 3]);
        lemma_u32_be(a[k] as u32);
        assert(u32_of_be(w) == u32_of_be(u32_be(a[k] as u32)));
        let y = a[k];
        assert((y as u32) as i32 == y) by (bit_vector);
    }
    assert(got =~= a);
}

proof fn lemma_long_array_read_back(a: Seq<i64>, rest: Seq<u8>, c: CounterView)
    requires
        a.len() <= i32::MAX,
        c.used + nbt_cost(NbtView::LongArray(a)) <= c.max,
    ensures
        nbt_decode(nbt_bytes(NbtView::LongArray(a)) + rest, 12, c) == Ok::<(NbtView, nat, CounterView), IoError>(
            (NbtView::LongArray(a), nbt_bytes(NbtView::LongArray(a)).len(), charged(c, nbt_cost(NbtView::LongArray(a)))),
        ),
{
    let v = NbtView::LongArray(a);
    let s = nbt_bytes(v) + rest;
    let n = a.len() as i32;
    assert(s =~= u32_be(n as u32) + (longs_bytes(a) + rest));
    lemma_length_read_back(n, longs_bytes(a) + rest);
    lemma_longs_bytes(a);
    let got = Seq::new(a.len(), |k: int| u64_of_be(s.skip((4 + 8 * k) as int)) as i64);
    assert forall|k: int| 0 <= k < a.len() implies #[trigger] got[k] == a[k] by {
        let w = s.skip((4 + 8 * k) as int);
        assert(w[0] == longs_bytes(a)[8 * k + 0]);
        assert(w[1] == longs_bytes(a)[8 * k + 1]);
        assert(w[2] == longs_bytes(a)[8 * k + 2]);
        assert(w[3] == longs_bytes(a)[8 * k + 3]);
        assert(w[4] == longs_bytes(a)[8 * k + 4]);
        assert(w[5] == longs_bytes(a)[8 * k + 5]);
        assert(w[6] == longs_bytes(a)[8 * k + 6]);
        assert(w[7] == longs_bytes(a)[8 * k + 7]);
        lemma_u64_be(a[k] as u64);
        assert(u64_of_be(w) == u64_of_be(u64_be(a[k] as u64)));
        let y = a[k];
        assert((y as u64) as i64 == y) by (bit_vector);
    }
    assert(got =~= a);
}

proof fn lemma_string_tag_read_back(t: Seq<char>, rest: Seq<u8>, c: CounterView)
    requires
        nbt_text_ok(t),
        c.used + nbt_cost(NbtView::Str(t)) <= c.max,
    ensures
        nbt_decode(nbt_bytes(NbtView::Str(t)) + rest, 8, c) == Ok::<(NbtView, nat, CounterView), IoError>(
            (NbtView::Str(t), nbt_bytes(NbtView::Str(t)).len(), charged(c, nbt_cost(NbtView::Str(t)))),
        ),
{
    lemma_java_utf_read_back(t, rest);
}

proof fn lemma_nbt_read_back(v: NbtView, rest: Seq<u8>, c: CounterView)
    requires
        nbt_wf(v),
        c.used + nbt_cost(v) <= c.max,
        c.depth + nbt_depth(v) <= 512,
    ensures
        nbt_bytes(v).len() > 0,
        nbt_decode(nbt_bytes(v) + rest, view_id(v), c) == Ok::<(NbtView, nat, CounterView), IoError>(
            (v, nbt_bytes(v).len(), charged(c, nbt_cost(v))),
        ),
    decreases v, 3nat,
{
    match v {
        NbtView::ByteArray(a) => lemma_byte_array_read_back(a, rest, c),
        NbtView::IntArray(a) => lemma_int_array_read_back(a, rest, c),
        NbtView::LongArray(a) => lemma_long_array_read_back(a, rest, c),
        NbtView::Str(t) => lemma_string_tag_read_back(t, rest, c),
        NbtView::List(e, vs) => lemma_list_read_back(e, vs, rest, c),
        NbtView::Compound(es) => lemma_compound_read_back(es, rest, c),
        _ => lemma_number_read_back(v, rest, c),
    }
}

proof fn lemma_list_read_back(e: i8, vs: Seq<NbtView>, rest: Seq<u8>, c: CounterView)
    requires
        nbt_wf(NbtView::List(e, vs)),
        c.used + nbt_cost(NbtView::List(e, vs)) <= c.max,
        c.depth + nbt_depth(NbtView::List(e, vs)) <= 512,
    ensures
        nbt_decode(nbt_bytes(NbtView::List(e, vs)) + rest, 9, c) == Ok::<(NbtView, nat, CounterView), IoError>(
            (NbtView::List(e, vs), nbt_bytes(NbtView::List(e, vs)).len(), charged(c, nbt_cost(NbtView::List(e, vs)))),
        ),
    decreases vs, 2nat,
{
    let v = NbtView::List(e, vs);
    let s = nbt_bytes(v) + rest;
    let n = vs.len() as i32;
    assert(s[0] == e as u8);
    assert((e as u8) as i8 == e) by (bit_vector);
    let s1 = s.skip(1);
    assert(s1 =~= u32_be(n as u32) + (list_bytes(vs) + rest));
    lemma_length_read_back(n, list_bytes(vs) + rest);
    if vs.len() > 0 {
        assert(view_id(vs[0]) == e);
    }
    let c1 = CounterView { used: c.used, max: c.max, depth: c.depth + 1 };
    let c3 = charged(charged(c1, 37), array_charge(n, 4));
    assert(s.skip(5) =~= list_bytes(vs) + rest);
    lemma_items_read_back(vs, e, rest, c3);
}

proof fn lemma_compound_read_back(es: Seq<(Seq<char>, NbtView)>, rest: Seq<u8>, c: CounterView)
    requires
        nbt_wf(NbtView::Compound(es)),
        c.used + nbt_cost(NbtView::Compound(es)) <= c.max,
        c.depth + nbt_depth(NbtView::Compound(es)) <= 512,
    ensures
        nbt_decode(nbt_bytes(NbtView::Compound(es)) + rest, 10, c) == Ok::<(NbtView, nat, CounterView), IoError>(
            (
                NbtView::Compound(es),
                nbt_bytes(NbtView::Compound(es)).len(),
                charged(c, nbt_cost(NbtView::Compound(es))),
            ),
        ),
    decreases es, 2nat,
{
    let v = NbtView::Compound(es);
    let s = nbt_bytes(v) + rest;
    let c1 = CounterView { used: c.used, max: c.max, depth: c.depth + 1 };
    let c2 = charged(c1, 48);
    assert(s =~= compound_bytes(es) + seq![0u8] + rest);
    lemma_entries_read_back(es, Seq::empty(), rest, c2);
    assert(Seq::<(Seq<char>, NbtView)>::empty() + es =~= es);
}

proof fn lemma_items_read_back(vs: Seq<NbtView>, e: i8, rest: Seq<u8>, c: CounterView)
    requires
        items_wf(vs, e),
        c.used + items_cost(vs) <= c.max,
        c.depth + items_depth(vs) <= 512,
    ensures
        list_decode(list_bytes(vs) + rest, e, vs.len(), c) == Ok::<(Seq<NbtView>, nat, CounterView), IoError>(
            (vs, list_bytes(vs).len(), charged(c, items_cost(vs))),
        ),
    decreases vs, 1nat,
{
    if vs.len() == 0 {
        assert(charged(c, 0) == c);
        assert(vs =~= Seq::<NbtView>::empty());
    } else {
        let v0 = vs[0];
        let tail = vs.subrange(1, vs.len() as int);
        lemma_list_bytes_front(vs);
        let s = list_bytes(vs) + rest;
        assert(s =~= nbt_bytes(v0) + (list_bytes(tail) + rest));
        lemma_nbt_read_back(v0, list_bytes(tail) + rest, c);
        let n0 = nbt_bytes(v0).len();
        let c1 = charged(c, nbt_cost(v0));
        assert(s.skip(n0 as int) =~= list_bytes(tail) + rest);
        lemma_items_read_back(tail, e, rest, c1);
        assert(seq![v0] + tail =~= vs);
        assert(charged(c1, items_cost(tail)) == charged(c, items_cost(vs)));
    }
}

/// What reading one compound entry charges the budget.
pub open spec fn entry_cost(e: (Seq<char>, NbtView)) -> nat {
    28 + 2 * encode_utf8(e.0).len() + nbt_cost(e.1) + 36
}

proof fn lemma_entry_read_back(
    es: Seq<(Seq<char>, NbtView)>,
    acc: Seq<(Seq<char>, NbtView)>,
    after: Seq<u8>,
    c: CounterView,
)
    requires
        es.len() > 0,
        nbt_text_ok(es[0].0),
        nbt_wf(es[0].1),
        key_index(acc, es[0].0) is None,
        c.used + entry_cost(es[0]) <= c.max,
        c.depth + nbt_depth(es[0].1) <= 512,
    ensures
        entry_bytes(es[0]).len() > 0,
        compound_step(entry_bytes(es[0]) + after, c, acc) == Ok::<
            Option<(Seq<(Seq<char>, NbtView)>, nat, CounterView)>,
            IoError,
        >(Some((acc.push(es[0]), entry_bytes(es[0]).len(), charged(c, entry_cost(es[0]))))),
    decreases es, 0nat,
{
    let e0 = es[0];
    let jb = java_utf_bytes(e0.0);
    let pb = nbt_bytes(e0.1);
    let s = entry_bytes(e0) + after;
    assert(s =~= seq![view_id(e0.1) as u8] + jb + pb + after);
    let id = view_id(e0.1);
    assert(s[0] == id as u8);
    assert((id as u8) as i8 == id && id as u8 != 0) by (bit_vector)
        requires
            1 <= id <= 12,
    ;
    assert(s.skip(1) =~= jb + (pb + after));
    lemma_java_utf_read_back(e0.0, pb + after);
    let m = jb.len();
    let c2 = charged(charged(c, 28), 2 * encode_utf8(e0.0).len());
    assert(s.skip((1 + m) as int) =~= pb + after);
    lemma_nbt_read_back(e0.1, after, c2);
    assert(insert_entry(acc, e0.0, e0.1) == acc.push(e0));
}

#[verifier::rlimit(80)]
proof fn lemma_entries_read_back(
    es: Seq<(Seq<char>, NbtView)>,
    acc: Seq<(Seq<char>, NbtView)>,
    rest: Seq<u8>,
    c: CounterView,
)
    requires
        entries_wf(es),
        names_distinct(es),
        forall|i: int| 0 <= i < es.len() ==> key_index(acc, (#[trigger] es[i]).0) is None,
        c.used + entries_cost(es) <= c.max,
        c.depth + entries_depth(es) <= 512,
    ensures
        compound_decode(compound_bytes(es) + seq![0u8] + rest, c, acc) == Ok::<
            (Seq<(Seq<char>, NbtView)>, nat, CounterView),
            IoError,
        >((acc + es, compound_bytes(es).len() + 1, charged(c, entries_cost(es)))),
    decreases es, 1nat,
{
    let s = compound_bytes(es) + seq![0u8] + rest;
    if es.len() == 0 {
        assert(s[0] == 0);
        assert(acc + es =~= acc);
        assert(charged(c, 0) == c);
    } else {
        let e0 = es[0];
        let tail = es.subrange(1, es.len() as int);
        lemma_compound_bytes_front(es);
        let after = compound_bytes(tail) + seq![0u8] + rest;
        assert(s =~= entry_bytes(e0) + after);
        lemma_entry_read_back(es, acc, after, c);
        let n = entry_bytes(e0).len();
        let c4 = charged(c, entry_cost(e0));
        let acc2 = acc.push(e0);
        assert(s.skip(n as int) =~= after);
        assert(acc2.drop_last() =~= acc);
        assert forall|i: int| 0 <= i < tail.len() implies key_index(acc2, (#[trigger] tail[i]).0) is None by {
            assert(tail[i] == es[i + 1]);
            assert(es[0].0 != es[i + 1].0);
            assert(key_index(acc, es[i + 1].0) is None);
        }
        assert(names_distinct(tail)) by {
            assert forall|i: int, j: int| 0 <= i < j < tail.len() implies (#[trigger] tail[i]).0 != (
            #[trigger] tail[j]).0 by {
                assert(tail[i] == es[i + 1]);
                assert(tail[j] == es[j + 1]);
            }
        }
        lemma_entries_read_back(tail, acc2, rest, c4);
        assert(compound_step(s, c, acc) == Ok::<
            Option<(Seq<(Seq<char>, NbtView)>, nat, CounterView)>,
            IoError,
        >(Some((acc2, n, c4))));
        assert(0 < n <= s.len());
        assert(compound_decode(s, c, acc) == shift(n, compound_decode(s.skip(n as int), c4, acc2)));
        assert(acc2 + tail =~= acc + es);
        assert(n + compound_bytes(tail).len() == compound_bytes(es).len());
        assert(charged(c4, entries_cost(tail)) == charged(c, entries_cost(es)));
    }
}

/// Law: NBT reads back as it is written, whatever follows it, with a fresh
/// budget, when the value has the form that reads back (`nbt_shape_ok`:
/// texts of any characters, NUL and those above U+FFFF included, whose
/// modified UTF-8 fits the 16-bit length), its texts read back (as they do
/// of every value `NbtType::write` writes), the budget covers it and it
/// nests at most 512 levels deep.
pub proof fn law_nbt_roundtrip(v: NbtView, rest: Seq<u8>)
    requires
        nbt_shape_ok(v),
        texts_read_back(v),
        nbt_cost(v) <= u64::MAX,
        nbt_depth(v) <= 512,
    ensures
        nbt_decode(nbt_bytes(v) + rest, view_id(v), fresh_counter()) matches Ok((w, n, _)) && w == v && n
            == nbt_bytes(v).len(),
{
    lemma_wf_of_parts(v);
    lemma_nbt_read_back(v, rest, fresh_counter());
}

/// Law: network NBT without a name reads back as it is written, whatever
/// follows it: the empty tag in every version, and a tag in the versions
/// that send tags without a name (on the terms of `law_nbt_roundtrip`;
/// `write_networking_nbt` states that the texts it writes read back).
pub proof fn law_network_nbt_roundtrip(t: Option<NbtView>, version: i32, rest: Seq<u8>)
    requires
        t matches Some(v) ==> version >= R1_20_2 && nbt_shape_ok(v) && texts_read_back(v) && nbt_cost(v)
            <= u64::MAX && nbt_depth(v) <= 512,
    ensures
        network_nbt_decode(network_nbt_bytes(NetworkNbtView::Unnamed(t)) + rest, version) == Ok::<
            (NetworkNbtView, nat),
            IoError,
        >((NetworkNbtView::Unnamed(t), network_nbt_bytes(NetworkNbtView::Unnamed(t)).len())),
{
    let s = network_nbt_bytes(NetworkNbtView::Unnamed(t)) + rest;
    match t {
        Some(v) => {
            let id = view_id(v);
            assert((id as u8) as i8 == id && id as u8 != 0);
            assert(s.skip(1) =~= nbt_bytes(v) + rest);
            lemma_wf_of_parts(v);
            lemma_nbt_read_back(v, rest, fresh_counter());
        },
        None => {},
    }
}



/// A number's network form: its type id, then its payload; reading it gives
/// the number back.
proof fn lemma_number_network(v: NbtView, version: i32, rest: Seq<u8>)
    requires
        v is Byte || v is Short || v is Int || v is Long || v is Float || v is Double,
        version >= R1_20_2,
    ensures
        network_nbt_bytes(NetworkNbtView::Unnamed(Some(v))) == seq![view_id(v) as u8] + nbt_bytes(v),
        network_nbt_decode(seq![view_id(v) as u8] + nbt_bytes(v) + rest, version) == Ok::<
            (NetworkNbtView, nat),
            IoError,
        >((NetworkNbtView::Unnamed(Some(v)), 1 + nbt_bytes(v).len())),
{
    let id = view_id(v);
    assert((id as u8) as i8 == id && id as u8 != 0);
    let s = seq![id as u8] + nbt_bytes(v) + rest;
    assert(s.skip(1) =~= nbt_bytes(v) + rest);
    lemma_number_read_back(v, rest, fresh_counter());
}

/// A number whose type id is `id` and whose payload is `payload` travels as
/// `id` then `payload`, and reads back.
proof fn lemma_number_form(v: NbtView, id: u8, payload: Seq<u8>, version: i32, rest: Seq<u8>)
    requires
        v is Byte || v is Short || v is Int || v is Long || v is Float || v is Double,
        version >= R1_20_2,
        view_id(v) == id as i8,
        1 <= id <= 6,
        nbt_bytes(v) == payload,
    ensures
        network_nbt_bytes(NetworkNbtView::Unnamed(Some(v))) == seq![id] + payload,
        network_nbt_decode(seq![id] + payload + rest, version) == Ok::<(NetworkNbtView, nat), IoError>(
            (NetworkNbtView::Unnamed(Some(v)), 1 + payload.len()),
        ),
{
    assert((id as i8) as u8 == id);
    lemma_number_network(v, version, rest);
}

/// Law: each tag type travels under its NBT type id: byte 1, short 2,
/// int 3, long 4, float 5, double 6, byte array 7, string 8, list 9,
/// compound 10, int array 11, long array 12.  The network form of a number
/// is its id, then its big-endian payload, and reading that form gives the
/// number back as a tag of the same type.
#[verifier::rlimit(50)]
pub proof fn law_nbt_type_ids(
    b: i8,
    sh: i16,
    i: i32,
    l: i64,
    f: u32,
    d: u64,
    bytes: Seq<i8>,
    t: Seq<char>,
    e: i8,
    vs: Seq<NbtView>,
    es: Seq<(Seq<char>, NbtView)>,
    ints: Seq<i32>,
    longs: Seq<i64>,
    version: i32,
    rest: Seq<u8>,
)
    requires
        version >= R1_20_2,
    ensures
        network_nbt_bytes(NetworkNbtView::Unnamed(Some(NbtView::Byte(b)))) == seq![1u8, b as u8],
        network_nbt_bytes(NetworkNbtView::Unnamed(Some(NbtView::Short(sh)))) == seq![2u8] + u16_be(sh as u16),
        network_nbt_bytes(NetworkNbtView::Unnamed(Some(NbtView::Int(i)))) == seq![3u8] + u32_be(i as u32),
        network_nbt_bytes(NetworkNbtView::Unnamed(Some(NbtView::Long(l)))) == seq![4u8] + u64_be(l as u64),
        network_nbt_bytes(NetworkNbtView::Unnamed(Some(NbtView::Float(f)))) == seq![5u8] + u32_be(f),
        network_nbt_bytes(NetworkNbtView::Unnamed(Some(NbtView::Double(d)))) == seq![6u8] + u64_be(d),
        network_nbt_decode(seq![1u8, b as u8] + rest, version) == Ok::<(NetworkNbtView, nat), IoError>(
            (NetworkNbtView::Unnamed(Some(NbtView::Byte(b))), 2),
        ),
        network_nbt_decode(seq![2u8] + u16_be(sh as u16) + rest, version) == Ok::<(NetworkNbtView, nat), IoError>(
            (NetworkNbtView::Unnamed(Some(NbtView::Short(sh))), 1 + u16_be(sh as u16).len()),
        ),
        network_nbt_decode(seq![3u8] + u32_be(i as u32) + rest, version) == Ok::<(NetworkNbtView, nat), IoError>(
            (NetworkNbtView::Unnamed(Some(NbtView::Int(i))), 1 + u32_be(i as u32).len()),
        ),
        network_nbt_decode(seq![4u8] + u64_be(l as u64) + rest, version) == Ok::<(NetworkNbtView, nat), IoError>(
            (NetworkNbtView::Unnamed(Some(NbtView::Long(l))), 1 + u64_be(l as u64).len()),
        ),
        network_nbt_decode(seq![5u8] + u32_be(f) + rest, version) == Ok::<(NetworkNbtView, nat), IoError>(
            (NetworkNbtView::Unnamed(Some(NbtView::Float(f))), 1 + u32_be(f).len()),
        ),
        network_nbt_decode(seq![6u8] + u64_be(d) + rest, version) == Ok::<(NetworkNbtView, nat), IoError>(
            (NetworkNbtView::Unnamed(Some(NbtView::Double(d))), 1 + u64_be(d).len()),
        ),
        view_id(NbtView::ByteArray(bytes)) == 7,
        view_id(NbtView::Str(t)) == 8,
        view_id(NbtView::List(e, vs)) == 9,
        view_id(NbtView::Compound(es)) == 10,
        view_id(NbtView::IntArray(ints)) == 11,
        view_id(NbtView::LongArray(longs)) == 12,
{
    lemma_number_form(NbtView::Byte(b), 1, seq![b as u8], version, rest);
    assert(seq![1u8] + seq![b as u8] =~= seq![1u8, b as u8]);
    lemma_number_form(NbtView::Short(sh), 2, u16_be(sh as u16), version, rest);
    lemma_number_form(NbtView::Int(i), 3, u32_be(i as u32), version, rest);
    lemma_number_form(NbtView::Long(l), 4, u64_be(l as u64), version, rest);
    lemma_number_form(NbtView::Float(f), 5, u32_be(f), version, rest);
    lemma_number_form(NbtView::Double(d), 6, u64_be(d), version, rest);
}

} // verus!
