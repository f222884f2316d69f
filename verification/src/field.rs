//! Typed fields: the type tags, their byte widths, and the big-endian
//! encoding of field values.

use crate::status::DecodeError;
use vstd::prelude::*;
use vstd::utf8::*;

verus! {

/// The type of one field of a reading, as a type tag names it.
#[derive(Debug, PartialEq, Eq, Clone, Copy, Structural)]
pub enum DataType {
    U8,
    I8,
    U16,
    I16,
    U32,
    I32,
    F32,
}

/// One decoded field.
#[derive(Debug, PartialEq, Eq, Clone, Copy, Structural)]
pub enum FieldValue {
    U8(u8),
    I8(i8),
    U16(u16),
    I16(i16),
    U32(u32),
    I32(i32),
    /// A 32-bit float, held as its IEEE 754 bit pattern.
    F32(u32),
}

/// The number that two bytes write, the more significant byte first.
pub open spec fn be16(b0: u8, b1: u8) -> int {
    b0 * 256 + b1
}

/// The number that four bytes write, the most significant byte first.
pub open spec fn be32(b0: u8, b1: u8, b2: u8, b3: u8) -> int {
    ((b0 * 256 + b1) * 256 + b2) * 256 + b3
}

/// The signed number that a bit pattern stands for in two's complement,
/// where `modulus` is two to the number of bits.
pub open spec fn twos_complement(pattern: int, modulus: int) -> int {
    if 2 * pattern >= modulus {
        pattern - modulus
    } else {
        pattern
    }
}

/// The bit pattern that stands for a signed number in two's complement,
/// where `modulus` is two to the number of bits.
pub open spec fn bit_pattern(value: int, modulus: int) -> int {
    if value < 0 {
        value + modulus
    } else {
        value
    }
}

impl DataType {
    /// The tag that names this type in a type list.
    pub open spec fn name(self) -> Seq<char> {
        match self {
            DataType::U8 => seq!['u', '8'],
            DataType::I8 => seq!['i', '8'],
            DataType::U16 => seq!['u', '1', '6'],
            DataType::I16 => seq!['i', '1', '6'],
            DataType::U32 => seq!['u', '3', '2'],
            DataType::I32 => seq!['i', '3', '2'],
            DataType::F32 => seq!['f', '3', '2'],
        }
    }

    /// The number of bytes that a field of this type takes.
    pub open spec fn width(self) -> nat {
        match self {
            DataType::U8 | DataType::I8 => 1,
            DataType::U16 | DataType::I16 => 2,
            DataType::U32 | DataType::I32 | DataType::F32 => 4,
        }
    }

    /// The type that a tag names, if it names one.
    pub open spec fn named(name: Seq<char>) -> Option<DataType> {
        if name == DataType::U8.name() {
            Some(DataType::U8)
        } else if name == DataType::I8.name() {
            Some(DataType::I8)
        } else if name == DataType::U16.name() {
            Some(DataType::U16)
        } else if name == DataType::I16.name() {
            Some(DataType::I16)
        } else if name == DataType::U32.name() {
            Some(DataType::U32)
        } else if name == DataType::I32.name() {
            Some(DataType::I32)
        } else if name == DataType::F32.name() {
            Some(DataType::F32)
        } else {
            None
        }
    }

    /// The type whose tag a token encodes in UTF-8, if it encodes one.
    pub open spec fn tagged(token: Seq<u8>) -> Option<DataType> {
        if token == encode_utf8(DataType::U8.name()) {
            Some(DataType::U8)
        } else if token == encode_utf8(DataType::I8.name()) {
            Some(DataType::I8)
        } else if token == encode_utf8(DataType::U16.name()) {
            Some(DataType::U16)
        } else if token == encode_utf8(DataType::I16.name()) {
            Some(DataType::I16)
        } else if token == encode_utf8(DataType::U32.name()) {
            Some(DataType::U32)
        } else if token == encode_utf8(DataType::I32.name()) {
            Some(DataType::I32)
        } else if token == encode_utf8(DataType::F32.name()) {
            Some(DataType::F32)
        } else {
            None
        }
    }

    /// The bytes of each tag: its characters in ASCII.
    pub proof fn lemma_tag_bytes()
        ensures
            encode_utf8(DataType::U8.name()) == seq![0x75u8, 0x38u8],
            encode_utf8(DataType::I8.name()) == seq![0x69u8, 0x38u8],
            encode_utf8(DataType::U16.name()) == seq![0x75u8, 0x31u8, 0x36u8],
            encode_utf8(DataType::I16.name()) == seq![0x69u8, 0x31u8, 0x36u8],
            encode_utf8(DataType::U32.name()) == seq![0x75u8, 0x33u8, 0x32u8],
            encode_utf8(DataType::I32.name()) == seq![0x69u8, 0x33u8, 0x32u8],
            encode_utf8(DataType::F32.name()) == seq![0x66u8, 0x33u8, 0x32u8],
    {
        is_ascii_chars_encode_utf8(DataType::U8.name());
        is_ascii_chars_encode_utf8(DataType::I8.name());
        is_ascii_chars_encode_utf8(DataType::U16.name());
        is_ascii_chars_encode_utf8(DataType::I16.name());
        is_ascii_chars_encode_utf8(DataType::U32.name());
        is_ascii_chars_encode_utf8(DataType::I32.name());
        is_ascii_chars_encode_utf8(DataType::F32.name());
        assert(encode_utf8(DataType::U8.name()) =~= seq![0x75u8, 0x38u8]);
        assert(encode_utf8(DataType::I8.name()) =~= seq![0x69u8, 0x38u8]);
        assert(encode_utf8(DataType::U16.name()) =~= seq![0x75u8, 0x31u8, 0x36u8]);
        assert(encode_utf8(DataType::I16.name()) =~= seq![0x69u8, 0x31u8, 0x36u8]);
        assert(encode_utf8(DataType::U32.name()) =~= seq![0x75u8, 0x33u8, 0x32u8]);
        assert(encode_utf8(DataType::I32.name()) =~= seq![0x69u8, 0x33u8, 0x32u8]);
        assert(encode_utf8(DataType::F32.name()) =~= seq![0x66u8, 0x33u8, 0x32u8]);
    }

    /// No two types share a tag: each type is the one that its tag names.
    pub proof fn lemma_named_name(tag: DataType)
        ensures
            DataType::named(tag.name()) == Some(tag),
    {
        assert(DataType::U8.name()[0] == 'u' && DataType::U8.name().len() == 2);
        assert(DataType::I8.name()[0] == 'i' && DataType::I8.name().len() == 2);
        assert(DataType::U16.name()[0] == 'u' && DataType::U16.name()[1] == '1');
        assert(DataType::I16.name()[0] == 'i' && DataType::I16.name()[1] == '1');
        assert(DataType::U32.name()[0] == 'u' && DataType::U32.name()[1] == '3');
        assert(DataType::I32.name()[0] == 'i' && DataType::I32.name()[1] == '3');
        assert(DataType::F32.name()[0] == 'f' && DataType::F32.name().len() == 3);
    }

    /// A string names a type exactly when its UTF-8 bytes are that type's tag.
    pub proof fn lemma_tagged_encoding(name: Seq<char>)
        ensures
            DataType::tagged(encode_utf8(name)) == DataType::named(name),
    {
        encode_utf8_decode_utf8(name);
        encode_utf8_decode_utf8(DataType::U8.name());
        encode_utf8_decode_utf8(DataType::I8.name());
        encode_utf8_decode_utf8(DataType::U16.name());
        encode_utf8_decode_utf8(DataType::I16.name());
        encode_utf8_decode_utf8(DataType::U32.name());
        encode_utf8_decode_utf8(DataType::I32.name());
        encode_utf8_decode_utf8(DataType::F32.name());
    }

    /// The number of bytes that a field of this type takes.
    pub fn size(&self) -> (n: usize)
        ensures
            n == self.width(),
    {
        match self {
            DataType::U8 | DataType::I8 => 1,
            DataType::U16 | DataType::I16 => 2,
            DataType::U32 | DataType::I32 | DataType::F32 => 4,
        }
    }

    /// Reads a type tag from the bytes of a token.
    pub fn parse(token: &[u8]) -> (tag: Option<DataType>)
        ensures
            tag == DataType::tagged(token@),
    {
        proof {
            DataType::lemma_tag_bytes();
        }
        let n = token.len();
        if n == 2 && token[1] == 0x38 {
            if token[0] == 0x75 {
                assert(token@ =~= seq![0x75u8, 0x38u8]);
                Some(DataType::U8)
            } else if token[0] == 0x69 {
                assert(token@ =~= seq![0x69u8, 0x38u8]);
                Some(DataType::I8)
            } else {
                assert(token@[0] != 0x75u8 && token@[0] != 0x69u8);
                None
            }
        } else if n == 3 && token[1] == 0x31 && token[2] == 0x36 {
            if token[0] == 0x75 {
                assert(token@ =~= seq![0x75u8, 0x31u8, 0x36u8]);
                Some(DataType::U16)
            } else if token[0] == 0x69 {
                assert(token@ =~= seq![0x69u8, 0x31u8, 0x36u8]);
                Some(DataType::I16)
            } else {
                assert(token@[0] != 0x75u8 && token@[0] != 0x69u8 && token@[1] != 0x33u8);
                None
            }
        } else if n == 3 && token[1] == 0x33 && token[2] == 0x32 {
            if token[0] == 0x75 {
                assert(token@ =~= seq![0x75u8, 0x33u8, 0x32u8]);
                Some(DataType::U32)
            } else if token[0] == 0x69 {
                assert(token@ =~= seq![0x69u8, 0x33u8, 0x32u8]);
                Some(DataType::I32)
            } else if token[0] == 0x66 {
                assert(token@ =~= seq![0x66u8, 0x33u8, 0x32u8]);
                Some(DataType::F32)
            } else {
                assert(token@[0] != 0x75u8 && token@[0] != 0x69u8 && token@[0] != 0x66u8
                    && token@[1] != 0x31u8);
                None
            }
        } else {
            assert(n == 2 ==> token@[1] != 0x38u8);
            assert(n == 3 ==> (token@[1] != 0x31u8 || token@[2] != 0x36u8) && (token@[1] != 0x33u8
                || token@[2] != 0x32u8));
            None
        }
    }

    /// Reads a type tag from its name.
    pub fn of_name(name: &str) -> (tag: Option<DataType>)
        ensures
            tag == DataType::named(name@),
    {
        proof {
            DataType::lemma_tagged_encoding(name@);
        }
        DataType::parse(name.as_bytes())
    }
}

impl FieldValue {
    /// The type of this value.
    pub open spec fn data_type(self) -> DataType {
        match self {
            FieldValue::U8(_) => DataType::U8,
            FieldValue::I8(_) => DataType::I8,
            FieldValue::U16(_) => DataType::U16,
            FieldValue::I16(_) => DataType::I16,
            FieldValue::U32(_) => DataType::U32,
            FieldValue::I32(_) => DataType::I32,
            FieldValue::F32(_) => DataType::F32,
        }
    }

    /// The bit pattern of this value, as an unsigned number.
    pub open spec fn pattern(self) -> int {
        match self {
            FieldValue::U8(v) => v as int,
            FieldValue::I8(v) => bit_pattern(v as int, 0x100),
            FieldValue::U16(v) => v as int,
            FieldValue::I16(v) => bit_pattern(v as int, 0x1_0000),
            FieldValue::U32(v) => v as int,
            FieldValue::I32(v) => bit_pattern(v as int, 0x1_0000_0000),
            FieldValue::F32(bits) => bits as int,
        }
    }

    /// The bytes that encode this value: its bit pattern, the most
    /// significant byte first.
    pub open spec fn encoding(self) -> Seq<u8> {
        let p = self.pattern();
        let w = self.data_type().width();
        if w == 1 {
            seq![p as u8]
        } else if w == 2 {
            seq![(p / 0x100) as u8, (p % 0x100) as u8]
        } else {
            seq![
                (p / 0x100_0000) as u8,
                (p / 0x1_0000 % 0x100) as u8,
                (p / 0x100 % 0x100) as u8,
                (p % 0x100) as u8,
            ]
        }
    }

    /// The value of type `tag` that `bytes` encode, for `bytes` of that
    /// type's width.
    pub open spec fn decoding(tag: DataType, bytes: Seq<u8>) -> FieldValue
        recommends
            bytes.len() == tag.width(),
    {
        match tag {
            DataType::U8 => FieldValue::U8(bytes[0]),
            DataType::I8 => FieldValue::I8(twos_complement(bytes[0] as int, 0x100) as i8),
            DataType::U16 => FieldValue::U16(be16(bytes[0], bytes[1]) as u16),
            DataType::I16 => FieldValue::I16(
                twos_complement(be16(bytes[0], bytes[1]), 0x1_0000) as i16,
            ),
            DataType::U32 => FieldValue::U32(be32(bytes[0], bytes[1], bytes[2], bytes[3]) as u32),
            DataType::I32 => FieldValue::I32(
                twos_complement(be32(bytes[0], bytes[1], bytes[2], bytes[3]), 0x1_0000_0000) as i32,
            ),
            DataType::F32 => FieldValue::F32(be32(bytes[0], bytes[1], bytes[2], bytes[3]) as u32),
        }
    }

    /// Decoding undoes encoding: a value's bytes have the width of its type
    /// and decode to the value.
    pub proof fn lemma_decoding_encoding(value: FieldValue)
        ensures
            value.encoding().len() == value.data_type().width(),
            FieldValue::decoding(value.data_type(), value.encoding()) == value,
    {
    }

    /// Encoding undoes decoding: bytes of a type's width are the encoding of
    /// the value they decode to, so no two buffers decode to one value.
    pub proof fn lemma_encoding_decoding(tag: DataType, bytes: Seq<u8>)
        requires
            bytes.len() == tag.width(),
        ensures
            FieldValue::decoding(tag, bytes).data_type() == tag,
            FieldValue::decoding(tag, bytes).encoding() == bytes,
    {
        assert(FieldValue::decoding(tag, bytes).encoding() =~= bytes);
    }

    /// The type of this value.
    pub fn kind(&self) -> (tag: DataType)
        ensures
            tag == self.data_type(),
    {
        match self {
            FieldValue::U8(_) => DataType::U8,
            FieldValue::I8(_) => DataType::I8,
            FieldValue::U16(_) => DataType::U16,
            FieldValue::I16(_) => DataType::I16,
            FieldValue::U32(_) => DataType::U32,
            FieldValue::I32(_) => DataType::I32,
            FieldValue::F32(_) => DataType::F32,
        }
    }

    /// Appends the encoding of this value to `out`.
    pub fn write_to(&self, out: &mut Vec<u8>)
        ensures
            final(out)@ == old(out)@ + self.encoding(),
    {
        let ghost before = out@;
        match self {
            FieldValue::U8(v) => {
                out.push(*v);
            },
            FieldValue::I8(v) => {
                let p: i16 = if *v < 0 {
                    *v as i16 + 0x100
                } else {
                    *v as i16
                };
                out.push(p as u8);
            },
            FieldValue::U16(v) => {
                push_u16(out, *v);
            },
            FieldValue::I16(v) => {
                let p: i32 = if *v < 0 {
                    *v as i32 + 0x1_0000
                } else {
                    *v as i32
                };
                push_u16(out, p as u16);
            },
            FieldValue::U32(v) => {
                push_u32(out, *v);
            },
            FieldValue::I32(v) => {
                let p: i64 = if *v < 0 {
                    *v as i64 + 0x1_0000_0000
                } else {
                    *v as i64
                };
                push_u32(out, p as u32);
            },
            FieldValue::F32(bits) => {
                push_u32(out, *bits);
            },
        }
        assert(out@ =~= before + self.encoding());
    }
}

/// Appends a 16-bit number, the more significant byte first.
fn push_u16(out: &mut Vec<u8>, v: u16)
    ensures
        final(out)@ == old(out)@ + seq![(v / 0x100) as u8, (v % 0x100) as u8],
{
    let ghost before = out@;
    out.push((v / 0x100) as u8);
    out.push((v % 0x100) as u8);
    assert(out@ =~= before + seq![(v / 0x100) as u8, (v % 0x100) as u8]);
}

/// Appends a 32-bit number, the most significant byte first.
fn push_u32(out: &mut Vec<u8>, v: u32)
    ensures
        final(out)@ == old(out)@ + seq![
            (v / 0x100_0000) as u8,
            (v / 0x1_0000 % 0x100) as u8,
            (v / 0x100 % 0x100) as u8,
            (v % 0x100) as u8,
        ],
{
    let ghost before = out@;
    out.push((v / 0x100_0000) as u8);
    out.push((v / 0x1_0000 % 0x100) as u8);
    out.push((v / 0x100 % 0x100) as u8);
    out.push((v % 0x100) as u8);
    assert(out@ =~= before + seq![
        (v / 0x100_0000) as u8,
        (v / 0x1_0000 % 0x100) as u8,
        (v / 0x100 % 0x100) as u8,
        (v % 0x100) as u8,
    ]);
}

/// Reads an unsigned 16-bit number, the more significant byte first.
pub fn bytes_to_u16(b: &Vec<u8>, start: usize) -> (v: u16)
    requires
        start + 2 <= b.len(),
    ensures
        v == be16(b[start as int], b[start + 1]),
{
    b[start] as u16 * 256 + b[start + 1] as u16
}

/// Reads a signed 16-bit number in two's complement, the more significant
/// byte first.
pub fn bytes_to_i16(b: &Vec<u8>, start: usize) -> (v: i16)
    requires
        start + 2 <= b.len(),
    ensures
        v == twos_complement(be16(b[start as int], b[start + 1]), 0x1_0000),
{
    let p = bytes_to_u16(b, start);
    if p >= 0x8000 {
        (p as i32 - 0x1_0000) as i16
    } else {
        p as i16
    }
}

/// Reads an unsigned 32-bit number, the most significant byte first.
pub fn bytes_to_u32(b: &Vec<u8>, start: usize) -> (v: u32)
    requires
        start + 4 <= b.len(),
    ensures
        v == be32(b[start as int], b[start + 1], b[start + 2], b[start + 3]),
{
    ((b[start] as u32 * 256 + b[start + 1] as u32) * 256 + b[start + 2] as u32) * 256 + b[start
        + 3] as u32
}

/// Reads a signed 32-bit number in two's complement, the most significant
/// byte first.
pub fn bytes_to_i32(b: &Vec<u8>, start: usize) -> (v: i32)
    requires
        start + 4 <= b.len(),
    ensures
        v == twos_complement(
            be32(b[start as int], b[start + 1], b[start + 2], b[start + 3]),
            0x1_0000_0000,
        ),
{
    let p = bytes_to_u32(b, start);
    if p >= 0x8000_0000 {
        (p as i64 - 0x1_0000_0000) as i32
    } else {
        p as i32
    }
}

/// Reads the field of type `tag` that starts at `start`.
pub fn read_field(tag: DataType, b: &Vec<u8>, start: usize) -> (value: FieldValue)
    requires
        start + tag.width() <= b.len(),
    ensures
        value == FieldValue::decoding(tag, b@.subrange(start as int, start + tag.width())),
{
    match tag {
        DataType::U8 => FieldValue::U8(b[start]),
        DataType::I8 => {
            let p = b[start];
            if p >= 0x80 {
                FieldValue::I8((p as i16 - 0x100) as i8)
            } else {
                FieldValue::I8(p as i8)
            }
        },
        DataType::U16 => FieldValue::U16(bytes_to_u16(b, start)),
        DataType::I16 => FieldValue::I16(bytes_to_i16(b, start)),
        DataType::U32 => FieldValue::U32(bytes_to_u32(b, start)),
        DataType::I32 => FieldValue::I32(bytes_to_i32(b, start)),
        DataType::F32 => FieldValue::F32(bytes_to_u32(b, start)),
    }
}

/// What decoding yields once `done` has been read and `rest` is the outcome
/// for what follows.
pub open spec fn prefixed(done: Seq<FieldValue>, rest: Result<Seq<FieldValue>, DecodeError>) -> Result<
    Seq<FieldValue>,
    DecodeError,
> {
    match rest {
        Ok(more) => Ok(done + more),
        Err(e) => Err(e),
    }
}

/// The values that `raw` holds under the type tags `formats`, read in order
/// from the start of `raw`, each field right behind the one before it.
///
/// The first field that cannot be read decides the error: a tag that names
/// no type gives `UnknownTypeTag`, a field that would end behind the last
/// byte gives `BufferUnderrun`. Bytes left over behind the last field give
/// `FieldCountMismatch`.
pub open spec fn fields_of(formats: Seq<Seq<char>>, raw: Seq<u8>) -> Result<
    Seq<FieldValue>,
    DecodeError,
>
    decreases formats.len(),
{
    if formats.len() == 0 {
        if raw.len() == 0 {
            Ok(Seq::empty())
        } else {
            Err(DecodeError::FieldCountMismatch)
        }
    } else {
        match DataType::named(formats[0]) {
            None => Err(DecodeError::UnknownTypeTag),
            Some(tag) => if raw.len() < tag.width() {
                Err(DecodeError::BufferUnderrun)
            } else {
                prefixed(
                    seq![FieldValue::decoding(tag, raw.take(tag.width() as int))],
                    fields_of(formats.drop_first(), raw.skip(tag.width() as int)),
                )
            },
        }
    }
}

/// The bytes that hold the given values in order.
pub open spec fn encoding_of(values: Seq<FieldValue>) -> Seq<u8>
    decreases values.len(),
{
    if values.len() == 0 {
        Seq::empty()
    } else {
        values[0].encoding() + encoding_of(values.drop_first())
    }
}

/// The type tags of the given values in order.
pub open spec fn formats_of(values: Seq<FieldValue>) -> Seq<Seq<char>> {
    Seq::new(values.len(), |i: int| values[i].data_type().name())
}

/// The number of bytes that fields of the given tags take together, where a
/// tag that names no type counts for nothing.
pub open spec fn total_width(formats: Seq<Seq<char>>) -> nat
    decreases formats.len(),
{
    if formats.len() == 0 {
        0
    } else {
        (match DataType::named(formats[0]) {
            Some(tag) => tag.width(),
            None => 0,
        }) + total_width(formats.drop_first())
    }
}

/// Round trip: the bytes that encode a sequence of values decode, under the
/// values' own type tags, to exactly those values.
pub proof fn lemma_fields_round_trip(values: Seq<FieldValue>)
    ensures
        fields_of(formats_of(values), encoding_of(values)) == Ok::<Seq<FieldValue>, DecodeError>(
            values,
        ),
    decreases values.len(),
{
    if values.len() == 0 {
        assert(values =~= Seq::<FieldValue>::empty());
    } else {
        let head = values[0];
        let tail = values.drop_first();
        let tag = head.data_type();
        let w = tag.width() as int;
        let raw = encoding_of(values);
        DataType::lemma_named_name(tag);
        FieldValue::lemma_decoding_encoding(head);
        lemma_fields_round_trip(tail);
        assert(formats_of(values)[0] == tag.name());
        assert(formats_of(values).drop_first() =~= formats_of(tail));
        assert(raw.take(w) =~= head.encoding());
        assert(raw.skip(w) =~= encoding_of(tail));
        assert(seq![head] + tail =~= values);
    }
}

/// Decoding succeeds exactly on buffers of the length that the type tags
/// ask for, and then yields one value per tag. A shorter buffer is an
/// underrun, a longer one a count mismatch.
pub proof fn lemma_fields_length(formats: Seq<Seq<char>>, raw: Seq<u8>)
    requires
        forall|i: int| 0 <= i < formats.len() ==> DataType::named(#[trigger] formats[i]) is Some,
    ensures
        raw.len() < total_width(formats) ==> fields_of(formats, raw) == Err::<
            Seq<FieldValue>,
            DecodeError,
        >(DecodeError::BufferUnderrun),
        raw.len() > total_width(formats) ==> fields_of(formats, raw) == Err::<
            Seq<FieldValue>,
            DecodeError,
        >(DecodeError::FieldCountMismatch),
        raw.len() == total_width(formats) ==> fields_of(formats, raw) is Ok && fields_of(
            formats,
            raw,
        )->Ok_0.len() == formats.len(),
    decreases formats.len(),
{
    if formats.len() > 0 {
        let tag = DataType::named(formats[0])->Some_0;
        let tail = formats.drop_first();
        assert forall|i: int| 0 <= i < tail.len() implies DataType::named(#[trigger] tail[i])
            is Some by {
            assert(tail[i] == formats[i + 1]);
        }
        if raw.len() >= tag.width() {
            lemma_fields_length(tail, raw.skip(tag.width() as int));
        }
    }
}

/// Each decoded value has the type that its tag names.
pub proof fn lemma_fields_types(formats: Seq<Seq<char>>, raw: Seq<u8>)
    requires
        fields_of(formats, raw) is Ok,
    ensures
        fields_of(formats, raw)->Ok_0.len() == formats.len(),
        forall|i: int|
            0 <= i < formats.len() ==> DataType::named(#[trigger] formats[i]) == Some(
                fields_of(formats, raw)->Ok_0[i].data_type(),
            ),
    decreases formats.len(),
{
    if formats.len() > 0 {
        let tag = DataType::named(formats[0])->Some_0;
        let tail = formats.drop_first();
        let w = tag.width() as int;
        lemma_fields_types(tail, raw.skip(w));
        FieldValue::lemma_encoding_decoding(tag, raw.take(w));
        let values = fields_of(formats, raw)->Ok_0;
        let more = fields_of(tail, raw.skip(w))->Ok_0;
        assert forall|i: int| 0 <= i < formats.len() implies DataType::named(
            #[trigger] formats[i],
        ) == Some(values[i].data_type()) by {
            if i > 0 {
                assert(formats[i] == tail[i - 1]);
                assert(values[i] == more[i - 1]);
            }
        }
    }
}

/// Reading one more field extends what has been read.
proof fn lemma_fields_step(formats: Seq<Seq<char>>, raw: Seq<u8>, i: int, cursor: int)
    requires
        0 <= i < formats.len(),
        0 <= cursor <= raw.len(),
    ensures
        fields_of(formats.skip(i), raw.skip(cursor)) == (match DataType::named(formats[i]) {
            None => Err(DecodeError::UnknownTypeTag),
            Some(tag) => if raw.len() - cursor < tag.width() {
                Err(DecodeError::BufferUnderrun)
            } else {
                prefixed(
                    seq![FieldValue::decoding(tag, raw.subrange(cursor, cursor + tag.width()))],
                    fields_of(formats.skip(i + 1), raw.skip(cursor + tag.width())),
                )
            },
        }),
{
    let f = formats.skip(i);
    let r = raw.skip(cursor);
    assert(f[0] == formats[i]);
    assert(f.drop_first() =~= formats.skip(i + 1));
    match DataType::named(formats[i]) {
        None => {},
        Some(tag) => {
            let w = tag.width() as int;
            if raw.len() - cursor >= w {
                assert(r.take(w) =~= raw.subrange(cursor, cursor + w));
                assert(r.skip(w) =~= raw.skip(cursor + w));
            }
        },
    }
}

/// Decodes the fields that `raw` holds under the type tags `formats`.
pub fn decode_fields(formats: &Vec<String>, raw: &Vec<u8>) -> (r: Result<
    Vec<FieldValue>,
    DecodeError,
>)
    ensures
        match r {
            Ok(values) => fields_of(formats.deep_view(), raw@) == Ok::<
                Seq<FieldValue>,
                DecodeError,
            >(values@),
            Err(e) => fields_of(formats.deep_view(), raw@) == Err::<Seq<FieldValue>, DecodeError>(
                e,
            ),
        },
{
    let ghost names = formats.deep_view();
    let mut values: Vec<FieldValue> = Vec::new();
    let mut cursor: usize = 0;
    let mut i: usize = 0;
    proof {
        assert(names.skip(0) =~= names);
        assert(raw@.skip(0) =~= raw@);
        assert(forall|rest: Seq<FieldValue>| values@ + rest =~= rest);
    }
    while i < formats.len()
        invariant
            i <= formats.len(),
            cursor <= raw.len(),
            names == formats.deep_view(),
            fields_of(names, raw@) == prefixed(
                values@,
                fields_of(names.skip(i as int), raw@.skip(cursor as int)),
            ),
        decreases formats.len() - i,
    {
        proof {
            lemma_fields_step(names, raw@, i as int, cursor as int);
            assert(names[i as int] == formats[i as int]@);
        }
        match DataType::of_name(formats[i].as_str()) {
            None => {
                return Err(DecodeError::UnknownTypeTag);
            },
            Some(tag) => {
                let w = tag.size();
                if raw.len() - cursor < w {
                    return Err(DecodeError::BufferUnderrun);
                }
                let value = read_field(tag, raw, cursor);
                let ghost before = values@;
                values.push(value);
                cursor += w;
                proof {
                    assert(forall|rest: Seq<FieldValue>|
                        before + (seq![value] + rest) =~= values@ + rest);
                }
            },
        }
        i += 1;
    }
    proof {
        assert(names.skip(i as int) =~= Seq::<Seq<char>>::empty());
        assert(values@ + Seq::<FieldValue>::empty() =~= values@);
    }
    if cursor != raw.len() {
        return Err(DecodeError::FieldCountMismatch);
    }
    Ok(values)
}

/// Appending a value appends its encoding.
proof fn lemma_encoding_push(values: Seq<FieldValue>, last: FieldValue)
    ensures
        encoding_of(values.push(last)) == encoding_of(values) + last.encoding(),
    decreases values.len(),
{
    let all = values.push(last);
    if values.len() == 0 {
        assert(all.drop_first() =~= values);
        assert(all[0] == last);
        assert(encoding_of(all) =~= last.encoding());
        assert(encoding_of(values) + last.encoding() =~= last.encoding());
    } else {
        lemma_encoding_push(values.drop_first(), last);
        assert(all.drop_first() =~= values.drop_first().push(last));
        assert(encoding_of(all) =~= encoding_of(values) + last.encoding());
    }
}

/// Encodes the given values in order.
pub fn encode_fields(values: &Vec<FieldValue>) -> (raw: Vec<u8>)
    ensures
        raw@ == encoding_of(values@),
{
    let mut raw: Vec<u8> = Vec::new();
    let mut i: usize = 0;
    assert(values@.take(0) =~= Seq::<FieldValue>::empty());
    while i < values.len()
        invariant
            i <= values.len(),
            raw@ == encoding_of(values@.take(i as int)),
        decreases values.len() - i,
    {
        proof {
            lemma_encoding_push(values@.take(i as int), values@[i as int]);
            assert(values@.take(i + 1) =~= values@.take(i as int).push(values@[i as int]));
        }
        values[i].write_to(&mut raw);
        i += 1;
    }
    assert(values@.take(values.len() as int) =~= values@);
    raw
}

} // verus!
