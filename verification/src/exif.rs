//! The TIFF/Exif directory reader: parsing a self-contained TIFF buffer into a
//! chain of tag directories, resolving pointer-indirected values, and deriving
//! the resolution and density fields.

use vstd::prelude::*;

verus! {

/// An error raised while reading a TIFF/Exif buffer.
#[derive(Clone, Copy, Debug, Eq, PartialEq)]
pub enum Error {
    /// The two-byte order indicator was neither `MM` nor `II`.
    ByteOrderIndicator { bytes: [u8; 2] },
    /// The TIFF version was neither 42 (classic) nor 43 (BigTIFF).
    Version { version: u16 },
    /// A BigTIFF header carried a pointer size other than 8.
    BigPointerSize { size: u16 },
    /// A BigTIFF header carried a nonzero reserved field.
    BigReserved { value: u16 },
    /// An entry of an unknown value type was actually resolved.
    UnknownType { data_type: ValueType },
}

/// The encoding of one value of a directory entry.
#[derive(Clone, Copy, Debug, Eq, PartialEq, Structural)]
pub enum ValueType {
    Byte,
    Ascii,
    Short,
    Long,
    Rational,
    SByte,
    Undefined,
    SShort,
    SLong,
    SRational,
    Float,
    Double,
    Ifd,
    Long8,
    SLong8,
    Ifd8,
    Other(u16),
}

/// The value type denoted by a TIFF type code.
pub open spec fn spec_value_type(value: u16) -> ValueType {
    if value == 1 {
        ValueType::Byte
    } else if value == 2 {
        ValueType::Ascii
    } else if value == 3 {
        ValueType::Short
    } else if value == 4 {
        ValueType::Long
    } else if value == 5 {
        ValueType::Rational
    } else if value == 6 {
        ValueType::SByte
    } else if value == 7 {
        ValueType::Undefined
    } else if value == 8 {
        ValueType::SShort
    } else if value == 9 {
        ValueType::SLong
    } else if value == 10 {
        ValueType::SRational
    } else if value == 11 {
        ValueType::Float
    } else if value == 12 {
        ValueType::Double
    } else if value == 13 {
        ValueType::Ifd
    } else if value == 16 {
        ValueType::Long8
    } else if value == 17 {
        ValueType::SLong8
    } else if value == 18 {
        ValueType::Ifd8
    } else {
        ValueType::Other(value)
    }
}

/// The byte width of one element of the given type, in specifications;
/// 0 stands for an unknown width.
pub open spec fn spec_element_size(t: ValueType) -> int {
    match t {
        ValueType::Byte | ValueType::Ascii | ValueType::SByte | ValueType::Undefined => 1,
        ValueType::Short | ValueType::SShort => 2,
        ValueType::Long | ValueType::SLong | ValueType::Float | ValueType::Ifd => 4,
        ValueType::Rational | ValueType::SRational | ValueType::Double | ValueType::Long8
            | ValueType::SLong8 | ValueType::Ifd8 => 8,
        ValueType::Other(_) => 0,
    }
}

impl ValueType {
    /// Decodes a TIFF type code.
    pub fn from_base_type(value: u16) -> (r: Self)
        ensures
            r == spec_value_type(value),
    {
        match value {
            1 => Self::Byte,
            2 => Self::Ascii,
            3 => Self::Short,
            4 => Self::Long,
            5 => Self::Rational,
            6 => Self::SByte,
            7 => Self::Undefined,
            8 => Self::SShort,
            9 => Self::SLong,
            10 => Self::SRational,
            11 => Self::Float,
            12 => Self::Double,
            13 => Self::Ifd,
            16 => Self::Long8,
            17 => Self::SLong8,
            18 => Self::Ifd8,
            other => Self::Other(other),
        }
    }

    /// How many bytes one element of this type occupies, or `None` if the
    /// type is unknown.
    pub fn single_element_size(&self) -> (r: Option<usize>)
        ensures
            self is Other <==> r is None,
            r matches Some(n) ==> n == spec_element_size(*self),
    {
        match self {
            Self::Byte | Self::Ascii | Self::SByte | Self::Undefined => Some(1),
            Self::Short | Self::SShort => Some(2),
            Self::Long | Self::SLong | Self::Float | Self::Ifd => Some(4),
            Self::Rational | Self::SRational | Self::Double | Self::Long8 | Self::SLong8
                | Self::Ifd8 => Some(8),
            Self::Other(_) => None,
        }
    }
}

/// The decoded values of one directory entry.
///
/// Floating-point values are carried as their raw IEEE 754 bit patterns; this
/// reader never interprets them.
#[derive(Clone, Debug, Eq, PartialEq)]
pub enum Values {
    Byte(Vec<u8>),
    Ascii(Vec<u8>),
    Short(Vec<u16>),
    Long(Vec<u32>),
    Rational(Vec<(u32, u32)>),
    SByte(Vec<i8>),
    Undefined(Vec<u8>),
    SShort(Vec<i16>),
    SLong(Vec<i32>),
    SRational(Vec<(i32, i32)>),
    Float(Vec<u32>),
    Double(Vec<u64>),
    Ifd(Vec<u32>),
    Long8(Vec<u64>),
    SLong8(Vec<i64>),
    Ifd8(Vec<u64>),
}

/// One directory entry: either already decoded, or pending behind an absolute
/// offset awaiting the resolution pass, or preserved raw for a type whose
/// width is unknown.
#[derive(Clone, Debug, Eq, PartialEq)]
pub enum ValueOrPointer {
    Value { tag: u16, values: Values },
    Pointer { tag: u16, value_type: ValueType, count: u32, pointer: u64 },
    Unknown { tag: u16, value_type: ValueType, count: u32, inline_data: [u8; 8] },
}

/// The tag of an entry.
pub open spec fn spec_entry_tag(e: ValueOrPointer) -> u16 {
    match e {
        ValueOrPointer::Value { tag, .. } => tag,
        ValueOrPointer::Pointer { tag, .. } => tag,
        ValueOrPointer::Unknown { tag, .. } => tag,
    }
}

impl ValueOrPointer {
    /// The tag of this entry.
    pub fn tag(&self) -> (r: u16)
        ensures
            r == spec_entry_tag(*self),
    {
        match self {
            Self::Value { tag, .. } => *tag,
            Self::Pointer { tag, .. } => *tag,
            Self::Unknown { tag, .. } => *tag,
        }
    }

    /// The decoded values of this entry, if it has been resolved.
    pub fn value(&self) -> (r: Option<&Values>)
        ensures
            self matches ValueOrPointer::Value { values, .. } ==> (r matches Some(v) && *v == values),
            !(self is Value) ==> r is None,
    {
        match self {
            Self::Value { values, .. } => Some(values),
            _ => None,
        }
    }
}

/// The big-endian or little-endian value of the two bytes at `p` in `d`.
pub open spec fn val16(d: Seq<u8>, p: int, be: bool) -> int {
    if be {
        (d[p] as int) * 0x100 + (d[p + 1] as int)
    } else {
        (d[p + 1] as int) * 0x100 + (d[p] as int)
    }
}

/// The big-endian or little-endian value of the four bytes at `p` in `d`.
pub open spec fn val32(d: Seq<u8>, p: int, be: bool) -> int {
    if be {
        (d[p] as int) * 0x1000000 + (d[p + 1] as int) * 0x10000 + (d[p + 2] as int) * 0x100
            + (d[p + 3] as int)
    } else {
        (d[p + 3] as int) * 0x1000000 + (d[p + 2] as int) * 0x10000 + (d[p + 1] as int) * 0x100
            + (d[p] as int)
    }
}

/// The big-endian or little-endian value of the eight bytes at `p` in `d`.
pub open spec fn val64(d: Seq<u8>, p: int, be: bool) -> int {
    if be {
        val32(d, p, true) * 0x100000000 + val32(d, p + 4, true)
    } else {
        val32(d, p + 4, false) * 0x100000000 + val32(d, p, false)
    }
}

/// A positioned, endianness- and pointer-width-aware reader over a TIFF buffer.
///
/// The buffer itself is handed to each operation; the reader holds only the
/// position (which a seek may place anywhere, even past the end) and the two
/// header-derived flags.
pub(crate) struct Reader {
    pub pos: u64,
    pub big_endian: bool,
    pub ptr64: bool,
}

impl Reader {
    /// Moves the position; reads past the end of the buffer fail.
    pub(crate) fn seek(&mut self, offset: u64)
        ensures
            final(self).pos == offset,
            final(self).big_endian == old(self).big_endian,
            final(self).ptr64 == old(self).ptr64,
    {
        self.pos = offset;
    }

    /// Reads one byte as a signed value.
    pub(crate) fn read_i8(&mut self, data: &[u8]) -> (res: Result<i8, crate::jpeg::Error>)
        ensures
            final(self).big_endian == old(self).big_endian,
            final(self).ptr64 == old(self).ptr64,
            res is Ok <==> old(self).pos + 1 <= data@.len(),
            res matches Ok(v) ==> v == (data@[old(self).pos as int] as i8)
                && final(self).pos == old(self).pos + 1,
            res is Err ==> *final(self) == *old(self)
                && (res matches Err(e) && e is UnexpectedEndOfStream),
    {
        if (self.pos as u64) < data.len() as u64 {
            let i = self.pos as usize;
            let b = data[i];
            self.pos = self.pos + 1;
            Ok(b as i8)
        } else {
            Err(crate::jpeg::Error::UnexpectedEndOfStream)
        }
    }

    /// Reads two bytes as an unsigned value in the buffer's byte order.
    pub(crate) fn read_u16(&mut self, data: &[u8]) -> (res: Result<u16, crate::jpeg::Error>)
        ensures
            final(self).big_endian == old(self).big_endian,
            final(self).ptr64 == old(self).ptr64,
            res is Ok <==> old(self).pos + 2 <= data@.len(),
            res matches Ok(v) ==> v as int == val16(data@, old(self).pos as int, old(self).big_endian)
                && final(self).pos == old(self).pos + 2,
            res is Err ==> *final(self) == *old(self)
                && (res matches Err(e) && e is UnexpectedEndOfStream),
    {
        if data.len() >= 2 && self.pos <= (data.len() - 2) as u64 {
            let i = self.pos as usize;
            let b0 = data[i];
            let b1 = data[i + 1];
            self.pos = self.pos + 2;
            if self.big_endian {
                Ok((b0 as u16) * 0x100 + (b1 as u16))
            } else {
                Ok((b1 as u16) * 0x100 + (b0 as u16))
            }
        } else {
            Err(crate::jpeg::Error::UnexpectedEndOfStream)
        }
    }

    /// Reads four bytes as an unsigned value in the buffer's byte order.
    pub(crate) fn read_u32(&mut self, data: &[u8]) -> (res: Result<u32, crate::jpeg::Error>)
        ensures
            final(self).big_endian == old(self).big_endian,
            final(self).ptr64 == old(self).ptr64,
            res is Ok <==> old(self).pos + 4 <= data@.len(),
            res matches Ok(v) ==> v as int == val32(data@, old(self).pos as int, old(self).big_endian)
                && final(self).pos == old(self).pos + 4,
            res is Err ==> *final(self) == *old(self)
                && (res matches Err(e) && e is UnexpectedEndOfStream),
    {
        if data.len() >= 4 && self.pos <= (data.len() - 4) as u64 {
            let i = self.pos as usize;
            let b0 = data[i];
            let b1 = data[i + 1];
            let b2 = data[i + 2];
            let b3 = data[i + 3];
            self.pos = self.pos + 4;
            if self.big_endian {
                Ok((b0 as u32) * 0x1000000 + (b1 as u32) * 0x10000 + (b2 as u32) * 0x100
                    + (b3 as u32))
            } else {
                Ok((b3 as u32) * 0x1000000 + (b2 as u32) * 0x10000 + (b1 as u32) * 0x100
                    + (b0 as u32))
            }
        } else {
            Err(crate::jpeg::Error::UnexpectedEndOfStream)
        }
    }

    /// Reads eight bytes as an unsigned value in the buffer's byte order.
    pub(crate) fn read_u64(&mut self, data: &[u8]) -> (res: Result<u64, crate::jpeg::Error>)
        ensures
            final(self).big_endian == old(self).big_endian,
            final(self).ptr64 == old(self).ptr64,
            res is Ok <==> old(self).pos + 8 <= data@.len(),
            res matches Ok(v) ==> v as int == val64(data@, old(self).pos as int, old(self).big_endian)
                && final(self).pos == old(self).pos + 8,
            res is Err ==> *final(self) == *old(self)
                && (res matches Err(e) && e is UnexpectedEndOfStream),
    {
        if data.len() >= 8 && self.pos <= (data.len() - 8) as u64 {
            let i = self.pos as usize;
            let hi: u32;
            let lo: u32;
            let b0 = data[i];
            let b1 = data[i + 1];
            let b2 = data[i + 2];
            let b3 = data[i + 3];
            let b4 = data[i + 4];
            let b5 = data[i + 5];
            let b6 = data[i + 6];
            let b7 = data[i + 7];
            if self.big_endian {
                hi = (b0 as u32) * 0x1000000 + (b1 as u32) * 0x10000 + (b2 as u32) * 0x100
                    + (b3 as u32);
                lo = (b4 as u32) * 0x1000000 + (b5 as u32) * 0x10000 + (b6 as u32) * 0x100
                    + (b7 as u32);
            } else {
                hi = (b7 as u32) * 0x1000000 + (b6 as u32) * 0x10000 + (b5 as u32) * 0x100
                    + (b4 as u32);
                lo = (b3 as u32) * 0x1000000 + (b2 as u32) * 0x10000 + (b1 as u32) * 0x100
                    + (b0 as u32);
            }
            self.pos = self.pos + 8;
            Ok((hi as u64) * 0x100000000 + (lo as u64))
        } else {
            Err(crate::jpeg::Error::UnexpectedEndOfStream)
        }
    }

    /// Reads two bytes as a signed value in the buffer's byte order.
    pub(crate) fn read_i16(&mut self, data: &[u8]) -> (res: Result<i16, crate::jpeg::Error>)
        ensures
            final(self).big_endian == old(self).big_endian,
            final(self).ptr64 == old(self).ptr64,
            res is Ok <==> old(self).pos + 2 <= data@.len(),
            res matches Ok(v) ==> v == (val16(data@, old(self).pos as int, old(self).big_endian)
                as u16) as i16 && final(self).pos == old(self).pos + 2,
            res is Err ==> *final(self) == *old(self)
                && (res matches Err(e) && e is UnexpectedEndOfStream),
    {
        match self.read_u16(data) {
            Ok(v) => Ok(v as i16),
            Err(e) => Err(e),
        }
    }

    /// Reads four bytes as a signed value in the buffer's byte order.
    pub(crate) fn read_i32(&mut self, data: &[u8]) -> (res: Result<i32, crate::jpeg::Error>)
        ensures
            final(self).big_endian == old(self).big_endian,
            final(self).ptr64 == old(self).ptr64,
            res is Ok <==> old(self).pos + 4 <= data@.len(),
            res matches Ok(v) ==> v == (val32(data@, old(self).pos as int, old(self).big_endian)
                as u32) as i32 && final(self).pos == old(self).pos + 4,
            res is Err ==> *final(self) == *old(self)
                && (res matches Err(e) && e is UnexpectedEndOfStream),
    {
        match self.read_u32(data) {
            Ok(v) => Ok(v as i32),
            Err(e) => Err(e),
        }
    }

    /// Reads eight bytes as a signed value in the buffer's byte order.
    pub(crate) fn read_i64(&mut self, data: &[u8]) -> (res: Result<i64, crate::jpeg::Error>)
        ensures
            final(self).big_endian == old(self).big_endian,
            final(self).ptr64 == old(self).ptr64,
            res is Ok <==> old(self).pos + 8 <= data@.len(),
            res matches Ok(v) ==> v == (val64(data@, old(self).pos as int, old(self).big_endian)
                as u64) as i64 && final(self).pos == old(self).pos + 8,
            res is Err ==> *final(self) == *old(self)
                && (res matches Err(e) && e is UnexpectedEndOfStream),
    {
        match self.read_u64(data) {
            Ok(v) => Ok(v as i64),
            Err(e) => Err(e),
        }
    }

    /// Reads one offset field: eight bytes for BigTIFF, four otherwise.
    pub(crate) fn read_offset(&mut self, data: &[u8]) -> (res: Result<u64, crate::jpeg::Error>)
        ensures
            final(self).big_endian == old(self).big_endian,
            final(self).ptr64 == old(self).ptr64,
            res is Ok <==> old(self).pos + offset_width(old(self).ptr64) <= data@.len(),
            res matches Ok(v) ==> final(self).pos == old(self).pos + offset_width(old(self).ptr64)
                && (old(self).ptr64 ==> v as int
                    == val64(data@, old(self).pos as int, old(self).big_endian))
                && (!old(self).ptr64 ==> v as int
                    == val32(data@, old(self).pos as int, old(self).big_endian)),
            res is Err ==> *final(self) == *old(self)
                && (res matches Err(e) && e is UnexpectedEndOfStream),
    {
        if self.ptr64 {
            self.read_u64(data)
        } else {
            match self.read_u32(data) {
                Ok(v) => Ok(v as u64),
                Err(e) => Err(e),
            }
        }
    }

    /// Reads one directory entry count: eight bytes for BigTIFF, two otherwise.
    pub(crate) fn read_ifd_entry_count(&mut self, data: &[u8]) -> (res: Result<u64, crate::jpeg::Error>)
        ensures
            final(self).big_endian == old(self).big_endian,
            final(self).ptr64 == old(self).ptr64,
            res is Ok <==> old(self).pos + count_width(old(self).ptr64) <= data@.len(),
            res matches Ok(v) ==> final(self).pos == old(self).pos + count_width(old(self).ptr64)
                && (old(self).ptr64 ==> v as int
                    == val64(data@, old(self).pos as int, old(self).big_endian))
                && (!old(self).ptr64 ==> v as int
                    == val16(data@, old(self).pos as int, old(self).big_endian)),
            res is Err ==> *final(self) == *old(self)
                && (res matches Err(e) && e is UnexpectedEndOfStream),
    {
        if self.ptr64 {
            self.read_u64(data)
        } else {
            match self.read_u16(data) {
                Ok(v) => Ok(v as u64),
                Err(e) => Err(e),
            }
        }
    }

    /// Reads one value-type code.
    pub(crate) fn read_type(&mut self, data: &[u8]) -> (res: Result<ValueType, crate::jpeg::Error>)
        ensures
            final(self).big_endian == old(self).big_endian,
            final(self).ptr64 == old(self).ptr64,
            res is Ok <==> old(self).pos + 2 <= data@.len(),
            res matches Ok(v) ==> v == spec_value_type(
                (val16(data@, old(self).pos as int, old(self).big_endian) as u16))
                && final(self).pos == old(self).pos + 2,
            res is Err ==> *final(self) == *old(self)
                && (res matches Err(e) && e is UnexpectedEndOfStream),
    {
        let base_value = match self.read_u16(data) {
            Ok(v) => v,
            Err(e) => {
                return Err(e);
            },
        };
        Ok(ValueType::from_base_type(base_value))
    }
}

/// The byte width of an offset field.
pub open spec fn offset_width(ptr64: bool) -> int {
    if ptr64 { 8 } else { 4 }
}

/// The byte width of a directory entry count field.
pub open spec fn count_width(ptr64: bool) -> int {
    if ptr64 { 8 } else { 2 }
}

/// `v` holds the `n` bytes of `d` starting at `p`.
pub open spec fn u8s_at(v: Seq<u8>, d: Seq<u8>, p: int, n: int) -> bool {
    v.len() == n && (forall|i: int| 0 <= i < n ==> v[i] == d[p + i])
}

/// `v` holds the `n` signed bytes of `d` starting at `p`.
pub open spec fn i8s_at(v: Seq<i8>, d: Seq<u8>, p: int, n: int) -> bool {
    v.len() == n && (forall|i: int| 0 <= i < n ==> v[i] == (d[p + i] as i8))
}

/// `v` holds the `n` 16-bit values encoded in `d` starting at `p`.
pub open spec fn u16s_at(v: Seq<u16>, d: Seq<u8>, p: int, n: int, be: bool) -> bool {
    v.len() == n && (forall|i: int| 0 <= i < n ==> (#[trigger] v[i]) as int == val16(d, p + 2 * i, be))
}

/// `v` holds the `n` signed 16-bit values encoded in `d` starting at `p`.
pub open spec fn i16s_at(v: Seq<i16>, d: Seq<u8>, p: int, n: int, be: bool) -> bool {
    v.len() == n && (forall|i: int| 0 <= i < n ==> #[trigger] v[i]
        == ((val16(d, p + 2 * i, be) as u16) as i16))
}

/// `v` holds the `n` 32-bit values encoded in `d` starting at `p`.
pub open spec fn u32s_at(v: Seq<u32>, d: Seq<u8>, p: int, n: int, be: bool) -> bool {
    v.len() == n && (forall|i: int| 0 <= i < n ==> (#[trigger] v[i]) as int == val32(d, p + 4 * i, be))
}

/// `v` holds the `n` signed 32-bit values encoded in `d` starting at `p`.
pub open spec fn i32s_at(v: Seq<i32>, d: Seq<u8>, p: int, n: int, be: bool) -> bool {
    v.len() == n && (forall|i: int| 0 <= i < n ==> #[trigger] v[i]
        == ((val32(d, p + 4 * i, be) as u32) as i32))
}

/// `v` holds the `n` 64-bit values encoded in `d` starting at `p`.
pub open spec fn u64s_at(v: Seq<u64>, d: Seq<u8>, p: int, n: int, be: bool) -> bool {
    v.len() == n && (forall|i: int| 0 <= i < n ==> (#[trigger] v[i]) as int == val64(d, p + 8 * i, be))
}

/// `v` holds the `n` signed 64-bit values encoded in `d` starting at `p`.
pub open spec fn i64s_at(v: Seq<i64>, d: Seq<u8>, p: int, n: int, be: bool) -> bool {
    v.len() == n && (forall|i: int| 0 <= i < n ==> #[trigger] v[i]
        == ((val64(d, p + 8 * i, be) as u64) as i64))
}

/// `v` holds the `n` unsigned numerator/denominator pairs encoded in `d`
/// starting at `p`, eight bytes per pair.
pub open spec fn rationals_at(v: Seq<(u32, u32)>, d: Seq<u8>, p: int, n: int, be: bool) -> bool {
    v.len() == n && (forall|i: int| 0 <= i < n ==> (#[trigger] v[i]).0 as int
        == val32(d, p + 8 * i, be) && v[i].1 as int == val32(d, p + 8 * i + 4, be))
}

/// `v` holds the `n` signed numerator/denominator pairs encoded in `d`
/// starting at `p`, eight bytes per pair.
pub open spec fn srationals_at(v: Seq<(i32, i32)>, d: Seq<u8>, p: int, n: int, be: bool) -> bool {
    v.len() == n && (forall|i: int| 0 <= i < n ==> (#[trigger] v[i]).0
        == ((val32(d, p + 8 * i, be) as u32) as i32)
        && v[i].1 == ((val32(d, p + 8 * i + 4, be) as u32) as i32))
}

impl Reader {
    /// Reads one byte.
    pub(crate) fn read_u8(&mut self, data: &[u8]) -> (res: Result<u8, crate::jpeg::Error>)
        ensures
            final(self).big_endian == old(self).big_endian,
            final(self).ptr64 == old(self).ptr64,
            res is Ok <==> old(self).pos + 1 <= data@.len(),
            res matches Ok(v) ==> v == data@[old(self).pos as int]
                && final(self).pos == old(self).pos + 1,
            res is Err ==> *final(self) == *old(self)
                && (res matches Err(e) && e is UnexpectedEndOfStream),
    {
        if (self.pos as u64) < data.len() as u64 {
            let i = self.pos as usize;
            let b = data[i];
            self.pos = self.pos + 1;
            Ok(b)
        } else {
            Err(crate::jpeg::Error::UnexpectedEndOfStream)
        }
    }

    /// Reads `count` bytes.
    #[verifier::loop_isolation(false)]
    pub(crate) fn read_u8_vec(&mut self, data: &[u8], count: usize) -> (res: Result<Vec<u8>, crate::jpeg::Error>)
        ensures
            final(self).big_endian == old(self).big_endian,
            final(self).ptr64 == old(self).ptr64,
            res is Ok <==> count == 0 || old(self).pos + count <= data@.len(),
            res matches Ok(v) ==> u8s_at(v@, data@, old(self).pos as int, count as int)
                && final(self).pos == old(self).pos + count,
            res matches Err(e) ==> e is UnexpectedEndOfStream,
    {
        let mut buf: Vec<u8> = Vec::new();
        loop
            invariant
                self.big_endian == old(self).big_endian,
                self.ptr64 == old(self).ptr64,
                buf@.len() <= count,
                self.pos == old(self).pos + buf@.len(),
                buf@.len() > 0 ==> old(self).pos + buf@.len() <= data@.len(),
                u8s_at(buf@, data@, old(self).pos as int, buf@.len() as int),
            decreases count - buf@.len(),
        {
            if buf.len() >= count {
                break;
            }
            let v = match self.read_u8(data) {
                Ok(v) => v,
                Err(e) => {
                    return Err(e);
                },
            };
            buf.push(v);
        }
        Ok(buf)
    }

    /// Reads `count` signed bytes.
    #[verifier::loop_isolation(false)]
    pub(crate) fn read_i8_vec(&mut self, data: &[u8], count: usize) -> (res: Result<Vec<i8>, crate::jpeg::Error>)
        ensures
            final(self).big_endian == old(self).big_endian,
            final(self).ptr64 == old(self).ptr64,
            res is Ok <==> count == 0 || old(self).pos + count <= data@.len(),
            res matches Ok(v) ==> i8s_at(v@, data@, old(self).pos as int, count as int)
                && final(self).pos == old(self).pos + count,
            res matches Err(e) ==> e is UnexpectedEndOfStream,
    {
        let mut buf: Vec<i8> = Vec::new();
        loop
            invariant
                self.big_endian == old(self).big_endian,
                self.ptr64 == old(self).ptr64,
                buf@.len() <= count,
                self.pos == old(self).pos + buf@.len(),
                buf@.len() > 0 ==> old(self).pos + buf@.len() <= data@.len(),
                i8s_at(buf@, data@, old(self).pos as int, buf@.len() as int),
            decreases count - buf@.len(),
        {
            if buf.len() >= count {
                break;
            }
            let v = match self.read_i8(data) {
                Ok(v) => v,
                Err(e) => {
                    return Err(e);
                },
            };
            buf.push(v);
        }
        Ok(buf)
    }

    /// Reads `count` 16-bit values.
    #[verifier::loop_isolation(false)]
    pub(crate) fn read_u16_vec(&mut self, data: &[u8], count: usize) -> (res: Result<Vec<u16>, crate::jpeg::Error>)
        ensures
            final(self).big_endian == old(self).big_endian,
            final(self).ptr64 == old(self).ptr64,
            res is Ok <==> count == 0 || old(self).pos + 2 * count <= data@.len(),
            res matches Ok(v) ==> u16s_at(v@, data@, old(self).pos as int, count as int,
                old(self).big_endian) && final(self).pos == old(self).pos + 2 * count,
            res matches Err(e) ==> e is UnexpectedEndOfStream,
    {
        let mut buf: Vec<u16> = Vec::new();
        loop
            invariant
                self.big_endian == old(self).big_endian,
                self.ptr64 == old(self).ptr64,
                buf@.len() <= count,
                self.pos == old(self).pos + 2 * buf@.len(),
                buf@.len() > 0 ==> old(self).pos + 2 * buf@.len() <= data@.len(),
                u16s_at(buf@, data@, old(self).pos as int, buf@.len() as int, self.big_endian),
            decreases count - buf@.len(),
        {
            if buf.len() >= count {
                break;
            }
            let v = match self.read_u16(data) {
                Ok(v) => v,
                Err(e) => {
                    return Err(e);
                },
            };
            buf.push(v);
        }
        Ok(buf)
    }

    /// Reads `count` signed 16-bit values.
    #[verifier::loop_isolation(false)]
    pub(crate) fn read_i16_vec(&mut self, data: &[u8], count: usize) -> (res: Result<Vec<i16>, crate::jpeg::Error>)
        ensures
            final(self).big_endian == old(self).big_endian,
            final(self).ptr64 == old(self).ptr64,
            res is Ok <==> count == 0 || old(self).pos + 2 * count <= data@.len(),
            res matches Ok(v) ==> i16s_at(v@, data@, old(self).pos as int, count as int,
                old(self).big_endian) && final(self).pos == old(self).pos + 2 * count,
            res matches Err(e) ==> e is UnexpectedEndOfStream,
    {
        let mut buf: Vec<i16> = Vec::new();
        loop
            invariant
                self.big_endian == old(self).big_endian,
                self.ptr64 == old(self).ptr64,
                buf@.len() <= count,
                self.pos == old(self).pos + 2 * buf@.len(),
                buf@.len() > 0 ==> old(self).pos + 2 * buf@.len() <= data@.len(),
                i16s_at(buf@, data@, old(self).pos as int, buf@.len() as int, self.big_endian),
            decreases count - buf@.len(),
        {
            if buf.len() >= count {
                break;
            }
            let v = match self.read_i16(data) {
                Ok(v) => v,
                Err(e) => {
                    return Err(e);
                },
            };
            buf.push(v);
        }
        Ok(buf)
    }

    /// Reads `count` 32-bit values.
    #[verifier::loop_isolation(false)]
    pub(crate) fn read_u32_vec(&mut self, data: &[u8], count: usize) -> (res: Result<Vec<u32>, crate::jpeg::Error>)
        ensures
            final(self).big_endian == old(self).big_endian,
            final(self).ptr64 == old(self).ptr64,
            res is Ok <==> count == 0 || old(self).pos + 4 * count <= data@.len(),
            res matches Ok(v) ==> u32s_at(v@, data@, old(self).pos as int, count as int,
                old(self).big_endian) && final(self).pos == old(self).pos + 4 * count,
            res matches Err(e) ==> e is UnexpectedEndOfStream,
    {
        let mut buf: Vec<u32> = Vec::new();
        loop
            invariant
                self.big_endian == old(self).big_endian,
                self.ptr64 == old(self).ptr64,
                buf@.len() <= count,
                self.pos == old(self).pos + 4 * buf@.len(),
                buf@.len() > 0 ==> old(self).pos + 4 * buf@.len() <= data@.len(),
                u32s_at(buf@, data@, old(self).pos as int, buf@.len() as int, self.big_endian),
            decreases count - buf@.len(),
        {
            if buf.len() >= count {
                break;
            }
            let v = match self.read_u32(data) {
                Ok(v) => v,
                Err(e) => {
                    return Err(e);
                },
            };
            buf.push(v);
        }
        Ok(buf)
    }

    /// Reads `count` signed 32-bit values.
    #[verifier::loop_isolation(false)]
    pub(crate) fn read_i32_vec(&mut self, data: &[u8], count: usize) -> (res: Result<Vec<i32>, crate::jpeg::Error>)
        ensures
            final(self).big_endian == old(self).big_endian,
            final(self).ptr64 == old(self).ptr64,
            res is Ok <==> count == 0 || old(self).pos + 4 * count <= data@.len(),
            res matches Ok(v) ==> i32s_at(v@, data@, old(self).pos as int, count as int,
                old(self).big_endian) && final(self).pos == old(self).pos + 4 * count,
            res matches Err(e) ==> e is UnexpectedEndOfStream,
    {
        let mut buf: Vec<i32> = Vec::new();
        loop
            invariant
                self.big_endian == old(self).big_endian,
                self.ptr64 == old(self).ptr64,
                buf@.len() <= count,
                self.pos == old(self).pos + 4 * buf@.len(),
                buf@.len() > 0 ==> old(self).pos + 4 * buf@.len() <= data@.len(),
                i32s_at(buf@, data@, old(self).pos as int, buf@.len() as int, self.big_endian),
            decreases count - buf@.len(),
        {
            if buf.len() >= count {
                break;
            }
            let v = match self.read_i32(data) {
                Ok(v) => v,
                Err(e) => {
                    return Err(e);
                },
            };
            buf.push(v);
        }
        Ok(buf)
    }

    /// Reads `count` 64-bit values.
    #[verifier::loop_isolation(false)]
    pub(crate) fn read_u64_vec(&mut self, data: &[u8], count: usize) -> (res: Result<Vec<u64>, crate::jpeg::Error>)
        ensures
            final(self).big_endian == old(self).big_endian,
            final(self).ptr64 == old(self).ptr64,
            res is Ok <==> count == 0 || old(self).pos + 8 * count <= data@.len(),
            res matches Ok(v) ==> u64s_at(v@, data@, old(self).pos as int, count as int,
                old(self).big_endian) && final(self).pos == old(self).pos + 8 * count,
            res matches Err(e) ==> e is UnexpectedEndOfStream,
    {
        let mut buf: Vec<u64> = Vec::new();
        loop
            invariant
                self.big_endian == old(self).big_endian,
                self.ptr64 == old(self).ptr64,
                buf@.len() <= count,
                self.pos == old(self).pos + 8 * buf@.len(),
                buf@.len() > 0 ==> old(self).pos + 8 * buf@.len() <= data@.len(),
                u64s_at(buf@, data@, old(self).pos as int, buf@.len() as int, self.big_endian),
            decreases count - buf@.len(),
        {
            if buf.len() >= count {
                break;
            }
            let v = match self.read_u64(data) {
                Ok(v) => v,
                Err(e) => {
                    return Err(e);
                },
            };
            buf.push(v);
        }
        Ok(buf)
    }

    /// Reads `count` signed 64-bit values.
    #[verifier::loop_isolation(false)]
    pub(crate) fn read_i64_vec(&mut self, data: &[u8], count: usize) -> (res: Result<Vec<i64>, crate::jpeg::Error>)
        ensures
            final(self).big_endian == old(self).big_endian,
            final(self).ptr64 == old(self).ptr64,
            res is Ok <==> count == 0 || old(self).pos + 8 * count <= data@.len(),
            res matches Ok(v) ==> i64s_at(v@, data@, old(self).pos as int, count as int,
                old(self).big_endian) && final(self).pos == old(self).pos + 8 * count,
            res matches Err(e) ==> e is UnexpectedEndOfStream,
    {
        let mut buf: Vec<i64> = Vec::new();
        loop
            invariant
                self.big_endian == old(self).big_endian,
                self.ptr64 == old(self).ptr64,
                buf@.len() <= count,
                self.pos == old(self).pos + 8 * buf@.len(),
                buf@.len() > 0 ==> old(self).pos + 8 * buf@.len() <= data@.len(),
                i64s_at(buf@, data@, old(self).pos as int, buf@.len() as int, self.big_endian),
            decreases count - buf@.len(),
        {
            if buf.len() >= count {
                break;
            }
            let v = match self.read_i64(data) {
                Ok(v) => v,
                Err(e) => {
                    return Err(e);
                },
            };
            buf.push(v);
        }
        Ok(buf)
    }

    /// Reads `count` unsigned numerator/denominator pairs.
    #[verifier::loop_isolation(false)]
    pub(crate) fn read_rational_vec(&mut self, data: &[u8], count: usize) -> (res: Result<
        Vec<(u32, u32)>,
        crate::jpeg::Error,
    >)
        ensures
            final(self).big_endian == old(self).big_endian,
            final(self).ptr64 == old(self).ptr64,
            res is Ok <==> count == 0 || old(self).pos + 8 * count <= data@.len(),
            res matches Ok(v) ==> rationals_at(v@, data@, old(self).pos as int, count as int,
                old(self).big_endian) && final(self).pos == old(self).pos + 8 * count,
            res matches Err(e) ==> e is UnexpectedEndOfStream,
    {
        let mut buf: Vec<(u32, u32)> = Vec::new();
        loop
            invariant
                self.big_endian == old(self).big_endian,
                self.ptr64 == old(self).ptr64,
                buf@.len() <= count,
                self.pos == old(self).pos + 8 * buf@.len(),
                buf@.len() > 0 ==> old(self).pos + 8 * buf@.len() <= data@.len(),
                rationals_at(buf@, data@, old(self).pos as int, buf@.len() as int, self.big_endian),
            decreases count - buf@.len(),
        {
            if buf.len() >= count {
                break;
            }
            let numerator = match self.read_u32(data) {
                Ok(v) => v,
                Err(e) => {
                    return Err(e);
                },
            };
            let denominator = match self.read_u32(data) {
                Ok(v) => v,
                Err(e) => {
                    return Err(e);
                },
            };
            buf.push((numerator, denominator));
        }
        Ok(buf)
    }

    /// Reads `count` signed numerator/denominator pairs.
    #[verifier::loop_isolation(false)]
    pub(crate) fn read_srational_vec(&mut self, data: &[u8], count: usize) -> (res: Result<
        Vec<(i32, i32)>,
        crate::jpeg::Error,
    >)
        ensures
            final(self).big_endian == old(self).big_endian,
            final(self).ptr64 == old(self).ptr64,
            res is Ok <==> count == 0 || old(self).pos + 8 * count <= data@.len(),
            res matches Ok(v) ==> srationals_at(v@, data@, old(self).pos as int, count as int,
                old(self).big_endian) && final(self).pos == old(self).pos + 8 * count,
            res matches Err(e) ==> e is UnexpectedEndOfStream,
    {
        let mut buf: Vec<(i32, i32)> = Vec::new();
        loop
            invariant
                self.big_endian == old(self).big_endian,
                self.ptr64 == old(self).ptr64,
                buf@.len() <= count,
                self.pos == old(self).pos + 8 * buf@.len(),
                buf@.len() > 0 ==> old(self).pos + 8 * buf@.len() <= data@.len(),
                srationals_at(buf@, data@, old(self).pos as int, buf@.len() as int, self.big_endian),
            decreases count - buf@.len(),
        {
            if buf.len() >= count {
                break;
            }
            let numerator = match self.read_i32(data) {
                Ok(v) => v,
                Err(e) => {
                    return Err(e);
                },
            };
            let denominator = match self.read_i32(data) {
                Ok(v) => v,
                Err(e) => {
                    return Err(e);
                },
            };
            buf.push((numerator, denominator));
        }
        Ok(buf)
    }
}

/// `vs` holds exactly the `count` values of type `kind` encoded in `d`
/// starting at `p`, in the byte order given by `be`.
pub open spec fn values_match(vs: Values, kind: ValueType, count: int, d: Seq<u8>, p: int, be: bool) -> bool {
    match kind {
        ValueType::Byte => vs matches Values::Byte(v) && u8s_at(v@, d, p, count),
        ValueType::Ascii => vs matches Values::Ascii(v) && u8s_at(v@, d, p, count),
        ValueType::Undefined => vs matches Values::Undefined(v) && u8s_at(v@, d, p, count),
        ValueType::SByte => vs matches Values::SByte(v) && i8s_at(v@, d, p, count),
        ValueType::Short => vs matches Values::Short(v) && u16s_at(v@, d, p, count, be),
        ValueType::SShort => vs matches Values::SShort(v) && i16s_at(v@, d, p, count, be),
        ValueType::Long => vs matches Values::Long(v) && u32s_at(v@, d, p, count, be),
        ValueType::Ifd => vs matches Values::Ifd(v) && u32s_at(v@, d, p, count, be),
        ValueType::Float => vs matches Values::Float(v) && u32s_at(v@, d, p, count, be),
        ValueType::SLong => vs matches Values::SLong(v) && i32s_at(v@, d, p, count, be),
        ValueType::Rational => vs matches Values::Rational(v) && rationals_at(v@, d, p, count, be),
        ValueType::SRational => vs matches Values::SRational(v) && srationals_at(v@, d, p, count, be),
        ValueType::Double => vs matches Values::Double(v) && u64s_at(v@, d, p, count, be),
        ValueType::Long8 => vs matches Values::Long8(v) && u64s_at(v@, d, p, count, be),
        ValueType::Ifd8 => vs matches Values::Ifd8(v) && u64s_at(v@, d, p, count, be),
        ValueType::SLong8 => vs matches Values::SLong8(v) && i64s_at(v@, d, p, count, be),
        ValueType::Other(_) => false,
    }
}

impl Reader {
    /// Reads `count` values of the given type from the current position.
    ///
    /// An entry of an unknown value type cannot be read, since its byte width
    /// is unknowable.
    pub(crate) fn read_values(&mut self, data: &[u8], kind: ValueType, count: u32) -> (res: Result<
        Values,
        crate::jpeg::Error,
    >)
        ensures
            final(self).big_endian == old(self).big_endian,
            final(self).ptr64 == old(self).ptr64,
            res is Ok <==> !(kind is Other) && (count == 0
                || old(self).pos + spec_element_size(kind) * count <= data@.len()),
            res matches Ok(vs) ==> values_match(vs, kind, count as int, data@,
                old(self).pos as int, old(self).big_endian)
                && final(self).pos == old(self).pos + spec_element_size(kind) * count,
            res matches Err(e) ==> (kind is Other ==> e == crate::jpeg::Error::Exif(
                Error::UnknownType { data_type: kind }))
                && (!(kind is Other) ==> e is UnexpectedEndOfStream),
    {
        let count_usize = count as usize;
        match kind {
            ValueType::Byte => match self.read_u8_vec(data, count_usize) {
                Ok(v) => Ok(Values::Byte(v)),
                Err(e) => Err(e),
            },
            ValueType::Ascii => match self.read_u8_vec(data, count_usize) {
                Ok(v) => Ok(Values::Ascii(v)),
                Err(e) => Err(e),
            },
            ValueType::Undefined => match self.read_u8_vec(data, count_usize) {
                Ok(v) => Ok(Values::Undefined(v)),
                Err(e) => Err(e),
            },
            ValueType::SByte => match self.read_i8_vec(data, count_usize) {
                Ok(v) => Ok(Values::SByte(v)),
                Err(e) => Err(e),
            },
            ValueType::Short => match self.read_u16_vec(data, count_usize) {
                Ok(v) => Ok(Values::Short(v)),
                Err(e) => Err(e),
            },
            ValueType::SShort => match self.read_i16_vec(data, count_usize) {
                Ok(v) => Ok(Values::SShort(v)),
                Err(e) => Err(e),
            },
            ValueType::Long => match self.read_u32_vec(data, count_usize) {
                Ok(v) => Ok(Values::Long(v)),
                Err(e) => Err(e),
            },
            ValueType::SLong => match self.read_i32_vec(data, count_usize) {
                Ok(v) => Ok(Values::SLong(v)),
                Err(e) => Err(e),
            },
            ValueType::Float => match self.read_u32_vec(data, count_usize) {
                Ok(v) => Ok(Values::Float(v)),
                Err(e) => Err(e),
            },
            ValueType::Ifd => match self.read_u32_vec(data, count_usize) {
                Ok(v) => Ok(Values::Ifd(v)),
                Err(e) => Err(e),
            },
            ValueType::Rational => match self.read_rational_vec(data, count_usize) {
                Ok(v) => Ok(Values::Rational(v)),
                Err(e) => Err(e),
            },
            ValueType::SRational => match self.read_srational_vec(data, count_usize) {
                Ok(v) => Ok(Values::SRational(v)),
                Err(e) => Err(e),
            },
            ValueType::Double => match self.read_u64_vec(data, count_usize) {
                Ok(v) => Ok(Values::Double(v)),
                Err(e) => Err(e),
            },
            ValueType::Long8 => match self.read_u64_vec(data, count_usize) {
                Ok(v) => Ok(Values::Long8(v)),
                Err(e) => Err(e),
            },
            ValueType::Ifd8 => match self.read_u64_vec(data, count_usize) {
                Ok(v) => Ok(Values::Ifd8(v)),
                Err(e) => Err(e),
            },
            ValueType::SLong8 => match self.read_i64_vec(data, count_usize) {
                Ok(v) => Ok(Values::SLong8(v)),
                Err(e) => Err(e),
            },
            ValueType::Other(_) => Err(crate::jpeg::Error::Exif(Error::UnknownType {
                data_type: kind,
            })),
        }
    }

    /// Reads one entry's inline slot: if the total value size fits the slot
    /// (4 bytes classic, 8 bytes BigTIFF), the values are decoded directly from
    /// it; otherwise the slot holds an absolute offset, recorded as a pending
    /// entry. An unrecognized value type is preserved as raw opaque bytes
    /// rather than failing.
    pub(crate) fn read_value_or_pointer(&mut self, data: &[u8], tag: u16, kind: ValueType, count: u32)
        -> (res: Result<ValueOrPointer, crate::jpeg::Error>)
        ensures
            final(self).big_endian == old(self).big_endian,
            final(self).ptr64 == old(self).ptr64,
            res is Ok <==> old(self).pos + offset_width(old(self).ptr64) <= data@.len(),
            res matches Err(e) ==> e is UnexpectedEndOfStream,
            res matches Ok(vop) ==> final(self).pos == old(self).pos
                + offset_width(old(self).ptr64) && {
                let p = old(self).pos as int;
                let w = offset_width(old(self).ptr64);
                let be = old(self).big_endian;
                if kind is Other {
                    vop matches ValueOrPointer::Unknown { tag: t, value_type: vt, count: c, inline_data }
                        && t == tag && vt == kind && c == count
                        && (forall|j: int| 0 <= j < w ==> inline_data@[j] == data@[p + j])
                        && (forall|j: int| w <= j < 8 ==> inline_data@[j] == 0)
                } else if spec_element_size(kind) * count > w {
                    vop matches ValueOrPointer::Pointer { tag: t, value_type: vt, count: c, pointer }
                        && t == tag && vt == kind && c == count
                        && pointer as int == (if old(self).ptr64 { val64(data@, p, be) } else {
                            val32(data@, p, be)
                        })
                } else {
                    vop matches ValueOrPointer::Value { tag: t, values }
                        && t == tag && values_match(values, kind, count as int, data@, p, be)
                }
            },
    {
        let w: usize = if self.ptr64 { 8 } else { 4 };
        if !(data.len() >= w && self.pos <= (data.len() - w) as u64) {
            return Err(crate::jpeg::Error::UnexpectedEndOfStream);
        }
        let pos0: u64 = self.pos;
        let i = pos0 as usize;

        // how much space does this value need?
        let single_value_size = match kind.single_element_size() {
            Some(svs) => svs,
            None => {
                // unknown value type; return the inline bytes raw
                let inline_data: [u8; 8] = if w == 8 {
                    [data[i], data[i + 1], data[i + 2], data[i + 3], data[i + 4], data[i + 5],
                        data[i + 6], data[i + 7]]
                } else {
                    [data[i], data[i + 1], data[i + 2], data[i + 3], 0, 0, 0, 0]
                };
                self.seek(pos0 + w as u64);
                return Ok(ValueOrPointer::Unknown { tag, value_type: kind, count, inline_data });
            },
        };

        // how much space do all the values need?
        let total_size: u64 = (single_value_size as u64) * (count as u64);
        if total_size > w as u64 {
            // it's a pointer
            let pointer_value: u64 = match self.read_offset(data) {
                Ok(v) => v,
                Err(e) => {
                    proof {
                        assert(false);
                    }
                    return Err(e);
                },
            };
            Ok(ValueOrPointer::Pointer { tag, value_type: kind, count, pointer: pointer_value })
        } else {
            // it fits inline
            let values = match self.read_values(data, kind, count) {
                Ok(v) => v,
                Err(e) => {
                    proof {
                        assert(false);
                    }
                    return Err(e);
                },
            };
            self.seek(pos0 + w as u64);
            Ok(ValueOrPointer::Value { tag, values })
        }
    }
}

/// The buffer's order indicator is `MM` (ASCII), so it is big-endian.
pub open spec fn header_be(d: Seq<u8>) -> bool {
    d[0] == 0x4D && d[1] == 0x4D
}

/// The buffer's order indicator is `II` (ASCII), so it is little-endian.
pub open spec fn header_le(d: Seq<u8>) -> bool {
    d[0] == 0x49 && d[1] == 0x49
}

/// The buffer's version field: 42 for classic TIFF, 43 for BigTIFF.
pub open spec fn header_version(d: Seq<u8>) -> int {
    val16(d, 2, header_be(d))
}

/// The buffer begins with a complete, well-formed TIFF header.
pub open spec fn header_ok(d: Seq<u8>) -> bool {
    &&& d.len() >= 4
    &&& (header_be(d) || header_le(d))
    &&& {
        ||| (header_version(d) == 42 && d.len() >= 8)
        ||| (header_version(d) == 43 && d.len() >= 16 && val16(d, 4, header_be(d)) == 8
            && val16(d, 6, header_be(d)) == 0)
    }
}

/// The position of the first directory, relative to the buffer's start.
pub open spec fn header_dir_offset(d: Seq<u8>) -> int {
    if header_version(d) == 43 {
        val64(d, 8, header_be(d))
    } else {
        val32(d, 4, header_be(d))
    }
}

/// The error a malformed TIFF header is rejected with, in the order the
/// checks run.
pub open spec fn header_err_matches(d: Seq<u8>, e: crate::jpeg::Error) -> bool {
    if d.len() < 2 {
        e is UnexpectedEndOfStream
    } else if !(header_be(d) || header_le(d)) {
        e matches crate::jpeg::Error::Exif(x) && (x matches Error::ByteOrderIndicator { bytes }
            && bytes@[0] == d[0] && bytes@[1] == d[1])
    } else if d.len() < 4 {
        e is UnexpectedEndOfStream
    } else if header_version(d) != 42 && header_version(d) != 43 {
        e matches crate::jpeg::Error::Exif(x) && (x matches Error::Version { version } && version
            == header_version(d))
    } else if header_version(d) == 42 {
        e is UnexpectedEndOfStream
    } else if d.len() < 6 {
        e is UnexpectedEndOfStream
    } else if val16(d, 4, header_be(d)) != 8 {
        e matches crate::jpeg::Error::Exif(x) && (x matches Error::BigPointerSize { size } && size
            == val16(d, 4, header_be(d)))
    } else if d.len() < 8 {
        e is UnexpectedEndOfStream
    } else if val16(d, 6, header_be(d)) != 0 {
        e matches crate::jpeg::Error::Exif(x) && (x matches Error::BigReserved { value } && value
            == val16(d, 6, header_be(d)))
    } else {
        e is UnexpectedEndOfStream
    }
}

/// The number of bytes one directory entry occupies: tag, type code, element
/// count, and the inline slot.
pub open spec fn dir_entry_size(ptr64: bool) -> int {
    8 + offset_width(ptr64)
}

/// The entry count the directory at `off` declares.
pub open spec fn dir_count(t: Seq<u8>, off: int, be: bool, ptr64: bool) -> int {
    if ptr64 {
        val64(t, off, be)
    } else {
        val16(t, off, be)
    }
}

/// The position of entry `j` of the directory at `off`.
pub open spec fn dir_entry_pos(off: int, j: int, ptr64: bool) -> int {
    off + count_width(ptr64) + j * dir_entry_size(ptr64)
}

/// The directory at `off` lies entirely within the buffer: its count field,
/// every declared entry, and the trailing next-directory offset.
pub open spec fn dir_ok(t: Seq<u8>, off: int, be: bool, ptr64: bool) -> bool {
    &&& 0 <= off
    &&& off + count_width(ptr64) <= t.len()
    &&& dir_entry_pos(off, dir_count(t, off, be, ptr64), ptr64) + offset_width(ptr64) <= t.len()
}

/// The next-directory offset the directory at `off` stores; 0 ends the chain.
pub open spec fn dir_next(t: Seq<u8>, off: int, be: bool, ptr64: bool) -> int {
    let p = dir_entry_pos(off, dir_count(t, off, be, ptr64), ptr64);
    if ptr64 {
        val64(t, p, be)
    } else {
        val32(t, p, be)
    }
}

/// The pointer value stored in an inline slot at `p`.
pub open spec fn slot_pointer(t: Seq<u8>, p: int, be: bool, ptr64: bool) -> int {
    if ptr64 {
        val64(t, p, be)
    } else {
        val32(t, p, be)
    }
}

/// The tag of the raw entry at `p`.
pub open spec fn entry_tag(t: Seq<u8>, p: int, be: bool) -> u16 {
    val16(t, p, be) as u16
}

/// The value type of the raw entry at `p`.
pub open spec fn entry_kind(t: Seq<u8>, p: int, be: bool) -> ValueType {
    spec_value_type(val16(t, p + 2, be) as u16)
}

/// The element count of the raw entry at `p`.
pub open spec fn entry_count(t: Seq<u8>, p: int, be: bool) -> u32 {
    val32(t, p + 4, be) as u32
}

/// `e` is exactly the entry encoded at `p`, pointers still pending: an
/// unknown type keeps its raw slot, an oversized value keeps its offset, and
/// anything else is decoded from the slot.
#[verifier::opaque]
pub open spec fn entry_at(e: ValueOrPointer, t: Seq<u8>, p: int, be: bool, ptr64: bool) -> bool {
    let tag = entry_tag(t, p, be);
    let kind = entry_kind(t, p, be);
    let count = entry_count(t, p, be);
    let w = offset_width(ptr64);
    if kind is Other {
        e matches ValueOrPointer::Unknown { tag: tg, value_type: vt, count: c, inline_data }
            && tg == tag && vt == kind && c == count
            && (forall|j: int| 0 <= j < w ==> inline_data@[j] == t[p + 8 + j])
            && (forall|j: int| w <= j < 8 ==> inline_data@[j] == 0)
    } else if spec_element_size(kind) * count > w {
        e matches ValueOrPointer::Pointer { tag: tg, value_type: vt, count: c, pointer }
            && tg == tag && vt == kind && c == count
            && pointer as int == slot_pointer(t, p + 8, be, ptr64)
    } else {
        e matches ValueOrPointer::Value { tag: tg, values } && tg == tag
            && values_match(values, kind, count as int, t, p + 8, be)
    }
}

/// `es` holds exactly the declared entries of the directory at `off`,
/// pointers still pending.
pub open spec fn dir_entries_at(es: Seq<ValueOrPointer>, t: Seq<u8>, off: int, be: bool, ptr64: bool) -> bool {
    es.len() == dir_count(t, off, be, ptr64) && (forall|j: int| 0 <= j < es.len()
        ==> entry_at(#[trigger] es[j], t, dir_entry_pos(off, j, ptr64), be, ptr64))
}

/// The raw entry at `p` can be resolved: if its value lies behind a pointer,
/// the pointed-at bytes lie within the buffer.
#[verifier::opaque]
pub open spec fn entry_resolvable(t: Seq<u8>, p: int, be: bool, ptr64: bool) -> bool {
    let kind = entry_kind(t, p, be);
    let count = entry_count(t, p, be);
    if !(kind is Other) && spec_element_size(kind) * count > offset_width(ptr64) {
        count == 0 || slot_pointer(t, p + 8, be, ptr64) + spec_element_size(kind) * count
            <= t.len()
    } else {
        true
    }
}

/// Every pending pointer of the directory at `off` can be resolved.
pub open spec fn dir_resolvable(t: Seq<u8>, off: int, be: bool, ptr64: bool) -> bool {
    forall|j: int| 0 <= j < dir_count(t, off, be, ptr64) ==> entry_resolvable(
        t, #[trigger] dir_entry_pos(off, j, ptr64), be, ptr64)
}

/// The offsets walk the directory chain: the first directory's offset, then
/// each stored next offset, until a zero next offset ends the chain.
pub open spec fn chain_links_ok(t: Seq<u8>, offs: Seq<int>, be: bool, ptr64: bool) -> bool {
    &&& offs.len() >= 1
    &&& offs[0] == header_dir_offset(t)
    &&& (forall|m: int| 0 <= m < offs.len() - 1 ==> dir_next(t, #[trigger] offs[m], be, ptr64)
        == offs[m + 1] && offs[m + 1] != 0)
    &&& dir_next(t, offs.last(), be, ptr64) == 0
}

/// The whole directory chain reads: every directory on the walk lies within
/// the buffer with its pointers resolvable, and the walk reaches its zero
/// terminator. A chain with more directories than the buffer has bytes must
/// revisit an offset, and a revisited offset reproduces itself forever, so
/// such a chain never ends.
pub open spec fn chain_offsets_ok(t: Seq<u8>, offs: Seq<int>, be: bool, ptr64: bool) -> bool {
    &&& chain_links_ok(t, offs, be, ptr64)
    &&& offs.len() <= t.len() + 1
    &&& (forall|m: int| 0 <= m < offs.len() ==> dir_ok(t, #[trigger] offs[m], be, ptr64)
        && dir_resolvable(t, offs[m], be, ptr64))
}

/// The TIFF buffer embedded behind the Exif announcement parses: a
/// well-formed header and a directory chain that reads to its terminator.
pub open spec fn process_ok(data: Seq<u8>) -> bool {
    let t = data.skip(6);
    let be = header_be(t);
    let ptr64 = header_version(t) == 43;
    header_ok(t) && (exists|offs: Seq<int>| chain_offsets_ok(t, offs, be, ptr64))
}

/// `e` is the entry encoded at `p` after the resolution pass: a pending
/// pointer is replaced by the values read at its stored offset.
#[verifier::opaque]
pub open spec fn resolved_entry_at(e: ValueOrPointer, t: Seq<u8>, p: int, be: bool, ptr64: bool) -> bool {
    let tag = entry_tag(t, p, be);
    let kind = entry_kind(t, p, be);
    let count = entry_count(t, p, be);
    let w = offset_width(ptr64);
    if kind is Other {
        e matches ValueOrPointer::Unknown { tag: tg, value_type: vt, count: c, inline_data }
            && tg == tag && vt == kind && c == count
            && (forall|j: int| 0 <= j < w ==> inline_data@[j] == t[p + 8 + j])
            && (forall|j: int| w <= j < 8 ==> inline_data@[j] == 0)
    } else if spec_element_size(kind) * count > w {
        e matches ValueOrPointer::Value { tag: tg, values } && tg == tag
            && values_match(values, kind, count as int, t, slot_pointer(t, p + 8, be, ptr64), be)
    } else {
        e matches ValueOrPointer::Value { tag: tg, values } && tg == tag
            && values_match(values, kind, count as int, t, p + 8, be)
    }
}

/// `es` holds the declared entries of the directory at `off` after the
/// resolution pass.
pub open spec fn resolved_dir_at(es: Seq<ValueOrPointer>, t: Seq<u8>, off: int, be: bool, ptr64: bool) -> bool {
    es.len() == dir_count(t, off, be, ptr64) && (forall|j: int| 0 <= j < es.len()
        ==> resolved_entry_at(#[trigger] es[j], t, dir_entry_pos(off, j, ptr64), be, ptr64))
}

/// Every pending pointer among the entries points at values that lie within
/// the buffer.
pub open spec fn entries_resolvable(es: Seq<ValueOrPointer>, t: Seq<u8>) -> bool {
    forall|j: int| 0 <= j < es.len() ==> match #[trigger] es[j] {
        ValueOrPointer::Pointer { value_type, count, pointer, .. } => !(value_type is Other) && (
        count == 0 || pointer + spec_element_size(value_type) * count <= t.len()),
        _ => true,
    }
}

/// `out` is `es` after the resolution pass: pending pointers replaced by the
/// values read at their stored offsets, everything else kept.
pub open spec fn resolves_to(es: Seq<ValueOrPointer>, out: Seq<ValueOrPointer>, t: Seq<u8>, be: bool) -> bool {
    out.len() == es.len() && forall|j: int| 0 <= j < es.len() ==> match #[trigger] es[j] {
        ValueOrPointer::Pointer { tag, value_type, count, pointer } => out[j]
            matches ValueOrPointer::Value { tag: tg, values } && tg == tag && values_match(
            values, value_type, count as int, t, pointer as int, be),
        _ => out[j] == es[j],
    }
}

proof fn lemma_entry_pos_step(off: int, j: int, ptr64: bool)
    ensures
        dir_entry_pos(off, j + 1, ptr64) == dir_entry_pos(off, j, ptr64) + dir_entry_size(ptr64),
{
    assert((j + 1) * dir_entry_size(ptr64) == j * dir_entry_size(ptr64) + dir_entry_size(ptr64))
        by (nonlinear_arith);
}

proof fn lemma_entry_pos_le(off: int, j: int, n: int, ptr64: bool)
    requires
        0 <= j <= n,
    ensures
        dir_entry_pos(off, j, ptr64) <= dir_entry_pos(off, n, ptr64),
{
    assert(j * dir_entry_size(ptr64) <= n * dir_entry_size(ptr64)) by (nonlinear_arith)
        requires
            j <= n,
            dir_entry_size(ptr64) >= 0,
    ;
}

proof fn lemma_chain_prefix_eq(t: Seq<u8>, a: Seq<int>, b: Seq<int>, be: bool, ptr64: bool, m: int)
    requires
        chain_links_ok(t, a, be, ptr64),
        chain_links_ok(t, b, be, ptr64),
        0 <= m < a.len(),
        m < b.len(),
    ensures
        a[m] == b[m],
    decreases m,
{
    if m > 0 {
        lemma_chain_prefix_eq(t, a, b, be, ptr64, m - 1);
        assert(dir_next(t, a[m - 1], be, ptr64) == a[m]);
        assert(dir_next(t, b[m - 1], be, ptr64) == b[m]);
    }
}

/// The walk is deterministic: two offset lists that both follow the stored
/// links to a zero terminator are the same list.
proof fn lemma_chain_links_unique(t: Seq<u8>, a: Seq<int>, b: Seq<int>, be: bool, ptr64: bool)
    requires
        chain_links_ok(t, a, be, ptr64),
        chain_links_ok(t, b, be, ptr64),
    ensures
        a == b,
{
    if a.len() < b.len() {
        let m = a.len() - 1;
        lemma_chain_prefix_eq(t, a, b, be, ptr64, m);
        assert(dir_next(t, a[m], be, ptr64) == 0);
        assert(dir_next(t, b[m], be, ptr64) == b[m + 1] && b[m + 1] != 0);
        assert(false);
    }
    if b.len() < a.len() {
        let m = b.len() - 1;
        lemma_chain_prefix_eq(t, a, b, be, ptr64, m);
        assert(dir_next(t, b[m], be, ptr64) == 0);
        assert(dir_next(t, a[m], be, ptr64) == a[m + 1] && a[m + 1] != 0);
        assert(false);
    }
    assert forall|m: int| 0 <= m < a.len() implies a[m] == b[m] by {
        lemma_chain_prefix_eq(t, a, b, be, ptr64, m);
    }
    assert(a =~= b);
}

/// The offsets walk the stored links from the first directory, each next
/// offset nonzero, without having reached a terminator yet.
pub open spec fn chain_prefix_ok(t: Seq<u8>, c: Seq<int>, be: bool, ptr64: bool) -> bool {
    &&& c.len() >= 1
    &&& c[0] == header_dir_offset(t)
    &&& (forall|m: int| 0 <= m < c.len() - 1 ==> dir_next(t, #[trigger] c[m], be, ptr64)
        == c[m + 1] && c[m + 1] != 0)
}

/// A walked prefix lies along every complete chain: position `m` of the
/// prefix is position `m` of the chain.
proof fn lemma_chain_prefix_position(t: Seq<u8>, c: Seq<int>, o: Seq<int>, be: bool, ptr64: bool, m: int)
    requires
        chain_prefix_ok(t, c, be, ptr64),
        chain_links_ok(t, o, be, ptr64),
        0 <= m < c.len(),
    ensures
        m < o.len() && o[m] == c[m],
    decreases m,
{
    if m > 0 {
        lemma_chain_prefix_position(t, c, o, be, ptr64, m - 1);
        assert(dir_next(t, c[m - 1], be, ptr64) == c[m] && c[m] != 0);
        if m - 1 == o.len() - 1 {
            assert(dir_next(t, o.last(), be, ptr64) == 0);
            assert(false);
        }
        assert(dir_next(t, o[m - 1], be, ptr64) == o[m]);
    }
}

/// For entries read off the directory at `off`, resolvability of the entry
/// values is the same as resolvability of the raw bytes.
proof fn lemma_entries_resolvable_bytes(es: Seq<ValueOrPointer>, t: Seq<u8>, off: int, be: bool, ptr64: bool)
    requires
        dir_entries_at(es, t, off, be, ptr64),
    ensures
        entries_resolvable(es, t) <==> dir_resolvable(t, off, be, ptr64),
{
    reveal(entry_at);
    reveal(entry_resolvable);
    if entries_resolvable(es, t) {
        assert forall|j: int| 0 <= j < dir_count(t, off, be, ptr64) implies entry_resolvable(
            t, #[trigger] dir_entry_pos(off, j, ptr64), be, ptr64) by {
            assert(entry_at(es[j], t, dir_entry_pos(off, j, ptr64), be, ptr64));
        }
    }
    if dir_resolvable(t, off, be, ptr64) {
        assert forall|j: int| 0 <= j < es.len() implies match #[trigger] es[j] {
            ValueOrPointer::Pointer { value_type, count, pointer, .. } => !(value_type is Other)
                && (count == 0 || pointer + spec_element_size(value_type) * count <= t.len()),
            _ => true,
        } by {
            assert(entry_at(es[j], t, dir_entry_pos(off, j, ptr64), be, ptr64));
            assert(entry_resolvable(t, dir_entry_pos(off, j, ptr64), be, ptr64));
        }
    }
}

/// An entry read off a directory is never a pending pointer of unknown type.
proof fn lemma_no_other_pointer(es: Seq<ValueOrPointer>, t: Seq<u8>, off: int, be: bool, ptr64: bool)
    requires
        dir_entries_at(es, t, off, be, ptr64),
    ensures
        forall|j: int| 0 <= j < es.len() ==> (#[trigger] es[j] matches ValueOrPointer::Pointer {
            value_type,
            ..
        } ==> !(value_type is Other)),
{
    reveal(entry_at);
    assert forall|j: int| 0 <= j < es.len() implies (#[trigger] es[j]
        matches ValueOrPointer::Pointer { value_type, .. } ==> !(value_type is Other)) by {
        assert(entry_at(es[j], t, dir_entry_pos(off, j, ptr64), be, ptr64));
    }
}

/// Raw entries plus a successful resolution pass give exactly the resolved
/// form of the directory.
proof fn lemma_resolved_dir(es: Seq<ValueOrPointer>, out: Seq<ValueOrPointer>, t: Seq<u8>, off: int, be: bool, ptr64: bool)
    requires
        dir_entries_at(es, t, off, be, ptr64),
        resolves_to(es, out, t, be),
    ensures
        resolved_dir_at(out, t, off, be, ptr64),
{
    reveal(entry_at);
    reveal(resolved_entry_at);
    assert forall|j: int| 0 <= j < out.len() implies resolved_entry_at(
        #[trigger] out[j], t, dir_entry_pos(off, j, ptr64), be, ptr64) by {
        assert(entry_at(es[j], t, dir_entry_pos(off, j, ptr64), be, ptr64));
        let kind = entry_kind(t, dir_entry_pos(off, j, ptr64), be);
        let count = entry_count(t, dir_entry_pos(off, j, ptr64), be);
        if kind is Other {
            assert(out[j] == es[j]);
        } else if spec_element_size(kind) * count > offset_width(ptr64) {
        } else {
            assert(out[j] == es[j]);
        }
    }
}

impl Reader {
    /// Decodes the TIFF header and positions the reader at the first
    /// directory.
    pub(crate) fn new(data: &[u8]) -> (res: Result<Reader, crate::jpeg::Error>)
        ensures
            res is Ok <==> header_ok(data@),
            res matches Ok(r) ==> r.big_endian == header_be(data@)
                && r.ptr64 == (header_version(data@) == 43)
                && r.pos == header_dir_offset(data@),
            res matches Err(e) ==> header_err_matches(data@, e),
    {
        if data.len() < 2 {
            return Err(crate::jpeg::Error::UnexpectedEndOfStream);
        }
        let b0 = data[0];
        let b1 = data[1];
        let big_endian: bool;
        if b0 == 0x4D && b1 == 0x4D {
            // MM (Motorola Motorola)
            big_endian = true;
        } else if b0 == 0x49 && b1 == 0x49 {
            // II (Intel Intel)
            big_endian = false;
        } else {
            return Err(crate::jpeg::Error::Exif(Error::ByteOrderIndicator {
                bytes: [b0, b1],
            }));
        }
        let mut tiff_reader = Reader { pos: 2, big_endian, ptr64: false };

        let version = match tiff_reader.read_u16(data) {
            Ok(v) => v,
            Err(e) => {
                return Err(e);
            },
        };
        if version == 42 {
            // standard TIFF
        } else if version == 43 {
            // BigTIFF
            tiff_reader.ptr64 = true;
        } else {
            return Err(crate::jpeg::Error::Exif(Error::Version { version }));
        }

        if tiff_reader.ptr64 {
            // BigTIFF has a few more fields in the header
            let pointer_size = match tiff_reader.read_u16(data) {
                Ok(v) => v,
                Err(e) => {
                    return Err(e);
                },
            };
            if pointer_size != 8 {
                return Err(crate::jpeg::Error::Exif(Error::BigPointerSize { size: pointer_size }));
            }
            let reserved = match tiff_reader.read_u16(data) {
                Ok(v) => v,
                Err(e) => {
                    return Err(e);
                },
            };
            if reserved != 0 {
                return Err(crate::jpeg::Error::Exif(Error::BigReserved { value: reserved }));
            }
        }

        // where is the first directory? go there
        let dir_offset = match tiff_reader.read_offset(data) {
            Ok(v) => v,
            Err(e) => {
                return Err(e);
            },
        };
        tiff_reader.seek(dir_offset);

        Ok(tiff_reader)
    }
}

/// The first entry of `es` that carries the given tag and has been resolved to
/// values; entries with the tag that are still pending or of unknown type are
/// passed over.
pub open spec fn first_resolved_with_tag(es: Seq<ValueOrPointer>, tag: u16) -> Option<Values>
    decreases es.len(),
{
    if es.len() == 0 {
        None
    } else {
        match es[0] {
            ValueOrPointer::Value { tag: t, values } => if t == tag {
                Some(values)
            } else {
                first_resolved_with_tag(es.skip(1), tag)
            },
            _ => first_resolved_with_tag(es.skip(1), tag),
        }
    }
}

/// The integer-truncating quotient of a resolved value that is exactly one
/// unsigned rational with a nonzero denominator; anything else is unusable.
pub open spec fn single_rational_quotient(v: Values) -> Option<int> {
    match v {
        Values::Rational(vals) => if vals@.len() == 1 && vals@[0].1 != 0 {
            Some(vals@[0].0 as int / vals@[0].1 as int)
        } else {
            None
        },
        _ => None,
    }
}

/// The X resolution derived from a directory: tag 0x011A if present as exactly
/// one usable rational whose quotient fits 16 bits, else 72.
pub open spec fn spec_x_resolution(es: Seq<ValueOrPointer>) -> u16 {
    match first_resolved_with_tag(es, 0x011A) {
        Some(v) => match single_rational_quotient(v) {
            Some(q) => if 0 <= q <= 0xFFFF {
                q as u16
            } else {
                72
            },
            None => 72,
        },
        None => 72,
    }
}

/// The Y resolution derived from a directory: tag 0x011B under the same
/// single-rational constraint, else the X resolution.
pub open spec fn spec_y_resolution(es: Seq<ValueOrPointer>) -> u16 {
    match first_resolved_with_tag(es, 0x011B) {
        Some(v) => match single_rational_quotient(v) {
            Some(q) => if 0 <= q <= 0xFFFF {
                q as u16
            } else {
                spec_x_resolution(es)
            },
            None => spec_x_resolution(es),
        },
        None => spec_x_resolution(es),
    }
}

/// The resolution unit code derived from a directory: tag 0x0128 if present as
/// exactly one short, else 2.
pub open spec fn spec_resolution_unit_code(es: Seq<ValueOrPointer>) -> u16 {
    match first_resolved_with_tag(es, 0x0128) {
        Some(v) => match v {
            Values::Short(vals) => if vals@.len() == 1 {
                vals@[0]
            } else {
                2
            },
            _ => 2,
        },
        None => 2,
    }
}

/// The resolution unit derived from a directory: code 3 means dots per
/// centimeter, anything else (or an absent or unusable tag) dots per inch.
pub open spec fn spec_resolution_unit(es: Seq<ValueOrPointer>) -> crate::jpeg::DensityUnit {
    if spec_resolution_unit_code(es) == 3 {
        crate::jpeg::DensityUnit::DotsPerCentimeter
    } else {
        crate::jpeg::DensityUnit::DotsPerInch
    }
}

proof fn lemma_first_resolved_skip(es: Seq<ValueOrPointer>, tag: u16, i: int)
    requires
        0 <= i <= es.len(),
        forall|k: int| 0 <= k < i ==> !(#[trigger] es[k] matches ValueOrPointer::Value {
            tag: t,
            ..
        } && t == tag),
    ensures
        first_resolved_with_tag(es, tag) == first_resolved_with_tag(es.skip(i), tag),
    decreases i,
{
    if i == 0 {
        assert(es.skip(0) =~= es);
    } else {
        assert(!(es[0] matches ValueOrPointer::Value { tag: t, .. } && t == tag));
        assert(first_resolved_with_tag(es, tag) == first_resolved_with_tag(es.skip(1), tag));
        assert forall|k: int| 0 <= k < i - 1 implies !(#[trigger] es.skip(1)[k]
            matches ValueOrPointer::Value { tag: t, .. } && t == tag) by {
            assert(es.skip(1)[k] == es[k + 1]);
        }
        lemma_first_resolved_skip(es.skip(1), tag, i - 1);
        assert(es.skip(1).skip(i - 1) =~= es.skip(i));
    }
}

/// The first resolved entry with the given tag, if any.
#[verifier::loop_isolation(false)]
pub fn find_first_value(entries: &Vec<ValueOrPointer>, tag: u16) -> (r: Option<&Values>)
    ensures
        r is Some <==> first_resolved_with_tag(entries@, tag) is Some,
        r matches Some(v) ==> Some(*v) == first_resolved_with_tag(entries@, tag),
{
    let n = entries.len();
    let mut i: usize = 0;
    while i < n
        invariant
            i <= n,
            forall|k: int| 0 <= k < i ==> !(#[trigger] entries@[k] matches ValueOrPointer::Value {
                tag: t,
                ..
            } && t == tag),
        decreases n - i,
    {
        match &entries[i] {
            ValueOrPointer::Value { tag: t, values } => {
                if *t == tag {
                    proof {
                        lemma_first_resolved_skip(entries@, tag, i as int);
                        assert(entries@.skip(i as int)[0] == entries@[i as int]);
                    }
                    return Some(values);
                }
            },
            _ => {},
        }
        i = i + 1;
    }
    proof {
        lemma_first_resolved_skip(entries@, tag, n as int);
        assert(entries@.skip(n as int).len() == 0);
    }
    None
}

/// Derives the density fields from the entries of the first directory and
/// records them in the builder; every other builder field is left untouched.
pub fn derive_density(entries: &Vec<ValueOrPointer>, builder: &mut crate::jpeg::ImageBuilder)
    ensures
        final(builder).density_x == Some(spec_x_resolution(entries@)),
        final(builder).density_y == Some(spec_y_resolution(entries@)),
        final(builder).density_unit == Some(spec_resolution_unit(entries@)),
        final(builder).bit_depth == old(builder).bit_depth,
        final(builder).width == old(builder).width,
        final(builder).height == old(builder).height,
        final(builder).color_space == old(builder).color_space,
        final(builder).leading_blocks == old(builder).leading_blocks,
        final(builder).image_data == old(builder).image_data,
        final(builder).trailing_blocks == old(builder).trailing_blocks,
{
    // do we have an X resolution? fall back to 72 if not
    let x_resolution: u16 = match find_first_value(entries, 0x011A) {
        Some(v) => match v {
            Values::Rational(vals) => {
                if vals.len() == 1 {
                    let numerator = vals[0].0;
                    let denominator = vals[0].1;
                    if denominator != 0 {
                        let q = numerator / denominator;
                        if q <= 0xFFFF {
                            q as u16
                        } else {
                            72
                        }
                    } else {
                        72
                    }
                } else {
                    72
                }
            },
            _ => 72,
        },
        None => 72,
    };

    // do we have a Y resolution? fall back to the X resolution if not
    let y_resolution: u16 = match find_first_value(entries, 0x011B) {
        Some(v) => match v {
            Values::Rational(vals) => {
                if vals.len() == 1 {
                    let numerator = vals[0].0;
                    let denominator = vals[0].1;
                    if denominator != 0 {
                        let q = numerator / denominator;
                        if q <= 0xFFFF {
                            q as u16
                        } else {
                            x_resolution
                        }
                    } else {
                        x_resolution
                    }
                } else {
                    x_resolution
                }
            },
            _ => x_resolution,
        },
        None => x_resolution,
    };

    // find the unit (fall back to inches)
    let unit: u16 = match find_first_value(entries, 0x0128) {
        Some(v) => match v {
            Values::Short(vals) => {
                if vals.len() == 1 {
                    vals[0]
                } else {
                    2
                }
            },
            _ => 2,
        },
        None => 2,
    };

    builder.density_x = Some(x_resolution);
    builder.density_y = Some(y_resolution);
    builder.density_unit = Some(if unit == 3 {
        crate::jpeg::DensityUnit::DotsPerCentimeter
    } else {
        crate::jpeg::DensityUnit::DotsPerInch
    });
}

impl Reader {
    /// Reads one directory: its entry count, every declared entry with
    /// pointers still pending, and the stored offset of the next directory.
    #[verifier::loop_isolation(false)]
    pub(crate) fn parse_directory(&mut self, data: &[u8]) -> (res: Result<
        (Vec<ValueOrPointer>, u64),
        crate::jpeg::Error,
    >)
        ensures
            final(self).big_endian == old(self).big_endian,
            final(self).ptr64 == old(self).ptr64,
            res is Ok <==> dir_ok(data@, old(self).pos as int, old(self).big_endian,
                old(self).ptr64),
            res matches Ok(r) ==> dir_entries_at(r.0@, data@, old(self).pos as int,
                old(self).big_endian, old(self).ptr64) && r.1 as int == dir_next(
                data@, old(self).pos as int, old(self).big_endian, old(self).ptr64),
            res matches Err(e) ==> e is UnexpectedEndOfStream,
    {
        let ghost t = data@;
        let ghost off = self.pos as int;
        let ghost be = self.big_endian;
        let ghost p64 = self.ptr64;

        // how many entries does this directory have?
        let ifd_entry_count = match self.read_ifd_entry_count(data) {
            Ok(c) => c,
            Err(e) => {
                return Err(e);
            },
        };
        let ghost n = dir_count(t, off, be, p64);
        proof {
            assert(ifd_entry_count as int == n);
        }

        // run through them, collecting the values
        let mut values: Vec<ValueOrPointer> = Vec::new();
        let mut j: u64 = 0;
        while j < ifd_entry_count
            invariant
                self.big_endian == be,
                self.ptr64 == p64,
                j <= ifd_entry_count,
                values@.len() == j,
                self.pos as int == dir_entry_pos(off, j as int, p64),
                forall|m: int| 0 <= m < j ==> entry_at(#[trigger] values@[m], t, dir_entry_pos(
                    off, m, p64), be, p64),
            decreases ifd_entry_count - j,
        {
            let ghost p = self.pos as int;
            let tag = match self.read_u16(data) {
                Ok(v) => v,
                Err(e) => {
                    proof {
                        lemma_entry_pos_step(off, j as int, p64);
                        lemma_entry_pos_le(off, j as int + 1, n, p64);
                    }
                    return Err(e);
                },
            };
            let kind = match self.read_type(data) {
                Ok(v) => v,
                Err(e) => {
                    proof {
                        lemma_entry_pos_step(off, j as int, p64);
                        lemma_entry_pos_le(off, j as int + 1, n, p64);
                    }
                    return Err(e);
                },
            };
            let count = match self.read_u32(data) {
                Ok(v) => v,
                Err(e) => {
                    proof {
                        lemma_entry_pos_step(off, j as int, p64);
                        lemma_entry_pos_le(off, j as int + 1, n, p64);
                    }
                    return Err(e);
                },
            };
            let value_or_pointer = match self.read_value_or_pointer(data, tag, kind, count) {
                Ok(v) => v,
                Err(e) => {
                    proof {
                        lemma_entry_pos_step(off, j as int, p64);
                        lemma_entry_pos_le(off, j as int + 1, n, p64);
                    }
                    return Err(e);
                },
            };
            values.push(value_or_pointer);
            j = j + 1;
            proof {
                reveal(entry_at);
                lemma_entry_pos_step(off, j as int - 1, p64);
                lemma_entry_pos_le(off, j as int, n, p64);
                assert(entry_at(value_or_pointer, t, p, be, p64));
            }
        }

        // the next value is the pointer to the next directory
        let next = match self.read_offset(data) {
            Ok(v) => v,
            Err(e) => {
                return Err(e);
            },
        };
        Ok((values, next))
    }

    /// Runs the resolution pass over one directory's entries: seeks to each
    /// pending entry's stored offset and decodes its values there, keeping
    /// every other entry as it stands.
    #[verifier::loop_isolation(false)]
    pub(crate) fn resolve_entries(&mut self, data: &[u8], entries: Vec<ValueOrPointer>) -> (res: Result<
        Vec<ValueOrPointer>,
        crate::jpeg::Error,
    >)
        ensures
            final(self).big_endian == old(self).big_endian,
            final(self).ptr64 == old(self).ptr64,
            res is Ok <==> entries_resolvable(entries@, data@),
            res matches Ok(out) ==> resolves_to(entries@, out@, data@, old(self).big_endian),
            res matches Err(e) ==> ((forall|j: int| 0 <= j < entries@.len()
                ==> (#[trigger] entries@[j] matches ValueOrPointer::Pointer { value_type, .. }
                    ==> !(value_type is Other))) ==> e is UnexpectedEndOfStream),
    {
        let ghost t = data@;
        let ghost be = self.big_endian;
        let ghost es0 = entries@;

        let mut rest = entries;
        let mut out: Vec<ValueOrPointer> = Vec::new();
        while rest.len() > 0
            invariant
                self.big_endian == be,
                self.ptr64 == old(self).ptr64,
                out@.len() + rest@.len() == es0.len(),
                rest@ == es0.skip(out@.len() as int),
                forall|j: int| 0 <= j < out@.len() ==> match #[trigger] es0[j] {
                    ValueOrPointer::Pointer { tag, value_type, count, pointer } => !(value_type
                        is Other) && (count == 0 || pointer + spec_element_size(value_type)
                        * count <= t.len()) && (out@[j] matches ValueOrPointer::Value {
                        tag: tg,
                        values,
                    } && tg == tag && values_match(values, value_type, count as int, t,
                        pointer as int, be)),
                    _ => out@[j] == es0[j],
                },
            decreases rest@.len(),
        {
            let ghost k = out@.len() as int;
            let entry = rest.remove(0);
            proof {
                assert(entry == es0[k]);
                assert(rest@ =~= es0.skip(k + 1));
            }
            match entry {
                ValueOrPointer::Pointer { tag, value_type, count, pointer } => {
                    self.seek(pointer);
                    let vals = match self.read_values(data, value_type, count) {
                        Ok(v) => v,
                        Err(e) => {
                            proof {
                                assert(!entries_resolvable(es0, t));
                            }
                            return Err(e);
                        },
                    };
                    out.push(ValueOrPointer::Value { tag, values: vals });
                },
                other => {
                    out.push(other);
                },
            }
        }
        Ok(out)
    }
}

/// The bytes that announce an Exif payload inside an APP1 block.
pub open spec fn exif_magic() -> Seq<u8> {
    seq![0x45u8, 0x78u8, 0x69u8, 0x66u8, 0x00u8, 0x00u8]
}

impl Reader {
    /// Walks the whole directory chain, materializing every directory's
    /// entries with pointers still pending, together with the offsets the
    /// walk visited.
    #[verifier::loop_isolation(false)]
    #[verifier::rlimit(100)]
    pub(crate) fn parse_chain(&mut self, data: &[u8]) -> (res: Result<
        (Vec<Vec<ValueOrPointer>>, Ghost<Seq<int>>),
        crate::jpeg::Error,
    >)
        requires
            old(self).big_endian == header_be(data@),
            old(self).ptr64 == (header_version(data@) == 43),
            old(self).pos as int == header_dir_offset(data@),
        ensures
            final(self).big_endian == old(self).big_endian,
            final(self).ptr64 == old(self).ptr64,
            res matches Err(e) ==> e is UnexpectedEndOfStream,
            res is Err ==> !(exists|o: Seq<int>| chain_offsets_ok(data@, o,
                old(self).big_endian, old(self).ptr64)),
            res matches Ok(r) ==> chain_links_ok(data@, r.1@, old(self).big_endian,
                old(self).ptr64) && r.1@.len() <= data@.len() + 1 && r.0@.len() == r.1@.len()
                && (forall|m: int| 0 <= m < r.1@.len() ==> dir_ok(data@, #[trigger] r.1@[m],
                    old(self).big_endian, old(self).ptr64))
                && (forall|m: int| 0 <= m < r.1@.len() ==> dir_entries_at((#[trigger] r.0@[m])@,
                    data@, r.1@[m], old(self).big_endian, old(self).ptr64)),
    {
        let ghost t = data@;
        let ghost be = self.big_endian;
        let ghost p64 = self.ptr64;

        let mut ifds_values: Vec<Vec<ValueOrPointer>> = Vec::new();
        let ghost mut offs: Seq<int> = Seq::empty();

        loop
            invariant
                self.big_endian == be,
                self.ptr64 == p64,
                ifds_values@.len() == offs.len(),
                offs.len() <= t.len() + 1,
                forall|m: int| 0 <= m < offs.len() ==> dir_ok(t, #[trigger] offs[m], be, p64),
                forall|m: int| 0 <= m < offs.len() ==> dir_entries_at(
                    (#[trigger] ifds_values@[m])@, t, offs[m], be, p64),
                forall|m: int| 0 <= m < offs.len() - 1 ==> dir_next(t, #[trigger] offs[m], be,
                    p64) == offs[m + 1] && offs[m + 1] != 0,
                offs.len() > 0 ==> offs[0] == header_dir_offset(t),
                offs.len() == 0 ==> self.pos as int == header_dir_offset(t),
                offs.len() > 0 ==> dir_next(t, offs.last(), be, p64) == self.pos as int
                    && self.pos as int != 0,
            decreases t.len() + 1 - ifds_values@.len(),
        {
            // a chain of directories longer than the buffer itself must
            // revisit an offset, and a revisited offset reproduces itself
            // forever: such a chain can never end and is rejected
            let ghost cur = self.pos as int;
            let ghost walked = offs.push(cur);
            proof {
                assert(walked.last() == cur);
                assert forall|m: int| 0 <= m < walked.len() - 1 implies dir_next(
                    t, #[trigger] walked[m], be, p64) == walked[m + 1] && walked[m + 1] != 0 by {
                    assert(walked[m] == offs[m]);
                    if m < offs.len() - 1 {
                        assert(walked[m + 1] == offs[m + 1]);
                    } else {
                        assert(walked[m + 1] == cur);
                    }
                }
                assert(chain_prefix_ok(t, walked, be, p64));
            }
            if ifds_values.len() > data.len() {
                proof {
                    assert(!(exists|o: Seq<int>| chain_offsets_ok(t, o, be, p64))) by {
                        if exists|o: Seq<int>| chain_offsets_ok(t, o, be, p64) {
                            let o = choose|o: Seq<int>| chain_offsets_ok(t, o, be, p64);
                            lemma_chain_prefix_position(t, walked, o, be, p64,
                                walked.len() - 1);
                            assert(o.len() <= t.len() + 1);
                            assert(false);
                        }
                    }
                }
                return Err(crate::jpeg::Error::UnexpectedEndOfStream);
            }

            let (values, next_ifd_offset) = match self.parse_directory(data) {
                Ok(r) => r,
                Err(e) => {
                    proof {
                        assert(!(exists|o: Seq<int>| chain_offsets_ok(t, o, be, p64))) by {
                            if exists|o: Seq<int>| chain_offsets_ok(t, o, be, p64) {
                                let o = choose|o: Seq<int>| chain_offsets_ok(t, o, be, p64);
                                lemma_chain_prefix_position(t, walked, o, be, p64,
                                    walked.len() - 1);
                                assert(o[walked.len() - 1] == cur);
                                assert(dir_ok(t, o[walked.len() - 1], be, p64));
                                assert(false);
                            }
                        }
                    }
                    return Err(e);
                },
            };
            ifds_values.push(values);
            proof {
                let ghost old_offs = offs;
                offs = offs.push(cur);
                assert(offs.last() == cur);
                assert forall|m: int| 0 <= m < offs.len() implies dir_ok(
                    t, #[trigger] offs[m], be, p64) && dir_entries_at(
                    ifds_values@[m]@, t, offs[m], be, p64) by {
                    if m < old_offs.len() {
                        assert(offs[m] == old_offs[m]);
                    }
                }
                assert forall|m: int| 0 <= m < offs.len() - 1 implies dir_next(
                    t, #[trigger] offs[m], be, p64) == offs[m + 1] && offs[m + 1] != 0 by {
                    if m < old_offs.len() - 1 {
                        assert(offs[m] == old_offs[m]);
                        assert(offs[m + 1] == old_offs[m + 1]);
                    }
                }
            }
            if next_ifd_offset == 0 {
                proof {
                    assert(dir_next(t, offs.last(), be, p64) == 0);
                }
                break;
            }
            self.seek(next_ifd_offset);
        }
        proof {
            assert(chain_links_ok(t, offs, be, p64));
        }
        Ok((ifds_values, Ghost(offs)))
    }

    /// Runs the resolution pass over every directory of the chain.
    #[verifier::loop_isolation(false)]
    #[verifier::rlimit(100)]
    pub(crate) fn resolve_chain(
        &mut self,
        data: &[u8],
        dirs: Vec<Vec<ValueOrPointer>>,
        Ghost(offs): Ghost<Seq<int>>,
    ) -> (res: Result<Vec<Vec<ValueOrPointer>>, crate::jpeg::Error>)
        requires
            chain_links_ok(data@, offs, old(self).big_endian, old(self).ptr64),
            dirs@.len() == offs.len(),
            forall|m: int| 0 <= m < offs.len() ==> dir_ok(data@, #[trigger] offs[m],
                old(self).big_endian, old(self).ptr64),
            forall|m: int| 0 <= m < offs.len() ==> dir_entries_at((#[trigger] dirs@[m])@, data@,
                offs[m], old(self).big_endian, old(self).ptr64),
        ensures
            final(self).big_endian == old(self).big_endian,
            final(self).ptr64 == old(self).ptr64,
            res matches Err(e) ==> e is UnexpectedEndOfStream,
            res is Err ==> !(exists|o: Seq<int>| chain_offsets_ok(data@, o,
                old(self).big_endian, old(self).ptr64)),
            res matches Ok(out) ==> (forall|m: int| 0 <= m < offs.len() ==> dir_resolvable(
                data@, #[trigger] offs[m], old(self).big_endian, old(self).ptr64))
                && out@.len() == dirs@.len() && (out@.len() > 0 ==> resolves_to(
                dirs@[0]@, out@[0]@, data@, old(self).big_endian)),
    {
        let ghost t = data@;
        let ghost be = self.big_endian;
        let ghost p64 = self.ptr64;
        let ghost dirs0 = dirs@;

        let mut remaining = dirs;
        let mut resolved: Vec<Vec<ValueOrPointer>> = Vec::new();
        while remaining.len() > 0
            invariant
                self.big_endian == be,
                self.ptr64 == p64,
                resolved@.len() + remaining@.len() == dirs0.len(),
                remaining@ == dirs0.skip(resolved@.len() as int),
                forall|m: int| 0 <= m < resolved@.len() ==> entries_resolvable(
                    (#[trigger] dirs0[m])@, t),
                forall|m: int| 0 <= m < resolved@.len() ==> resolves_to(
                    dirs0[m]@, (#[trigger] resolved@[m])@, t, be),
            decreases remaining@.len(),
        {
            let ghost k = resolved@.len() as int;
            let ifd = remaining.remove(0);
            proof {
                assert(ifd == dirs0[k]);
                assert(remaining@ =~= dirs0.skip(k + 1));
            }
            let new_entries = match self.resolve_entries(data, ifd) {
                Ok(v) => v,
                Err(e) => {
                    proof {
                        lemma_no_other_pointer(dirs0[k]@, t, offs[k], be, p64);
                        lemma_entries_resolvable_bytes(dirs0[k]@, t, offs[k], be, p64);
                        assert(!(exists|o: Seq<int>| chain_offsets_ok(t, o, be, p64))) by {
                            if exists|o: Seq<int>| chain_offsets_ok(t, o, be, p64) {
                                let o = choose|o: Seq<int>| chain_offsets_ok(t, o, be, p64);
                                lemma_chain_links_unique(t, o, offs, be, p64);
                                assert(dir_resolvable(t, offs[k], be, p64));
                                assert(false);
                            }
                        }
                    }
                    return Err(e);
                },
            };
            resolved.push(new_entries);
        }
        proof {
            assert forall|m: int| 0 <= m < offs.len() implies dir_resolvable(
                t, #[trigger] offs[m], be, p64) by {
                lemma_entries_resolvable_bytes(dirs0[m]@, t, offs[m], be, p64);
            }
        }
        Ok(resolved)
    }
}

/// Parses the TIFF buffer embedded in an Exif APP1 payload and records the
/// derived density fields in the builder.
///
/// The buffer behind the six announcement bytes is the TIFF buffer. Its
/// directory chain is materialized first, pointers still pending; a dedicated
/// resolution pass then seeks to each stored offset. Only the first directory
/// (the image itself, as opposed to a thumbnail) contributes metadata: the
/// stored density fields are exactly the derivation over its resolved
/// entries.
#[verifier::rlimit(100)]
pub fn process(app1_data: &[u8], builder: &mut crate::jpeg::ImageBuilder) -> (res: Result<
    (),
    crate::jpeg::Error,
>)
    requires
        app1_data@.len() >= 6,
        app1_data@.subrange(0, 6) == exif_magic(),
    ensures
        res is Ok <==> process_ok(app1_data@),
        res is Ok ==> (exists|dir0: Seq<ValueOrPointer>| resolved_dir_at(
            dir0,
            app1_data@.skip(6),
            header_dir_offset(app1_data@.skip(6)),
            header_be(app1_data@.skip(6)),
            header_version(app1_data@.skip(6)) == 43,
        ) && final(builder).density_x == Some(spec_x_resolution(dir0))
            && final(builder).density_y == Some(spec_y_resolution(dir0))
            && final(builder).density_unit == Some(spec_resolution_unit(dir0))),
        res is Ok ==> final(builder).density_unit is Some && final(builder).density_x is Some
            && final(builder).density_y is Some,
        final(builder).bit_depth == old(builder).bit_depth,
        final(builder).width == old(builder).width,
        final(builder).height == old(builder).height,
        final(builder).color_space == old(builder).color_space,
        final(builder).leading_blocks == old(builder).leading_blocks,
        final(builder).image_data == old(builder).image_data,
        final(builder).trailing_blocks == old(builder).trailing_blocks,
        res is Err ==> *final(builder) == *old(builder),
        res matches Err(e) ==> (if header_ok(app1_data@.skip(6)) {
            e is UnexpectedEndOfStream
        } else {
            header_err_matches(app1_data@.skip(6), e)
        }),
{
    let exif_tiff: &[u8] = &app1_data[6..app1_data.len()];
    proof {
        assert(exif_tiff@ =~= app1_data@.skip(6));
    }
    let ghost t = exif_tiff@;
    let mut tiff = match Reader::new(exif_tiff) {
        Ok(r) => r,
        Err(e) => {
            return Err(e);
        },
    };
    let ghost be = tiff.big_endian;
    let ghost p64 = tiff.ptr64;

    let (ifds_values, offs) = match tiff.parse_chain(exif_tiff) {
        Ok(r) => r,
        Err(e) => {
            return Err(e);
        },
    };
    let ghost offs_g = offs@;
    let ghost dirs_g = ifds_values@;

    // dereference the pointers
    let resolved = match tiff.resolve_chain(exif_tiff, ifds_values, offs) {
        Ok(r) => r,
        Err(e) => {
            return Err(e);
        },
    };

    // the chain, its entries, and every pointer resolution succeeded: the
    // whole buffer parses
    proof {
        assert(chain_offsets_ok(t, offs_g, be, p64));
        assert(process_ok(app1_data@));
        lemma_resolved_dir(dirs_g[0]@, resolved@[0]@, t, offs_g[0], be, p64);
    }

    // process what we know: the first directory is the image itself, the
    // second a thumbnail, so all but the first are ignored
    derive_density(&resolved[0], builder);
    proof {
        assert(resolved_dir_at(resolved@[0]@, t, header_dir_offset(t), be, p64));
    }
    Ok(())
}

/// No entry of `es` carries the given tag at all.
pub open spec fn tag_absent(es: Seq<ValueOrPointer>, tag: u16) -> bool {
    forall|k: int| 0 <= k < es.len() ==> spec_entry_tag(#[trigger] es[k]) != tag
}

proof fn lemma_tag_absent_none(es: Seq<ValueOrPointer>, tag: u16)
    requires
        tag_absent(es, tag),
    ensures
        first_resolved_with_tag(es, tag) is None,
    decreases es.len(),
{
    if es.len() > 0 {
        assert(spec_entry_tag(es[0]) != tag);
        assert forall|k: int| 0 <= k < es.skip(1).len()
            implies spec_entry_tag(#[trigger] es.skip(1)[k]) != tag by {
            assert(es.skip(1)[k] == es[k + 1]);
        }
        lemma_tag_absent_none(es.skip(1), tag);
    }
}

/// Fallback law: a directory without tag 0x011A yields an X resolution of 72.
pub proof fn lemma_x_resolution_fallback(es: Seq<ValueOrPointer>)
    requires
        tag_absent(es, 0x011A),
    ensures
        spec_x_resolution(es) == 72,
{
    lemma_tag_absent_none(es, 0x011A);
}

/// Fallback law: a directory without tag 0x011B yields a Y resolution equal to
/// the resolved X resolution.
pub proof fn lemma_y_resolution_fallback(es: Seq<ValueOrPointer>)
    requires
        tag_absent(es, 0x011B),
    ensures
        spec_y_resolution(es) == spec_x_resolution(es),
{
    lemma_tag_absent_none(es, 0x011B);
}

/// Fallback law: a directory without tag 0x0128 yields dots per inch.
pub proof fn lemma_resolution_unit_fallback(es: Seq<ValueOrPointer>)
    requires
        tag_absent(es, 0x0128),
    ensures
        spec_resolution_unit(es) == crate::jpeg::DensityUnit::DotsPerInch,
{
    lemma_tag_absent_none(es, 0x0128);
}

/// Fallback law: a tag 0x0128 resolved to anything but exactly one short
/// yields dots per inch.
pub proof fn lemma_resolution_unit_multi_fallback(es: Seq<ValueOrPointer>)
    requires
        (first_resolved_with_tag(es, 0x0128) matches Some(v)
            && !(v matches Values::Short(vals) && vals@.len() == 1)),
    ensures
        spec_resolution_unit(es) == crate::jpeg::DensityUnit::DotsPerInch,
{
}

} // verus!
