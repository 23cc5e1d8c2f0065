//! The marker tokenizer: reading a JPEG byte stream one logical piece at a
//! time, so that a caller can forward or rewrite pieces without any loss.

use vstd::prelude::*;

verus! {

/// An unsigned 8-bit integer that cannot assume the two extreme values 0x00 and 0xFF.
///
/// Wherever a byte is known, by protocol, to be a genuine marker-type byte
/// (never a filler or escape byte), it is held in this type.
#[derive(Clone, Copy, Debug, Eq, Hash, Ord, PartialEq, PartialOrd)]
pub struct NonExtremeU8(u8);

impl NonExtremeU8 {
    /// Validating constructor: rejects the two excluded extreme values.
    pub fn try_from_u8(value: u8) -> (r: Result<Self, u8>)
        ensures
            r is Ok <==> (value != 0x00 && value != 0xFF),
            r matches Ok(t) ==> t.spec_u8() == value,
            r matches Err(e) ==> e == value,
    {
        if value == 0x00 || value == 0xFF {
            Err(value)
        } else {
            Ok(Self(value))
        }
    }

    /// The underlying byte.
    pub fn as_u8(&self) -> (r: u8)
        ensures
            r == self.spec_u8(),
    {
        self.0
    }

    /// The underlying byte, for specifications.
    pub closed spec fn spec_u8(self) -> u8 {
        self.0
    }
}

/// An error raised while tokenizing a JPEG byte stream.
#[derive(Clone, Copy, Debug, Eq, Hash, PartialEq, Structural)]
pub enum Error {
    /// The stream ended in the middle of a marker.
    UnexpectedEndOfStream,
    /// A marker's length field was below 2, too small to cover the length field itself.
    InvalidLength,
}

/// A piece of data read from a JPEG file.
#[derive(Clone, Debug, Eq, Hash, Ord, PartialEq, PartialOrd)]
pub enum JpegDataPiece {
    /// A marker that holds a value and encodes its length.
    MarkerWithLength {
        /// Number of redundant additional 0xFF bytes preceding the marker-type byte.
        additional_ff_count: usize,
        /// The type of the marker itself.
        marker_type: NonExtremeU8,
        /// The value of the marker.
        value: Vec<u8>,
    },
    /// A marker that does not hold a value.
    EmptyMarker {
        /// Number of redundant additional 0xFF bytes preceding the marker-type byte.
        additional_ff_count: usize,
        /// The type of the marker itself.
        marker_type: NonExtremeU8,
    },
    /// An 0xFF value that has been byte-stuffed into the entropy-coded data.
    ///
    /// This is encoded as a sequence of at least one 0xFF value followed by a 0x00 value.
    ByteStuffedFF {
        /// Number of redundant additional 0xFF bytes preceding the 0x00 byte.
        additional_ff_count: usize,
    },
    /// Data that is not a marker.
    EntropyCodedData {
        data: Vec<u8>,
    },
}

/// A sequence of `n` filler bytes (0xFF).
pub open spec fn repeat_ff(n: nat) -> Seq<u8> {
    Seq::new(n, |i: int| 0xFFu8)
}

/// Marker kinds that never carry a length field and payload.
pub open spec fn marker_is_lengthless(m: u8) -> bool {
    m == 0x01 || (0xD0 <= m && m <= 0xD9)
}

/// The exact wire encoding of one piece.
pub open spec fn piece_bytes(p: JpegDataPiece) -> Seq<u8> {
    match p {
        JpegDataPiece::MarkerWithLength { additional_ff_count, marker_type, value } =>
            seq![0xFFu8] + repeat_ff(additional_ff_count as nat) + seq![marker_type.spec_u8()]
                + seq![(((value@.len() + 2) / 256) as u8), (((value@.len() + 2) % 256) as u8)]
                + value@,
        JpegDataPiece::EmptyMarker { additional_ff_count, marker_type } =>
            seq![0xFFu8] + repeat_ff(additional_ff_count as nat) + seq![marker_type.spec_u8()],
        JpegDataPiece::ByteStuffedFF { additional_ff_count } =>
            seq![0xFFu8] + repeat_ff(additional_ff_count as nat) + seq![0x00u8],
        JpegDataPiece::EntropyCodedData { data } => data@,
    }
}

/// How many 0xFF bytes stand at the front of `s`.
pub open spec fn leading_ff_count(s: Seq<u8>) -> nat
    decreases s.len(),
{
    if s.len() == 0 || s[0] != 0xFF {
        0
    } else {
        1 + leading_ff_count(s.skip(1))
    }
}

/// How many non-0xFF bytes stand at the front of `s`.
pub open spec fn entropy_run_len(s: Seq<u8>) -> nat
    decreases s.len(),
{
    if s.len() == 0 || s[0] == 0xFF {
        0
    } else {
        1 + entropy_run_len(s.skip(1))
    }
}

proof fn lemma_leading_ff_from_run(s: Seq<u8>, n: int)
    requires
        0 <= n <= s.len(),
        forall|i: int| 0 <= i < n ==> s[i] == 0xFF,
        n < s.len() ==> s[n] != 0xFF,
    ensures
        leading_ff_count(s) == n,
    decreases n,
{
    if n == 0 {
    } else {
        assert(s[0] == 0xFF);
        assert forall|i: int| 0 <= i < n - 1 implies s.skip(1)[i] == 0xFF by {
            assert(s.skip(1)[i] == s[i + 1]);
        }
        if n - 1 < s.skip(1).len() {
            assert(s.skip(1)[n - 1] == s[n]);
        }
        lemma_leading_ff_from_run(s.skip(1), n - 1);
    }
}

proof fn lemma_entropy_from_run(s: Seq<u8>, n: int)
    requires
        0 <= n <= s.len(),
        forall|i: int| 0 <= i < n ==> s[i] != 0xFF,
        n < s.len() ==> s[n] == 0xFF,
    ensures
        entropy_run_len(s) == n,
    decreases n,
{
    if n == 0 {
    } else {
        assert(s[0] != 0xFF);
        assert forall|i: int| 0 <= i < n - 1 implies s.skip(1)[i] != 0xFF by {
            assert(s.skip(1)[i] == s[i + 1]);
        }
        if n - 1 < s.skip(1).len() {
            assert(s.skip(1)[n - 1] == s[n]);
        }
        lemma_entropy_from_run(s.skip(1), n - 1);
    }
}

/// `p` is exactly the piece that stands at the front of the byte sequence `s`.
pub open spec fn piece_at(s: Seq<u8>, p: JpegDataPiece) -> bool {
    match p {
        JpegDataPiece::EntropyCodedData { data } =>
            s.len() > 0 && s[0] != 0xFF
                && data@.len() == entropy_run_len(s)
                && data@ == s.subrange(0, entropy_run_len(s) as int),
        JpegDataPiece::ByteStuffedFF { additional_ff_count } => {
            let f = additional_ff_count as int + 1;
            leading_ff_count(s) == f && f < s.len() && s[f] == 0x00
        },
        JpegDataPiece::EmptyMarker { additional_ff_count, marker_type } => {
            let f = additional_ff_count as int + 1;
            leading_ff_count(s) == f && f < s.len() && s[f] == marker_type.spec_u8()
                && marker_is_lengthless(marker_type.spec_u8())
        },
        JpegDataPiece::MarkerWithLength { additional_ff_count, marker_type, value } => {
            let f = additional_ff_count as int + 1;
            let m = marker_type.spec_u8();
            leading_ff_count(s) == f && f + 3 <= s.len() && s[f] == m
                && m != 0x00 && !marker_is_lengthless(m)
                && {
                    let l = (s[f + 1] as int) * 256 + (s[f + 2] as int);
                    l >= 2 && f + 1 + l <= s.len()
                        && value@.len() == l - 2
                        && value@ == s.subrange(f + 3, f + 1 + l)
                }
        },
    }
}

/// Whether the stream `s` begins with a complete, well-formed piece.
pub open spec fn next_piece_ok(s: Seq<u8>) -> bool {
    if s.len() == 0 {
        false
    } else if s[0] != 0xFF {
        true
    } else {
        let f = leading_ff_count(s) as int;
        if f >= s.len() {
            false
        } else {
            let m = s[f];
            if m == 0x00 || marker_is_lengthless(m) {
                true
            } else if f + 3 > s.len() {
                false
            } else {
                let l = (s[f + 1] as int) * 256 + (s[f + 2] as int);
                l >= 2 && f + 1 + l <= s.len()
            }
        }
    }
}

/// The error raised for a stream that does not begin with a complete piece.
pub open spec fn next_piece_err(s: Seq<u8>) -> Error {
    let f = leading_ff_count(s) as int;
    if s.len() > 0 && s[0] == 0xFF && f + 3 <= s.len() && s[f] != 0x00
        && !marker_is_lengthless(s[f]) && ((s[f + 1] as int) * 256 + (s[f + 2] as int) < 2) {
        Error::InvalidLength
    } else {
        Error::UnexpectedEndOfStream
    }
}

/// Wrapper that makes an in-memory byte source peekable: the next byte can be
/// inspected without being consumed.
pub struct PeekWrapper<'a> {
    data: &'a [u8],
    pos: usize,
}

impl<'a> PeekWrapper<'a> {
    /// The reader's position never lies beyond the end of its data.
    pub closed spec fn wf(self) -> bool {
        self.pos as int <= self.data@.len()
    }

    /// The bytes that have not been consumed yet.
    pub closed spec fn remaining(self) -> Seq<u8> {
        self.data@.skip(self.pos as int)
    }

    /// The unconsumed bytes always fit a slice, whose length fits a `usize`.
    pub proof fn lemma_remaining_len(&self)
        requires
            self.wf(),
        ensures
            self.remaining().len() <= usize::MAX,
    {
        assert(self.data@.len() == vstd::slice::spec_slice_len(self.data) as int);
    }

    pub fn new(data: &'a [u8]) -> (r: PeekWrapper<'a>)
        ensures
            r.wf(),
            r.remaining() == data@,
    {
        let r = Self { data, pos: 0 };
        proof {
            assert(r.remaining() =~= data@);
        }
        r
    }

    /// The next byte, if any, without consuming it.
    pub fn peek(&self) -> (r: Option<u8>)
        requires
            self.wf(),
        ensures
            self.remaining().len() == 0 ==> r is None,
            self.remaining().len() > 0 ==> r == Some(self.remaining()[0]),
    {
        if self.pos < self.data.len() {
            Some(self.data[self.pos])
        } else {
            None
        }
    }

    /// The next byte, if any, consuming it.
    pub fn read_byte(&mut self) -> (r: Option<u8>)
        requires
            old(self).wf(),
        ensures
            final(self).wf(),
            old(self).remaining().len() == 0 ==> r is None && *final(self) == *old(self),
            old(self).remaining().len() > 0 ==> r == Some(old(self).remaining()[0])
                && final(self).remaining() == old(self).remaining().skip(1),
    {
        if self.pos < self.data.len() {
            let b = self.data[self.pos];
            self.pos = self.pos + 1;
            proof {
                assert(self.remaining() =~= old(self).remaining().skip(1));
            }
            Some(b)
        } else {
            None
        }
    }
}

/// Reads the next piece from the stream, consuming exactly its encoding.
///
/// An entropy-coded run is accumulated greedily until the next byte (peeked,
/// not consumed) is 0xFF or the stream ends; the terminating 0xFF, if any, is
/// left unconsumed for the following call.
#[verifier::loop_isolation(false)]
pub fn read_next(reader: &mut PeekWrapper) -> (res: Result<JpegDataPiece, Error>)
    requires
        old(reader).wf(),
    ensures
        final(reader).wf(),
        res is Ok <==> next_piece_ok(old(reader).remaining()),
        res matches Ok(p) ==> piece_at(old(reader).remaining(), p)
            && old(reader).remaining() == piece_bytes(p) + final(reader).remaining(),
        res matches Err(e) ==> e == next_piece_err(old(reader).remaining()),
{
    let ghost s0 = reader.remaining();
    proof {
        reader.lemma_remaining_len();
        assert(s0.len() <= usize::MAX);
    }

    let byte = match reader.read_byte() {
        Some(b) => b,
        None => {
            return Err(Error::UnexpectedEndOfStream);
        },
    };

    if byte == 0xFF {
        // marker: count further filler bytes, then dispatch on the marker type
        let mut ffc: usize = 0;
        loop
            invariant
                reader.wf(),
                ffc + 1 <= s0.len(),
                forall|i: int| 0 <= i < ffc + 1 ==> s0[i] == 0xFF,
                reader.remaining() == s0.skip(ffc as int + 1),
            decreases s0.len() - ffc,
        {
            let next_byte = match reader.read_byte() {
                Some(b) => b,
                None => {
                    proof {
                        assert(s0.skip(ffc as int + 1).len() == 0);
                        assert(ffc + 1 == s0.len());
                        lemma_leading_ff_from_run(s0, s0.len() as int);
                    }
                    return Err(Error::UnexpectedEndOfStream);
                },
            };
            proof {
                assert(s0.skip(ffc as int + 1).len() > 0);
                assert(ffc as int + 2 <= s0.len());
                assert(s0.skip(ffc as int + 1)[0] == s0[ffc as int + 1]);
                assert(next_byte == s0[ffc as int + 1]);
                assert(reader.remaining() =~= s0.skip(ffc as int + 2));
            }
            if next_byte == 0xFF {
                ffc = ffc + 1;
            } else {
                let ghost f = ffc as int + 1;
                proof {
                    lemma_leading_ff_from_run(s0, f);
                }
                if next_byte == 0x00 {
                    // stuffed byte
                    let p = JpegDataPiece::ByteStuffedFF { additional_ff_count: ffc };
                    proof {
                        assert(s0 =~= piece_bytes(p) + reader.remaining());
                    }
                    return Ok(p);
                }
                if next_byte == 0x01 || (0xD0 <= next_byte && next_byte <= 0xD9) {
                    // data-less marker
                    let marker_type = match NonExtremeU8::try_from_u8(next_byte) {
                        Ok(t) => t,
                        Err(e) => {
                            proof {
                                assert(false);
                            }
                            return Err(Error::UnexpectedEndOfStream);
                        },
                    };
                    let p = JpegDataPiece::EmptyMarker { additional_ff_count: ffc, marker_type };
                    proof {
                        assert(s0 =~= piece_bytes(p) + reader.remaining());
                    }
                    return Ok(p);
                }
                // marker with length in the next two bytes
                let marker_type = match NonExtremeU8::try_from_u8(next_byte) {
                    Ok(t) => t,
                    Err(e) => {
                        proof {
                            assert(false);
                        }
                        return Err(Error::UnexpectedEndOfStream);
                    },
                };
                let hi = match reader.read_byte() {
                    Some(b) => b,
                    None => {
                        proof {
                            assert(s0.skip(f + 1).len() == 0);
                            assert(s0.len() == f + 1);
                        }
                        return Err(Error::UnexpectedEndOfStream);
                    },
                };
                proof {
                    assert(s0.skip(f + 1).len() > 0);
                    assert(s0.skip(f + 1)[0] == s0[f + 1]);
                    assert(hi == s0[f + 1]);
                    assert(reader.remaining() =~= s0.skip(f + 2));
                }
                let lo = match reader.read_byte() {
                    Some(b) => b,
                    None => {
                        proof {
                            assert(s0.skip(f + 2).len() == 0);
                            assert(s0.len() == f + 2);
                        }
                        return Err(Error::UnexpectedEndOfStream);
                    },
                };
                proof {
                    assert(s0.skip(f + 2).len() > 0);
                    assert(s0.skip(f + 2)[0] == s0[f + 2]);
                    assert(lo == s0[f + 2]);
                    assert(reader.remaining() =~= s0.skip(f + 3));
                }
                // the length must include the length value itself
                let length: usize = (hi as usize) * 256 + (lo as usize);
                if length < 2 {
                    return Err(Error::InvalidLength);
                }
                let data_len = length - 2;
                let mut value: Vec<u8> = Vec::new();
                proof {
                    assert(value@ =~= s0.subrange(f + 3, f + 3));
                }
                loop
                    invariant
                        reader.wf(),
                        value@.len() <= data_len,
                        data_len == length - 2,
                        length == (s0[f + 1] as int) * 256 + (s0[f + 2] as int),
                        2 <= length <= 0xFFFF,
                        f + 3 + value@.len() <= s0.len(),
                        value@ == s0.subrange(f + 3, f + 3 + value@.len()),
                        reader.remaining() == s0.skip(f + 3 + value@.len()),
                    decreases data_len - value@.len(),
                {
                    if value.len() >= data_len {
                        break;
                    }
                    let b = match reader.read_byte() {
                        Some(b) => b,
                        None => {
                            proof {
                                assert(s0.skip(f + 3 + value@.len()).len() == 0);
                                assert(s0.len() == f + 3 + value@.len());
                            }
                            return Err(Error::UnexpectedEndOfStream);
                        },
                    };
                    proof {
                        assert(s0.skip(f + 3 + value@.len()).len() > 0);
                        assert(s0.skip(f + 3 + value@.len())[0] == s0[f + 3 + value@.len()]);
                        assert(b == s0[f + 3 + value@.len()]);
                    }
                    value.push(b);
                    proof {
                        assert(value@ =~= s0.subrange(f + 3, f + 3 + value@.len()));
                        assert(reader.remaining() =~= s0.skip(f + 3 + value@.len()));
                    }
                }
                let p = JpegDataPiece::MarkerWithLength {
                    additional_ff_count: ffc,
                    marker_type,
                    value,
                };
                proof {
                    assert(s0 =~= piece_bytes(p) + reader.remaining());
                }
                return Ok(p);
            }
        }
    } else {
        // entropy-coded bytes
        let mut buf: Vec<u8> = Vec::new();
        buf.push(byte);
        proof {
            assert(buf@ =~= s0.subrange(0, 1));
        }
        loop
            invariant
                reader.wf(),
                1 <= buf@.len() <= s0.len(),
                forall|i: int| 0 <= i < buf@.len() ==> s0[i] != 0xFF,
                buf@ == s0.subrange(0, buf@.len() as int),
                reader.remaining() == s0.skip(buf@.len() as int),
            decreases s0.len() - buf@.len(),
        {
            match reader.peek() {
                Some(b) => {
                    proof {
                        assert(s0.skip(buf@.len() as int).len() > 0);
                        assert(s0.skip(buf@.len() as int)[0] == s0[buf@.len() as int]);
                        assert(b == s0[buf@.len() as int]);
                    }
                    if b == 0xFF {
                        // marker starts; leave it for the next go-around
                        proof {
                            lemma_entropy_from_run(s0, buf@.len() as int);
                            assert(s0 =~= buf@ + reader.remaining());
                        }
                        return Ok(JpegDataPiece::EntropyCodedData { data: buf });
                    }
                    let _ = reader.read_byte();
                    buf.push(b);
                    proof {
                        assert(buf@ =~= s0.subrange(0, buf@.len() as int));
                        assert(reader.remaining() =~= s0.skip(buf@.len() as int));
                    }
                },
                None => {
                    // end of stream
                    proof {
                        assert(s0.skip(buf@.len() as int).len() == 0);
                        assert(buf@.len() == s0.len());
                        lemma_entropy_from_run(s0, buf@.len() as int);
                        assert(s0 =~= buf@ + reader.remaining());
                    }
                    return Ok(JpegDataPiece::EntropyCodedData { data: buf });
                },
            }
        }
    }
}

/// The concatenated wire encoding of a sequence of pieces.
pub open spec fn pieces_bytes(ps: Seq<JpegDataPiece>) -> Seq<u8>
    decreases ps.len(),
{
    if ps.len() == 0 {
        Seq::empty()
    } else {
        piece_bytes(ps[0]) + pieces_bytes(ps.skip(1))
    }
}

/// The pieces `ps` are exactly what the tokenizer emits, in order, for the
/// whole stream `s`.
pub open spec fn tokenizes(s: Seq<u8>, ps: Seq<JpegDataPiece>) -> bool
    decreases ps.len(),
{
    if ps.len() == 0 {
        s.len() == 0
    } else {
        piece_at(s, ps[0]) && piece_bytes(ps[0]).len() <= s.len()
            && piece_bytes(ps[0]) == s.subrange(0, piece_bytes(ps[0]).len() as int)
            && tokenizes(s.skip(piece_bytes(ps[0]).len() as int), ps.skip(1))
    }
}

/// Tokenizer completeness: concatenating the wire encoding of every piece
/// emitted for a stream reproduces the original bytes exactly, including
/// redundant leading 0xFF padding.
pub proof fn lemma_tokenizer_completeness(s: Seq<u8>, ps: Seq<JpegDataPiece>)
    requires
        tokenizes(s, ps),
    ensures
        pieces_bytes(ps) == s,
    decreases ps.len(),
{
    if ps.len() == 0 {
        assert(pieces_bytes(ps) =~= s);
    } else {
        let n = piece_bytes(ps[0]).len() as int;
        lemma_tokenizer_completeness(s.skip(n), ps.skip(1));
        assert(pieces_bytes(ps) =~= s);
    }
}

} // verus!
