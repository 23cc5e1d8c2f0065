//! The block decoder: reading a whole JPEG file into an ordered list of
//! structural blocks, validating the required framing invariants, and deriving
//! an `Image` metadata record from specific block kinds.

use vstd::prelude::*;
use crate::tokenizer::PeekWrapper;

verus! {

/// A structural block of a JPEG file.
#[derive(Debug, Eq, Hash, Ord, PartialEq, PartialOrd)]
pub enum Block {
    /// A block without a payload (restart markers, Start-of-Image, End-of-Image,
    /// Start-of-Scan).
    Short { kind: u8 },
    /// A length-prefixed block; the encoded length includes the two length
    /// bytes themselves.
    Long { kind: u8, data: Vec<u8> },
}

/// Block kinds 0xD0 through 0xD9 carry no length field and payload.
pub open spec fn is_short_kind(kind: u8) -> bool {
    0xD0 <= kind && kind <= 0xD9
}

/// The kind byte of a block.
pub open spec fn spec_block_kind(b: Block) -> u8 {
    match b {
        Block::Short { kind } => kind,
        Block::Long { kind, .. } => kind,
    }
}

/// The payload of a block; short blocks have none.
pub open spec fn spec_block_data(b: Block) -> Seq<u8> {
    match b {
        Block::Short { .. } => Seq::empty(),
        Block::Long { data, .. } => data@,
    }
}

/// A block whose encoding reads back as the same block: a short block has a
/// short kind, a long block has a long kind and a payload that its two length
/// bytes can cover.
pub open spec fn block_wf(b: Block) -> bool {
    match b {
        Block::Short { kind } => is_short_kind(kind),
        Block::Long { kind, data } => !is_short_kind(kind) && data@.len() + 2 <= 0xFFFF,
    }
}

/// The exact wire encoding of one block.
pub open spec fn block_bytes(b: Block) -> Seq<u8> {
    match b {
        Block::Short { kind } => seq![0xFFu8, kind],
        Block::Long { kind, data } => seq![
            0xFFu8,
            kind,
            (((data@.len() + 2) / 256) as u8),
            (((data@.len() + 2) % 256) as u8),
        ] + data@,
    }
}

/// `b` is exactly the block that stands at the front of the byte sequence `s`.
pub open spec fn block_at(s: Seq<u8>, b: Block) -> bool {
    match b {
        Block::Short { kind } => s.len() >= 2 && s[0] == 0xFF && s[1] == kind
            && is_short_kind(kind),
        Block::Long { kind, data } => s.len() >= 4 && s[0] == 0xFF && s[1] == kind
            && !is_short_kind(kind)
            && {
                let l = (s[2] as int) * 256 + (s[3] as int);
                l >= 2 && 2 + l <= s.len()
                    && data@.len() == l - 2
                    && data@ == s.subrange(4, 2 + l)
            },
    }
}

/// Whether the stream `s` begins with a complete, well-formed block.
pub open spec fn block_parse_ok(s: Seq<u8>) -> bool {
    if s.len() < 2 || s[0] != 0xFF {
        false
    } else if is_short_kind(s[1]) {
        true
    } else if s.len() < 4 {
        false
    } else {
        let l = (s[2] as int) * 256 + (s[3] as int);
        l >= 2 && 2 + l <= s.len()
    }
}

/// The error raised for a stream that does not begin with a complete block.
pub open spec fn block_parse_err(s: Seq<u8>) -> Error {
    if s.len() >= 1 && s[0] != 0xFF {
        Error::NotABlock { start_byte: s[0] }
    } else if s.len() >= 4 && s[0] == 0xFF && !is_short_kind(s[1])
        && ((s[2] as int) * 256 + (s[3] as int) < 2) {
        Error::BlockTooShort { min_expected: 2, obtained: (s[2] as int * 256 + s[3] as int) as usize }
    } else {
        Error::UnexpectedEndOfStream
    }
}

/// `a` and `b` are blocks of the same shape with the same kind and payload.
pub open spec fn block_matches(a: Block, b: Block) -> bool {
    (a is Short <==> b is Short)
        && spec_block_kind(a) == spec_block_kind(b)
        && spec_block_data(a) == spec_block_data(b)
}

/// `a` and `b` are sequences of pairwise matching blocks.
pub open spec fn blocks_match(a: Seq<Block>, b: Seq<Block>) -> bool {
    a.len() == b.len() && forall|i: int| 0 <= i < a.len() ==> block_matches(#[trigger] a[i], b[i])
}

/// Matching blocks have the same wire encoding.
pub proof fn lemma_blocks_match_bytes(a: Seq<Block>, b: Seq<Block>)
    requires
        blocks_match(a, b),
    ensures
        blocks_bytes(a) == blocks_bytes(b),
    decreases a.len(),
{
    if a.len() == 0 {
        assert(blocks_bytes(a) =~= blocks_bytes(b));
    } else {
        assert(block_matches(a[0], b[0]));
        assert(block_bytes(a[0]) =~= block_bytes(b[0]));
        assert forall|i: int| 0 <= i < a.skip(1).len()
            implies block_matches(#[trigger] a.skip(1)[i], b.skip(1)[i]) by {
            assert(a.skip(1)[i] == a[i + 1]);
            assert(b.skip(1)[i] == b[i + 1]);
            assert(block_matches(a[i + 1], b[i + 1]));
        }
        lemma_blocks_match_bytes(a.skip(1), b.skip(1));
    }
}

impl Clone for Block {
    /// A clone has the same shape, kind and payload as the original.
    fn clone(&self) -> (res: Self)
        ensures
            block_matches(res, *self),
    {
        match self {
            Block::Short { kind } => Block::Short { kind: *kind },
            Block::Long { kind, data } => {
                let d = data.clone();
                proof {
                    assert(d@ =~= data@);
                }
                Block::Long { kind: *kind, data: d }
            },
        }
    }
}

impl Block {
    /// The kind byte of this block.
    pub fn kind(&self) -> (r: u8)
        ensures
            r == spec_block_kind(*self),
    {
        match self {
            Self::Short { kind } => *kind,
            Self::Long { kind, .. } => *kind,
        }
    }

    /// The payload of this block; short blocks have none.
    pub fn data(&self) -> (r: &[u8])
        ensures
            r@ == spec_block_data(*self),
    {
        match self {
            Self::Short { .. } => &[],
            Self::Long { data, .. } => data.as_slice(),
        }
    }

    /// Whether this block is structurally required: every kind except the
    /// application-specific range 0xE0 through 0xFE.
    pub fn is_required(&self) -> (r: bool)
        ensures
            r == (spec_block_kind(*self) < 0xE0 || spec_block_kind(*self) > 0xFE),
    {
        let kind = self.kind();
        kind < 0xE0 || kind > 0xFE
    }

    /// Appends this block's wire encoding to `out`.
    ///
    /// A long block whose payload plus the two length bytes cannot be covered
    /// by the 16-bit length field is rejected.
    #[verifier::loop_isolation(false)]
    pub fn write(&self, out: &mut Vec<u8>) -> (res: Result<(), Error>)
        ensures
            res is Ok <==> (self is Short || spec_block_data(*self).len() + 2 <= 0xFFFF),
            res is Ok ==> final(out)@ == old(out)@ + block_bytes(*self),
            res matches Err(e) ==> final(out)@ == old(out)@
                && e == (Error::BlockTooLong {
                    max_allowed: 0xFFFF,
                    obtained: spec_block_data(*self).len() as usize,
                }),
    {
        match self {
            Self::Short { kind } => {
                out.push(0xFF);
                out.push(*kind);
                proof {
                    assert(out@ =~= old(out)@ + block_bytes(*self));
                }
                Ok(())
            },
            Self::Long { kind, data } => {
                if data.len() > 0xFFFD {
                    return Err(Error::BlockTooLong { max_allowed: 0xFFFF, obtained: data.len() });
                }
                let len_incl: usize = data.len() + 2;
                out.push(0xFF);
                out.push(*kind);
                out.push((len_incl / 256) as u8);
                out.push((len_incl % 256) as u8);
                let mut i: usize = 0;
                while i < data.len()
                    invariant
                        i <= data@.len(),
                        out@ == old(out)@ + block_bytes(*self).subrange(0, 4 + i as int),
                    decreases data@.len() - i,
                {
                    let b = data[i];
                    out.push(b);
                    i = i + 1;
                    proof {
                        assert(out@ =~= old(out)@ + block_bytes(*self).subrange(0, 4 + i as int));
                    }
                }
                proof {
                    assert(block_bytes(*self).subrange(0, 4 + data@.len() as int as int)
                        =~= block_bytes(*self));
                }
                Ok(())
            },
        }
    }

    /// Reads one block from the stream, consuming exactly its encoding.
    #[verifier::loop_isolation(false)]
    pub fn try_read(reader: &mut PeekWrapper) -> (res: Result<Self, Error>)
        requires
            old(reader).wf(),
        ensures
            final(reader).wf(),
            res is Ok <==> block_parse_ok(old(reader).remaining()),
            res matches Ok(b) ==> block_at(old(reader).remaining(), b) && block_wf(b)
                && old(reader).remaining() == block_bytes(b) + final(reader).remaining(),
            res matches Err(e) ==> e == block_parse_err(old(reader).remaining()),
    {
        let ghost s0 = reader.remaining();
        proof {
            reader.lemma_remaining_len();
        }

        let first = match reader.read_byte() {
            Some(b) => b,
            None => {
                return Err(Error::UnexpectedEndOfStream);
            },
        };
        if first != 0xFF {
            return Err(Error::NotABlock { start_byte: first });
        }
        let block_kind = match reader.read_byte() {
            Some(b) => b,
            None => {
                return Err(Error::UnexpectedEndOfStream);
            },
        };
        proof {
            assert(s0.skip(1).len() > 0);
            assert(block_kind == s0[1]);
            assert(reader.remaining() =~= s0.skip(2));
        }

        if 0xD0 <= block_kind && block_kind <= 0xD9 {
            // restart 0 through 7, start-of-image, end-of-image: short blocks
            let b = Block::Short { kind: block_kind };
            proof {
                assert(s0 =~= block_bytes(b) + reader.remaining());
            }
            return Ok(b);
        }

        // long blocks
        let hi = match reader.read_byte() {
            Some(b) => b,
            None => {
                proof {
                    assert(s0.len() == 2);
                }
                return Err(Error::UnexpectedEndOfStream);
            },
        };
        proof {
            assert(hi == s0[2]);
            assert(reader.remaining() =~= s0.skip(3));
        }
        let lo = match reader.read_byte() {
            Some(b) => b,
            None => {
                proof {
                    assert(s0.len() == 3);
                }
                return Err(Error::UnexpectedEndOfStream);
            },
        };
        proof {
            assert(lo == s0[3]);
            assert(reader.remaining() =~= s0.skip(4));
        }

        let block_len_incl_len: usize = (hi as usize) * 256 + (lo as usize);
        if block_len_incl_len < 2 {
            return Err(Error::BlockTooShort { min_expected: 2, obtained: block_len_incl_len });
        }
        let block_len = block_len_incl_len - 2;

        let mut data: Vec<u8> = Vec::new();
        proof {
            assert(data@ =~= s0.subrange(4, 4));
        }
        loop
            invariant
                reader.wf(),
                data@.len() <= block_len,
                4 + data@.len() as int <= s0.len(),
                data@ == s0.subrange(4, 4 + data@.len() as int),
                reader.remaining() == s0.skip(4 + data@.len() as int),
            decreases block_len - data@.len(),
        {
            if data.len() >= block_len {
                break;
            }
            let b = match reader.read_byte() {
                Some(b) => b,
                None => {
                    proof {
                        assert(s0.skip(4 + data@.len() as int).len() == 0);
                        assert(s0.len() == 4 + data@.len() as int);
                    }
                    return Err(Error::UnexpectedEndOfStream);
                },
            };
            proof {
                assert(s0.skip(4 + data@.len() as int).len() > 0);
                assert(s0.skip(4 + data@.len() as int)[0] == s0[4 + data@.len() as int]);
                assert(b == s0[4 + data@.len() as int]);
            }
            data.push(b);
            proof {
                assert(data@ =~= s0.subrange(4, 4 + data@.len() as int));
                assert(reader.remaining() =~= s0.skip(4 + data@.len() as int));
            }
        }
        let b = Block::Long { kind: block_kind, data };
        proof {
            assert(s0 =~= block_bytes(b) + reader.remaining());
        }
        Ok(b)
    }
}

/// An error raised while decoding or re-encoding a JPEG file.
#[derive(Debug)]
pub enum Error {
    /// The stream ended in the middle of a structural element.
    UnexpectedEndOfStream,
    /// A block did not start with the 0xFF marker byte.
    NotABlock { start_byte: u8 },
    /// A block's length field was below the minimum.
    BlockTooShort { min_expected: usize, obtained: usize },
    /// A block's payload cannot be covered by the 16-bit length field.
    BlockTooLong { max_allowed: usize, obtained: usize },
    /// A required metadata field was never populated; the partial builder is
    /// carried for diagnostics.
    IncompleteData { builder: ImageBuilder },
    /// A block of an unexpected kind was encountered.
    UnexpectedBlock { expected_kind: u8, obtained_kind: u8 },
    /// The entropy-coded image data did not end with End-of-Image.
    IncorrectImageDataTermination,
    /// An APP0 payload did not carry the JFIF signature.
    NotJfif,
    /// An APP0 payload carried an unsupported JFIF version.
    UnexpectedJfifVersion { expected: u16, obtained: u16 },
    /// An APP0 payload was too short for the JFIF fields.
    JfifTooShort { min_expected: usize, obtained: usize },
    /// A Start-of-Frame payload was too short for its fixed fields.
    SofTooShort { min_expected: usize, obtained: usize },
    /// An error specific to the embedded Exif metadata.
    Exif(crate::exif::Error),
}

/// The concatenated wire encoding of a sequence of blocks.
pub open spec fn blocks_bytes(bs: Seq<Block>) -> Seq<u8>
    decreases bs.len(),
{
    if bs.len() == 0 {
        Seq::empty()
    } else {
        block_bytes(bs[0]) + blocks_bytes(bs.skip(1))
    }
}

/// Appending a block appends its encoding.
pub proof fn lemma_blocks_bytes_push(bs: Seq<Block>, b: Block)
    ensures
        blocks_bytes(bs.push(b)) == blocks_bytes(bs) + block_bytes(b),
    decreases bs.len(),
{
    if bs.len() == 0 {
        assert(bs.push(b)[0] == b);
        assert(bs.push(b).skip(1) =~= Seq::<Block>::empty());
        assert(blocks_bytes(bs.push(b).skip(1)) =~= Seq::<u8>::empty());
        assert(blocks_bytes(bs.push(b)) =~= block_bytes(b) + blocks_bytes(bs.push(b).skip(1)));
        assert(blocks_bytes(bs) =~= Seq::<u8>::empty());
        assert(blocks_bytes(bs.push(b)) =~= blocks_bytes(bs) + block_bytes(b));
    } else {
        assert(bs.push(b)[0] == bs[0]);
        assert(bs.push(b).skip(1) =~= bs.skip(1).push(b));
        lemma_blocks_bytes_push(bs.skip(1), b);
        assert(blocks_bytes(bs.push(b).skip(1)) == blocks_bytes(bs.skip(1).push(b)));
        assert(blocks_bytes(bs.push(b)) =~= block_bytes(bs[0]) + blocks_bytes(bs.push(b).skip(1)));
        assert(blocks_bytes(bs) == block_bytes(bs[0]) + blocks_bytes(bs.skip(1)));
        assert(blocks_bytes(bs.push(b)) =~= blocks_bytes(bs) + block_bytes(b));
    }
}

/// Every block of the sequence can be written out: a long payload always fits
/// its two length bytes.
pub open spec fn blocks_writable(bs: Seq<Block>) -> bool {
    forall|i: int| 0 <= i < bs.len() ==> spec_block_data(#[trigger] bs[i]).len() + 2 <= 0xFFFF
}

/// The exact wire encoding of a whole image record: the leading blocks, the
/// entropy-coded image data, and the trailing blocks.
pub open spec fn image_bytes(img: Image) -> Seq<u8> {
    blocks_bytes(img.leading_blocks@) + img.image_data@ + blocks_bytes(img.trailing_blocks@)
}

/// The big-endian value of the two bytes at `p` in `d`.
pub open spec fn be16(d: Seq<u8>, p: int) -> int {
    (d[p] as int) * 0x100 + (d[p + 1] as int)
}

/// Start-of-Frame block kinds (all baseline and progressive variants).
pub open spec fn is_sof_kind(k: u8) -> bool {
    (0xC0 <= k && k <= 0xC3) || (0xC5 <= k && k <= 0xC7) || (0xC9 <= k && k <= 0xCB)
        || (0xCD <= k && k <= 0xCF)
}

/// The bytes that announce a JFIF payload inside an APP0 block.
pub open spec fn jfif_magic() -> Seq<u8> {
    seq![0x4Au8, 0x46u8, 0x49u8, 0x46u8, 0x00u8]
}

/// A JFIF APP0 payload that the decoder accepts: the signature, at least 12
/// bytes, and version 1.1.
pub open spec fn jfif_valid(d: Seq<u8>) -> bool {
    d.len() >= 12 && d.subrange(0, 5) == jfif_magic() && be16(d, 5) == 0x0101
}

/// An APP1 block that carries Exif metadata.
pub open spec fn is_exif_block(b: Block) -> bool {
    spec_block_kind(b) == 0xE1 && spec_block_data(b).len() >= 6
        && spec_block_data(b).subrange(0, 6) == crate::exif::exif_magic()
}

/// The payload of the last Start-of-Frame block, if any: the block whose
/// fields survive the metadata pass.
pub open spec fn sof_state(bs: Seq<Block>) -> Option<Seq<u8>>
    decreases bs.len(),
{
    if bs.len() == 0 {
        None
    } else if is_sof_kind(spec_block_kind(bs.last())) {
        Some(spec_block_data(bs.last()))
    } else {
        sof_state(bs.drop_last())
    }
}

/// The last block that sets the density fields, if any: an APP0 block or an
/// Exif APP1 block.
pub open spec fn density_source(bs: Seq<Block>) -> Option<Block>
    decreases bs.len(),
{
    if bs.len() == 0 {
        None
    } else if spec_block_kind(bs.last()) == 0xE0 || is_exif_block(bs.last()) {
        Some(bs.last())
    } else {
        density_source(bs.drop_last())
    }
}

proof fn lemma_sof_state_push(bs: Seq<Block>, b: Block)
    ensures
        sof_state(bs.push(b)) == (if is_sof_kind(spec_block_kind(b)) {
            Some(spec_block_data(b))
        } else {
            sof_state(bs)
        }),
{
    assert(bs.push(b).last() == b);
    assert(bs.push(b).drop_last() =~= bs);
}

proof fn lemma_density_source_push(bs: Seq<Block>, b: Block)
    ensures
        density_source(bs.push(b)) == (if spec_block_kind(b) == 0xE0 || is_exif_block(b) {
            Some(b)
        } else {
            density_source(bs)
        }),
{
    assert(bs.push(b).last() == b);
    assert(bs.push(b).drop_last() =~= bs);
}

/// A fully decoded JPEG image: every metadata field populated, plus the
/// structural blocks and raw entropy-coded data needed to re-emit the file
/// byte-exactly.
#[derive(Clone, Debug, Eq, Hash, Ord, PartialEq, PartialOrd)]
pub struct Image {
    pub bit_depth: u8,
    pub width: u16,
    pub height: u16,
    pub color_space: ColorSpace,
    pub density_unit: DensityUnit,
    pub density_x: u16,
    pub density_y: u16,
    pub leading_blocks: Vec<Block>,
    pub image_data: Vec<u8>,
    pub trailing_blocks: Vec<Block>,
}

impl Image {
    /// Decodes a whole JPEG file.
    ///
    /// The first block must be Start-of-Image; blocks are collected until
    /// Start-of-Scan; the rest of the stream is the entropy-coded image data,
    /// which must end with End-of-Image. A metadata pass over the collected
    /// blocks then derives the image record, which re-encodes to the input
    /// byte-exactly.
    #[verifier::loop_isolation(false)]
    pub fn try_read(data: &[u8]) -> (res: Result<Self, Error>)
        ensures
            res matches Ok(img) ==> {
                let lb = img.leading_blocks@;
                &&& lb.len() >= 2
                &&& spec_block_kind(lb[0]) == 0xD8
                &&& spec_block_kind(lb.last()) == 0xDA
                &&& forall|i: int| 0 <= i < lb.len() - 1 ==> spec_block_kind(#[trigger] lb[i]) != 0xDA
                &&& forall|i: int| 0 <= i < lb.len() ==> block_wf(#[trigger] lb[i])
                &&& img.trailing_blocks@ == seq![Block::Short { kind: 0xD9 }]
                &&& data@ == image_bytes(img)
                &&& blocks_writable(lb)
                &&& blocks_writable(img.trailing_blocks@)
                &&& forall|i: int| 0 <= i < lb.len() && spec_block_kind(#[trigger] lb[i]) == 0xE0
                    ==> jfif_valid(spec_block_data(lb[i]))
                &&& forall|i: int| 0 <= i < lb.len() && is_sof_kind(spec_block_kind(
                    #[trigger] lb[i])) ==> spec_block_data(lb[i]).len() >= 6
                &&& (sof_state(lb) matches Some(d) && img.bit_depth == d[0]
                    && img.height as int == be16(d, 1) && img.width as int == be16(d, 3)
                    && img.color_space == spec_color_space(d[5]))
                &&& (density_source(lb) matches Some(b) && (spec_block_kind(b) == 0xE0
                    ==> img.density_unit == spec_density_unit(spec_block_data(b)[7])
                        && img.density_x as int == be16(spec_block_data(b), 8)
                        && img.density_y as int == be16(spec_block_data(b), 10)))
            },
            (data@.len() >= 2 && block_parse_ok(data@) && data@[1] != 0xD8) ==> (res matches Err(
                e) && e == (Error::UnexpectedBlock {
                expected_kind: 0xD8,
                obtained_kind: data@[1],
            })),
    {
        let ghost s0 = data@;
        let mut reader = PeekWrapper::new(data);
        let mut builder = ImageBuilder::new();

        loop
            invariant
                reader.wf(),
                s0 == blocks_bytes(builder.leading_blocks@) + reader.remaining(),
                forall|i: int| 0 <= i < builder.leading_blocks@.len()
                    ==> block_wf(#[trigger] builder.leading_blocks@[i]),
                builder.leading_blocks@.len() >= 1
                    ==> spec_block_kind(builder.leading_blocks@[0]) == 0xD8,
                builder.leading_blocks@.len() >= 1 ==> s0.len() >= 2 && s0[1] == 0xD8,
                forall|i: int| 0 <= i < builder.leading_blocks@.len()
                    ==> spec_block_kind(#[trigger] builder.leading_blocks@[i]) != 0xDA,
                builder.bit_depth is None,
                builder.width is None,
                builder.height is None,
                builder.color_space is None,
                builder.density_unit is None,
                builder.density_x is None,
                builder.density_y is None,
                builder.image_data@ == Seq::<u8>::empty(),
                builder.trailing_blocks@ == Seq::<Block>::empty(),
            decreases reader.remaining().len(),
        {
            let ghost lb_before = builder.leading_blocks@;
            let ghost rem_before = reader.remaining();
            let block = match Block::try_read(&mut reader) {
                Ok(b) => b,
                Err(e) => {
                    proof {
                        if lb_before.len() == 0 {
                            assert(rem_before =~= s0);
                        }
                    }
                    return Err(e);
                },
            };
            proof {
                lemma_blocks_bytes_push(lb_before, block);
                assert(block_bytes(block).len() >= 2);
                assert(s0 =~= blocks_bytes(lb_before.push(block)) + reader.remaining());
            }
            builder.leading_blocks.push(block);

            let n = builder.leading_blocks.len();
            if n == 1 {
                // the first block must be Start-of-Image
                let first_kind = builder.leading_blocks[0].kind();
                proof {
                    assert(rem_before =~= s0);
                    assert(s0.len() >= 2 && s0[1] == first_kind);
                }
                if first_kind != 0xD8 {
                    return Err(Error::UnexpectedBlock {
                        expected_kind: 0xD8,
                        obtained_kind: first_kind,
                    });
                }
            } else if builder.leading_blocks[n - 1].kind() == 0xDA {
                // Start-of-Scan; the image data follows
                break;
            }
        }

        // read the image data
        let ghost r1 = reader.remaining();
        let mut image_data: Vec<u8> = Vec::new();
        loop
            invariant
                reader.wf(),
                image_data@.len() <= r1.len(),
                image_data@ == r1.subrange(0, image_data@.len() as int),
                reader.remaining() == r1.skip(image_data@.len() as int),
            decreases r1.len() - image_data@.len(),
        {
            let b = match reader.read_byte() {
                Some(b) => b,
                None => {
                    break;
                },
            };
            proof {
                assert(r1.skip(image_data@.len() as int).len() > 0);
                assert(r1.skip(image_data@.len() as int)[0] == r1[image_data@.len() as int]);
            }
            image_data.push(b);
            proof {
                assert(image_data@ =~= r1.subrange(0, image_data@.len() as int));
                assert(reader.remaining() =~= r1.skip(image_data@.len() as int));
            }
        }
        proof {
            assert(image_data@ =~= r1);
        }

        let data_len = image_data.len();
        if !(data_len >= 2 && image_data[data_len - 2] == 0xFF && image_data[data_len - 1] == 0xD9) {
            return Err(Error::IncorrectImageDataTermination);
        }
        // ends with End-of-Image, perfect: trim it and record a synthetic block
        image_data.truncate(data_len - 2);
        builder.trailing_blocks.push(Block::Short { kind: 0xD9 });
        builder.image_data = image_data;
        proof {
            assert(builder.image_data@ + seq![0xFFu8, 0xD9u8] =~= r1);
            assert(builder.trailing_blocks@ =~= Seq::<Block>::empty().push(
                Block::Short { kind: 0xD9 }));
            assert(blocks_bytes(builder.trailing_blocks@)
                == blocks_bytes(Seq::<Block>::empty()) + block_bytes(Block::Short { kind: 0xD9 }))
                by {
                lemma_blocks_bytes_push(Seq::<Block>::empty(), Block::Short { kind: 0xD9 });
            }
            assert(blocks_bytes(builder.trailing_blocks@) =~= seq![0xFFu8, 0xD9u8]);
            assert(s0 =~= blocks_bytes(builder.leading_blocks@) + builder.image_data@
                + blocks_bytes(builder.trailing_blocks@));
        }

        // metadata pass over the collected blocks, in order
        let ghost lbs = builder.leading_blocks@;
        let ghost idata = builder.image_data@;
        let ghost tbs = builder.trailing_blocks@;
        let blocks_len = builder.leading_blocks.len();
        let mut idx: usize = 0;
        while idx < blocks_len
            invariant
                idx <= blocks_len,
                blocks_len == lbs.len(),
                builder.leading_blocks@ == lbs,
                builder.image_data@ == idata,
                builder.trailing_blocks@ == tbs,
                forall|i: int| 0 <= i < idx && spec_block_kind(#[trigger] lbs[i]) == 0xE0
                    ==> jfif_valid(spec_block_data(lbs[i])),
                forall|i: int| 0 <= i < idx && is_sof_kind(spec_block_kind(#[trigger] lbs[i]))
                    ==> spec_block_data(lbs[i]).len() >= 6,
                match sof_state(lbs.subrange(0, idx as int)) {
                    Some(d) => builder.bit_depth == Some(d[0])
                        && (builder.height matches Some(h) && h as int == be16(d, 1))
                        && (builder.width matches Some(w) && w as int == be16(d, 3))
                        && builder.color_space == Some(spec_color_space(d[5])),
                    None => builder.bit_depth is None && builder.width is None
                        && builder.height is None && builder.color_space is None,
                },
                match density_source(lbs.subrange(0, idx as int)) {
                    Some(b) => builder.density_unit is Some && builder.density_x is Some
                        && builder.density_y is Some && (spec_block_kind(b) == 0xE0
                        ==> builder.density_unit == Some(spec_density_unit(spec_block_data(b)[7]))
                            && (builder.density_x matches Some(dx)
                                && dx as int == be16(spec_block_data(b), 8))
                            && (builder.density_y matches Some(dy)
                                && dy as int == be16(spec_block_data(b), 10))),
                    None => builder.density_unit is None && builder.density_x is None
                        && builder.density_y is None,
                },
            decreases blocks_len - idx,
        {
            let kind = builder.leading_blocks[idx].kind();
            let payload: Vec<u8> = vstd::slice::slice_to_vec(builder.leading_blocks[idx].data());
            proof {
                assert(payload@ == spec_block_data(lbs[idx as int]));
                assert(lbs.subrange(0, idx as int + 1) =~= lbs.subrange(0, idx as int).push(
                    lbs[idx as int]));
                lemma_sof_state_push(lbs.subrange(0, idx as int), lbs[idx as int]);
                lemma_density_source_push(lbs.subrange(0, idx as int), lbs[idx as int]);
            }

            if kind == 0xE0 {
                // APP0: must be a JFIF header
                if !(payload.len() >= 5 && payload[0] == 0x4A && payload[1] == 0x46
                    && payload[2] == 0x49 && payload[3] == 0x46 && payload[4] == 0x00) {
                    return Err(Error::NotJfif);
                }
                if payload.len() < 12 {
                    return Err(Error::JfifTooShort { min_expected: 12, obtained: payload.len() });
                }
                let version: u16 = (payload[5] as u16) * 0x100 + (payload[6] as u16);
                if version != 0x0101 {
                    return Err(Error::UnexpectedJfifVersion { expected: 0x0101, obtained: version });
                }
                proof {
                    assert(payload@.subrange(0, 5) =~= jfif_magic());
                }
                let unit = DensityUnit::from_base_type(payload[7]);
                let density_x: u16 = (payload[8] as u16) * 0x100 + (payload[9] as u16);
                let density_y: u16 = (payload[10] as u16) * 0x100 + (payload[11] as u16);
                builder.density_unit = Some(unit);
                builder.density_x = Some(density_x);
                builder.density_y = Some(density_y);
            } else if kind == 0xE1 {
                // APP1: if it announces Exif, hand the TIFF buffer to the
                // directory reader, which records the density fields
                if payload.len() >= 6 && payload[0] == 0x45 && payload[1] == 0x78
                    && payload[2] == 0x69 && payload[3] == 0x66 && payload[4] == 0x00
                    && payload[5] == 0x00 {
                    proof {
                        assert(payload@.subrange(0, 6) =~= crate::exif::exif_magic());
                    }
                    match crate::exif::process(payload.as_slice(), &mut builder) {
                        Ok(()) => {},
                        Err(e) => {
                            return Err(e);
                        },
                    }
                }
            } else if (0xC0 <= kind && kind <= 0xC3) || (0xC5 <= kind && kind <= 0xC7)
                || (0xC9 <= kind && kind <= 0xCB) || (0xCD <= kind && kind <= 0xCF) {
                // start of frame
                if payload.len() < 6 {
                    return Err(Error::SofTooShort { min_expected: 6, obtained: payload.len() });
                }
                let bit_depth = payload[0];
                let height: u16 = (payload[1] as u16) * 0x100 + (payload[2] as u16);
                let width: u16 = (payload[3] as u16) * 0x100 + (payload[4] as u16);
                let color_space = ColorSpace::from_base_type(payload[5]);
                builder.bit_depth = Some(bit_depth);
                builder.height = Some(height);
                builder.width = Some(width);
                builder.color_space = Some(color_space);
            }
            idx = idx + 1;
        }
        proof {
            assert(lbs.subrange(0, blocks_len as int) =~= lbs);
        }

        // finalize: every metadata field must have been populated
        let ImageBuilder {
            bit_depth,
            width,
            height,
            color_space,
            density_unit,
            density_x,
            density_y,
            leading_blocks,
            image_data,
            trailing_blocks,
        } = builder;
        match (bit_depth, width, height, color_space, density_unit, density_x, density_y) {
            (Some(bd), Some(w), Some(h), Some(cs), Some(du), Some(dx), Some(dy)) => {
                let img = Image {
                    bit_depth: bd,
                    width: w,
                    height: h,
                    color_space: cs,
                    density_unit: du,
                    density_x: dx,
                    density_y: dy,
                    leading_blocks,
                    image_data,
                    trailing_blocks,
                };
                proof {
                    assert(s0 =~= image_bytes(img));
                }
                Ok(img)
            },
            (bd, w, h, cs, du, dx, dy) => Err(Error::IncompleteData {
                builder: ImageBuilder {
                    bit_depth: bd,
                    width: w,
                    height: h,
                    color_space: cs,
                    density_unit: du,
                    density_x: dx,
                    density_y: dy,
                    leading_blocks,
                    image_data,
                    trailing_blocks,
                },
            }),
        }
    }

    /// Re-emits the image in its documented wire encoding: the leading blocks,
    /// the image data, then the trailing blocks.
    #[verifier::loop_isolation(false)]
    pub fn write(&self, out: &mut Vec<u8>) -> (res: Result<(), Error>)
        requires
            blocks_writable(self.leading_blocks@),
            blocks_writable(self.trailing_blocks@),
        ensures
            res is Ok,
            final(out)@ == old(out)@ + image_bytes(*self),
    {
        let ghost base = out@;
        let mut i: usize = 0;
        while i < self.leading_blocks.len()
            invariant
                i <= self.leading_blocks@.len(),
                blocks_writable(self.leading_blocks@),
                out@ == base + blocks_bytes(self.leading_blocks@.subrange(0, i as int)),
            decreases self.leading_blocks@.len() - i,
        {
            let r = self.leading_blocks[i].write(out);
            proof {
                assert(r is Ok);
                lemma_blocks_bytes_push(
                    self.leading_blocks@.subrange(0, i as int),
                    self.leading_blocks@[i as int],
                );
                assert(self.leading_blocks@.subrange(0, i as int).push(
                    self.leading_blocks@[i as int]) =~= self.leading_blocks@.subrange(0, i as int + 1));
            }
            i = i + 1;
        }
        proof {
            assert(self.leading_blocks@.subrange(0, self.leading_blocks@.len() as int)
                =~= self.leading_blocks@);
        }
        let mut j: usize = 0;
        while j < self.image_data.len()
            invariant
                j <= self.image_data@.len(),
                out@ == base + blocks_bytes(self.leading_blocks@)
                    + self.image_data@.subrange(0, j as int),
            decreases self.image_data@.len() - j,
        {
            let b = self.image_data[j];
            out.push(b);
            j = j + 1;
            proof {
                assert(out@ =~= base + blocks_bytes(self.leading_blocks@)
                    + self.image_data@.subrange(0, j as int));
            }
        }
        proof {
            assert(self.image_data@.subrange(0, self.image_data@.len() as int)
                =~= self.image_data@);
        }
        let mut k: usize = 0;
        while k < self.trailing_blocks.len()
            invariant
                k <= self.trailing_blocks@.len(),
                blocks_writable(self.trailing_blocks@),
                out@ == base + blocks_bytes(self.leading_blocks@) + self.image_data@
                    + blocks_bytes(self.trailing_blocks@.subrange(0, k as int)),
            decreases self.trailing_blocks@.len() - k,
        {
            let r = self.trailing_blocks[k].write(out);
            proof {
                assert(r is Ok);
                lemma_blocks_bytes_push(
                    self.trailing_blocks@.subrange(0, k as int),
                    self.trailing_blocks@[k as int],
                );
                assert(self.trailing_blocks@.subrange(0, k as int).push(
                    self.trailing_blocks@[k as int]) =~= self.trailing_blocks@.subrange(0, k as int + 1));
            }
            k = k + 1;
        }
        proof {
            assert(self.trailing_blocks@.subrange(0, self.trailing_blocks@.len() as int)
                =~= self.trailing_blocks@);
            assert(out@ =~= base + image_bytes(*self));
        }
        Ok(())
    }
}

/// Round-trip law: whatever byte sequence the decoder turned into an image,
/// re-emitting that image appends exactly that byte sequence. The decoder
/// ensures that its input equals the image's wire encoding, and the writer
/// ensures that it appends exactly the image's wire encoding; this law joins
/// the two statements.
pub proof fn lemma_image_round_trip(data: Seq<u8>, img: Image, out0: Seq<u8>, out1: Seq<u8>)
    requires
        data == image_bytes(img),
        out1 == out0 + image_bytes(img),
    ensures
        out1 == out0 + data,
{
}

/// A mutable accumulator for the metadata and structure of an image being
/// decoded; `build` fails while any metadata field is still unset.
#[derive(Clone, Debug, Eq, Hash, Ord, PartialEq, PartialOrd)]
pub struct ImageBuilder {
    pub bit_depth: Option<u8>,
    pub width: Option<u16>,
    pub height: Option<u16>,
    pub color_space: Option<ColorSpace>,
    pub density_unit: Option<DensityUnit>,
    pub density_x: Option<u16>,
    pub density_y: Option<u16>,
    pub leading_blocks: Vec<Block>,
    pub image_data: Vec<u8>,
    pub trailing_blocks: Vec<Block>,
}

/// All seven metadata fields of the builder have been populated.
pub open spec fn builder_complete(b: ImageBuilder) -> bool {
    b.bit_depth is Some && b.width is Some && b.height is Some && b.color_space is Some
        && b.density_unit is Some && b.density_x is Some && b.density_y is Some
}

impl ImageBuilder {
    /// A fresh builder with no field populated and no block collected.
    pub fn new() -> (r: Self)
        ensures
            r.bit_depth is None,
            r.width is None,
            r.height is None,
            r.color_space is None,
            r.density_unit is None,
            r.density_x is None,
            r.density_y is None,
            r.leading_blocks@ == Seq::<Block>::empty(),
            r.image_data@ == Seq::<u8>::empty(),
            r.trailing_blocks@ == Seq::<Block>::empty(),
    {
        Self {
            bit_depth: None,
            width: None,
            height: None,
            color_space: None,
            density_unit: None,
            density_x: None,
            density_y: None,
            leading_blocks: Vec::new(),
            image_data: Vec::new(),
            trailing_blocks: Vec::new(),
        }
    }

    /// Finalizes the builder into an image; fails if any metadata field is
    /// still unset.
    pub fn build(&self) -> (r: Option<Image>)
        ensures
            r is Some <==> builder_complete(*self),
            r matches Some(img) ==> Some(img.bit_depth) == self.bit_depth
                && Some(img.width) == self.width
                && Some(img.height) == self.height
                && Some(img.color_space) == self.color_space
                && Some(img.density_unit) == self.density_unit
                && Some(img.density_x) == self.density_x
                && Some(img.density_y) == self.density_y
                && blocks_match(img.leading_blocks@, self.leading_blocks@)
                && img.image_data@ == self.image_data@
                && blocks_match(img.trailing_blocks@, self.trailing_blocks@),
    {
        let bit_depth = match self.bit_depth {
            Some(v) => v,
            None => {
                return None;
            },
        };
        let width = match self.width {
            Some(v) => v,
            None => {
                return None;
            },
        };
        let height = match self.height {
            Some(v) => v,
            None => {
                return None;
            },
        };
        let color_space = match self.color_space {
            Some(v) => v,
            None => {
                return None;
            },
        };
        let density_unit = match self.density_unit {
            Some(v) => v,
            None => {
                return None;
            },
        };
        let density_x = match self.density_x {
            Some(v) => v,
            None => {
                return None;
            },
        };
        let density_y = match self.density_y {
            Some(v) => v,
            None => {
                return None;
            },
        };
        let leading_blocks = self.leading_blocks.clone();
        let image_data = self.image_data.clone();
        let trailing_blocks = self.trailing_blocks.clone();
        proof {
            assert forall|i: int| 0 <= i < image_data@.len()
                implies image_data@[i] == self.image_data@[i] by {
                assert(vstd::pervasive::cloned::<u8>(self.image_data@[i], image_data@[i]));
            }
            assert(image_data@ =~= self.image_data@);
            assert forall|i: int| 0 <= i < leading_blocks@.len()
                implies block_matches(#[trigger] leading_blocks@[i], self.leading_blocks@[i]) by {
                assert(vstd::pervasive::cloned::<Block>(self.leading_blocks@[i], leading_blocks@[i]));
            }
            assert forall|i: int| 0 <= i < trailing_blocks@.len()
                implies block_matches(#[trigger] trailing_blocks@[i], self.trailing_blocks@[i]) by {
                assert(vstd::pervasive::cloned::<Block>(self.trailing_blocks@[i], trailing_blocks@[i]));
            }
        }
        Some(Image {
            bit_depth,
            width,
            height,
            color_space,
            density_unit,
            density_x,
            density_y,
            leading_blocks,
            image_data,
            trailing_blocks,
        })
    }
}

/// The unit in which pixel (dot) density is specified.
#[derive(Clone, Copy, Debug, Eq, Hash, Ord, PartialEq, PartialOrd, Structural)]
pub enum DensityUnit {
    NoUnit,
    DotsPerInch,
    DotsPerCentimeter,
    Other(u8),
}

/// The density unit denoted by a JFIF unit code.
pub open spec fn spec_density_unit(value: u8) -> DensityUnit {
    if value == 0 {
        DensityUnit::NoUnit
    } else if value == 1 {
        DensityUnit::DotsPerInch
    } else if value == 2 {
        DensityUnit::DotsPerCentimeter
    } else {
        DensityUnit::Other(value)
    }
}

impl DensityUnit {
    /// Decodes a JFIF unit code.
    pub fn from_base_type(value: u8) -> (r: Self)
        ensures
            r == spec_density_unit(value),
    {
        match value {
            0 => Self::NoUnit,
            1 => Self::DotsPerInch,
            2 => Self::DotsPerCentimeter,
            other => Self::Other(other),
        }
    }

    /// Encodes this unit as a JFIF unit code.
    pub fn to_base_type(self) -> (r: u8)
        ensures
            self == spec_density_unit(r) || (self matches DensityUnit::Other(o) && o == r),
    {
        match self {
            Self::NoUnit => 0,
            Self::DotsPerInch => 1,
            Self::DotsPerCentimeter => 2,
            Self::Other(o) => o,
        }
    }
}

/// The color space in which an image is stored.
#[derive(Clone, Copy, Debug, Eq, Hash, Ord, PartialEq, PartialOrd, Structural)]
pub enum ColorSpace {
    Grayscale,
    Rgb,
    Cmyk,
    Other(u8),
}

/// The color space denoted by a Start-of-Frame component-count code.
pub open spec fn spec_color_space(value: u8) -> ColorSpace {
    if value == 1 {
        ColorSpace::Grayscale
    } else if value == 3 {
        ColorSpace::Rgb
    } else if value == 4 {
        ColorSpace::Cmyk
    } else {
        ColorSpace::Other(value)
    }
}

impl ColorSpace {
    /// Decodes a Start-of-Frame color space code.
    pub fn from_base_type(value: u8) -> (r: Self)
        ensures
            r == spec_color_space(value),
    {
        match value {
            1 => Self::Grayscale,
            3 => Self::Rgb,
            4 => Self::Cmyk,
            other => Self::Other(other),
        }
    }

    /// Encodes this color space as a Start-of-Frame code.
    pub fn to_base_type(self) -> (r: u8)
        ensures
            self == spec_color_space(r) || (self matches ColorSpace::Other(o) && o == r),
    {
        match self {
            Self::Grayscale => 1,
            Self::Rgb => 3,
            Self::Cmyk => 4,
            Self::Other(o) => o,
        }
    }
}

} // verus!
