//! The pure logic of the page-upload handler: naming an uploaded image after
//! its digest and size, and unpacking a set-annotations request.

use vstd::prelude::*;
use sha3::Digest;
use crate::model::{Annotation, Artifact};

verus! {

/// The SHA3-512 digest of a byte sequence; the digest depends on the input
/// bytes alone.
pub uninterp spec fn sha3_512_of(data: Seq<u8>) -> Seq<u8>;

/// Relies on sha3::Sha3_512: computes the 64-byte SHA3-512 digest of the
/// input.
#[verifier::external_body]
fn sha3_512(data: &[u8]) -> (r: Vec<u8>)
    ensures
        r@ == sha3_512_of(data@),
        r@.len() == 64,
{
    let mut sha = sha3::Sha3_512::new();
    Digest::update(&mut sha, data);
    sha.finalize().to_vec()
}

/// The lowercase hexadecimal digit for a value below 16.
pub open spec fn hex_char_lower(n: int) -> char {
    if n < 10 {
        ((0x30 + n) as u8) as char
    } else {
        ((0x61 + n - 10) as u8) as char
    }
}

/// The lowercase hexadecimal form of a byte sequence, two digits per byte.
pub open spec fn hex_lower_of(bs: Seq<u8>) -> Seq<char>
    decreases bs.len(),
{
    if bs.len() == 0 {
        Seq::empty()
    } else {
        seq![hex_char_lower(bs[0] as int / 16), hex_char_lower(bs[0] as int % 16)] + hex_lower_of(
            bs.skip(1))
    }
}

/// The decimal digits of a nonnegative number, as characters.
pub open spec fn dec_chars(n: nat) -> Seq<char>
    decreases n,
{
    if n < 10 {
        seq![((0x30 + n) as u8) as char]
    } else {
        dec_chars(n / 10).push(((0x30 + n % 10) as u8) as char)
    }
}

/// One lowercase hexadecimal digit as a string.
fn nibble_lower(n: u8) -> (r: &'static str)
    requires
        n < 16,
    ensures
        r@ == seq![hex_char_lower(n as int)],
{
    proof {
        reveal_strlit("0");
        reveal_strlit("1");
        reveal_strlit("2");
        reveal_strlit("3");
        reveal_strlit("4");
        reveal_strlit("5");
        reveal_strlit("6");
        reveal_strlit("7");
        reveal_strlit("8");
        reveal_strlit("9");
        reveal_strlit("a");
        reveal_strlit("b");
        reveal_strlit("c");
        reveal_strlit("d");
        reveal_strlit("e");
        reveal_strlit("f");
    }
    match n {
        0 => "0",
        1 => "1",
        2 => "2",
        3 => "3",
        4 => "4",
        5 => "5",
        6 => "6",
        7 => "7",
        8 => "8",
        9 => "9",
        10 => "a",
        11 => "b",
        12 => "c",
        13 => "d",
        14 => "e",
        _ => "f",
    }
}

proof fn lemma_hex_lower_push(bs: Seq<u8>, b: u8)
    ensures
        hex_lower_of(bs.push(b)) == hex_lower_of(bs) + seq![
            hex_char_lower(b as int / 16),
            hex_char_lower(b as int % 16),
        ],
    decreases bs.len(),
{
    if bs.len() == 0 {
        assert(bs.push(b)[0] == b);
        assert(bs.push(b).skip(1) =~= Seq::<u8>::empty());
        assert(hex_lower_of(bs.push(b).skip(1)) == hex_lower_of(Seq::<u8>::empty()));
        assert(hex_lower_of(Seq::<u8>::empty()) =~= Seq::<char>::empty());
        assert(hex_lower_of(bs) =~= Seq::<char>::empty());
        assert(hex_lower_of(bs.push(b)) =~= hex_lower_of(bs) + seq![
            hex_char_lower(b as int / 16),
            hex_char_lower(b as int % 16),
        ]);
    } else {
        assert(bs.push(b)[0] == bs[0]);
        assert(bs.push(b).skip(1) =~= bs.skip(1).push(b));
        lemma_hex_lower_push(bs.skip(1), b);
        assert(hex_lower_of(bs.push(b).skip(1)) == hex_lower_of(bs.skip(1).push(b)));
        assert(hex_lower_of(bs.push(b)) =~= hex_lower_of(bs) + seq![
            hex_char_lower(b as int / 16),
            hex_char_lower(b as int % 16),
        ]);
    }
}

/// Appends the lowercase hexadecimal form of the bytes.
#[verifier::loop_isolation(false)]
fn append_hex_lower(s: &mut String, bytes: &Vec<u8>)
    ensures
        final(s)@ == old(s)@ + hex_lower_of(bytes@),
{
    let mut i: usize = 0;
    proof {
        assert(bytes@.subrange(0, 0) =~= Seq::<u8>::empty());
        assert(hex_lower_of(bytes@.subrange(0, 0)) =~= Seq::<char>::empty());
        assert(s@ =~= old(s)@ + hex_lower_of(bytes@.subrange(0, 0)));
    }
    while i < bytes.len()
        invariant
            i <= bytes@.len(),
            s@ == old(s)@ + hex_lower_of(bytes@.subrange(0, i as int)),
        decreases bytes@.len() - i,
    {
        let ghost pre = bytes@.subrange(0, i as int);
        let b = bytes[i];
        s.append(nibble_lower(b / 16));
        s.append(nibble_lower(b % 16));
        i = i + 1;
        proof {
            lemma_hex_lower_push(pre, b);
            assert(pre.push(b) =~= bytes@.subrange(0, i as int));
            assert(s@ =~= old(s)@ + hex_lower_of(bytes@.subrange(0, i as int)));
        }
    }
    proof {
        assert(bytes@.subrange(0, bytes@.len() as int) =~= bytes@);
    }
}

/// Appends the decimal digits of `n`.
fn append_dec(s: &mut String, n: u64)
    ensures
        final(s)@ == old(s)@ + dec_chars(n as nat),
    decreases n,
{
    if n >= 10 {
        append_dec(s, n / 10);
    }
    s.append(nibble_lower((n % 10) as u8));
    proof {
        assert(s@ =~= old(s)@ + dec_chars(n as nat));
    }
}

/// The name an uploaded JPEG file is stored under: the lowercase hexadecimal
/// SHA3-512 digest of its contents, a hyphen, its size in bytes, and the
/// `.jpeg` extension.
pub open spec fn spec_image_file_name(data: Seq<u8>, size: nat) -> Seq<char> {
    hex_lower_of(sha3_512_of(data)) + seq!['-'] + dec_chars(size) + ".jpeg"@
}

/// Generates the name an uploaded JPEG file is stored under, out of its size
/// and checksum.
pub fn image_file_name(data: &[u8], size: u64) -> (r: String)
    ensures
        r@ == spec_image_file_name(data@, size as nat),
{
    proof {
        reveal_strlit("-");
        reveal_strlit(".jpeg");
    }
    let digest = sha3_512(data);
    let mut filename = String::new();
    append_hex_lower(&mut filename, &digest);
    filename.append("-");
    append_dec(&mut filename, size);
    filename.append(".jpeg");
    proof {
        assert(filename@ =~= spec_image_file_name(data@, size as nat));
    }
    filename
}

/// The payload of a set-annotations request: the new annotations and
/// artifacts of one page.
#[derive(Clone, Debug, Eq, Hash, Ord, PartialEq, PartialOrd)]
pub struct SetAnnotationsData {
    pub annotations: Vec<Annotation>,
    pub artifacts: Vec<Artifact>,
}

impl SetAnnotationsData {
    /// Unpacks the request into its two lists.
    pub fn into_inner(self) -> (r: (Vec<Annotation>, Vec<Artifact>))
        ensures
            r.0 == self.annotations,
            r.1 == self.artifacts,
    {
        (self.annotations, self.artifacts)
    }
}

} // verus!
