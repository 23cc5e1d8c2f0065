//! Structures and procedures relevant to the Portable Document Format: a
//! document is a set of numbered objects, each rendered into its textual form
//! and indexed by a cross-reference table.

use vstd::prelude::*;
use vstd::string::is_ascii;
use vstd::string::StringSliceAdditionalSpecFns;
use vstd::std_specs::iter::IteratorSpec;

verus! {

/// The bytes of an ASCII string, one byte per character.
pub open spec fn ascii_seq(s: Seq<char>) -> Seq<u8> {
    Seq::new(s.len(), |i: int| s[i] as u8)
}

/// Appends the bytes of an ASCII string.
pub(crate) fn push_ascii(out: &mut Vec<u8>, s: &str)
    requires
        is_ascii(s),
    ensures
        final(out)@ == old(out)@ + ascii_seq(s@),
{
    let b = s.as_bytes();
    proof {
        vstd::string::is_ascii_spec_bytes(s);
        assert(b@ =~= ascii_seq(s@));
    }
    out.extend_from_slice(b);
}

/// The decimal digits of a nonnegative number, as ASCII bytes.
pub open spec fn dec_bytes(n: nat) -> Seq<u8>
    decreases n,
{
    if n < 10 {
        seq![(0x30 + n) as u8]
    } else {
        dec_bytes(n / 10).push((0x30 + n % 10) as u8)
    }
}

/// Appends the decimal digits of `n`.
pub(crate) fn push_dec_u64(out: &mut Vec<u8>, n: u64)
    ensures
        final(out)@ == old(out)@ + dec_bytes(n as nat),
    decreases n,
{
    if n < 10 {
        out.push(0x30 + (n as u8));
        proof {
            assert(out@ =~= old(out)@ + dec_bytes(n as nat));
        }
    } else {
        push_dec_u64(out, n / 10);
        out.push(0x30 + ((n % 10) as u8));
        proof {
            assert(out@ =~= old(out)@ + dec_bytes(n as nat));
        }
    }
}

/// How many decimal digits a nonnegative number has.
pub open spec fn dec_len(n: nat) -> nat
    decreases n,
{
    if n < 10 {
        1
    } else {
        1 + dec_len(n / 10)
    }
}

/// The `k`-th power of ten.
pub open spec fn pow10(k: nat) -> nat
    decreases k,
{
    if k == 0 {
        1
    } else {
        10 * pow10((k - 1) as nat)
    }
}

proof fn lemma_dec_len_le(n: nat, k: nat)
    requires
        k >= 1,
        n < pow10(k),
    ensures
        dec_len(n) <= k,
    decreases k,
{
    if n < 10 {
    } else {
        assert(pow10(k) == 10 * pow10((k - 1) as nat));
        assert(n / 10 < pow10((k - 1) as nat)) by (nonlinear_arith)
            requires
                n < 10 * pow10((k - 1) as nat),
        ;
        assert(k >= 2) by {
            if k == 1 {
                assert(pow10(1nat) == 10);
            }
        }
        lemma_dec_len_le(n / 10, (k - 1) as nat);
    }
}

/// The decimal digits of `n`, left-padded with zeros to at least ten digits.
pub open spec fn dec10_bytes(n: nat) -> Seq<u8> {
    if dec_len(n) >= 10 {
        dec_bytes(n)
    } else {
        Seq::new((10 - dec_len(n)) as nat, |i: int| 0x30u8) + dec_bytes(n)
    }
}

/// Appends the decimal digits of `n`, left-padded with zeros to ten digits.
#[verifier::loop_isolation(false)]
pub(crate) fn push_dec10_u64(out: &mut Vec<u8>, n: u64)
    ensures
        final(out)@ == old(out)@ + dec10_bytes(n as nat),
{
    // count the digits
    proof {
        reveal_with_fuel(pow10, 21);
        assert(n < pow10(20));
        lemma_dec_len_le(n as nat, 20);
    }
    let mut m = n;
    let mut digits: u64 = 1;
    while m >= 10
        invariant
            1 <= digits,
            dec_len(n as nat) == digits - 1 + dec_len(m as nat),
        decreases m,
    {
        proof {
            assert(dec_len(m as nat) == 1 + dec_len((m / 10) as nat));
            assert(dec_len((m / 10) as nat) >= 1);
        }
        m = m / 10;
        digits = digits + 1;
    }
    assert(dec_len(n as nat) == digits);
    // left-pad with zeros
    let mut pad: u64 = 0;
    proof {
        assert(out@ =~= old(out)@ + Seq::new(0nat, |i: int| 0x30u8));
    }
    while digits + pad < 10
        invariant
            digits >= 10 ==> pad == 0,
            digits < 10 ==> digits + pad <= 10,
            digits == dec_len(n as nat),
            out@ == old(out)@ + Seq::new(pad as nat, |i: int| 0x30u8),
        decreases 10 - digits - pad,
    {
        out.push(0x30);
        pad = pad + 1;
        proof {
            assert(out@ =~= old(out)@ + Seq::new(pad as nat, |i: int| 0x30u8));
        }
    }
    push_dec_u64(out, n);
    proof {
        assert(out@ =~= old(out)@ + dec10_bytes(n as nat));
    }
}

/// The UTF-16 code units of one character.
pub open spec fn utf16_units(c: char) -> Seq<u16> {
    if (c as u32) < 0x10000 {
        seq![(c as u32) as u16]
    } else {
        seq![
            (0xD800 + (((c as u32) as int) - 0x10000) / 0x400) as u16,
            (0xDC00 + (((c as u32) as int) - 0x10000) % 0x400) as u16,
        ]
    }
}

/// The UTF-16 code units of a character sequence.
pub open spec fn utf16_seq(s: Seq<char>) -> Seq<u16>
    decreases s.len(),
{
    if s.len() == 0 {
        Seq::empty()
    } else {
        utf16_units(s[0]) + utf16_seq(s.skip(1))
    }
}

/// One UTF-16BE code unit of a PDF string: parentheses and backslashes are
/// preceded by an escaping backslash word.
pub open spec fn pdf_word_bytes(w: u16) -> Seq<u8> {
    (if w == 0x28 || w == 0x29 || w == 0x5C {
        seq![0x00u8, 0x5Cu8]
    } else {
        Seq::empty()
    }) + seq![(w / 0x100) as u8, (w % 0x100) as u8]
}

/// The body of a PDF string: its code units, escaped and in big-endian order.
pub open spec fn pdf_string_body(ws: Seq<u16>) -> Seq<u8>
    decreases ws.len(),
{
    if ws.len() == 0 {
        Seq::empty()
    } else {
        pdf_word_bytes(ws[0]) + pdf_string_body(ws.skip(1))
    }
}

/// A textual string in PDF format: wrapped in parentheses, encoded in UTF-16BE
/// with a byte order mark, backslashes and parentheses escaped.
pub open spec fn pdf_string_bytes(s: Seq<char>) -> Seq<u8> {
    seq![0x28u8, 0xFEu8, 0xFFu8] + pdf_string_body(utf16_seq(s)) + seq![0x29u8]
}

proof fn lemma_pdf_string_body_concat(a: Seq<u16>, b: Seq<u16>)
    ensures
        pdf_string_body(a + b) == pdf_string_body(a) + pdf_string_body(b),
    decreases a.len(),
{
    if a.len() == 0 {
        assert(a + b =~= b);
        assert(pdf_string_body(a + b) =~= pdf_string_body(a) + pdf_string_body(b));
    } else {
        assert((a + b)[0] == a[0]);
        assert((a + b).skip(1) =~= a.skip(1) + b);
        lemma_pdf_string_body_concat(a.skip(1), b);
        assert(pdf_string_body(a + b) =~= pdf_string_body(a) + pdf_string_body(b));
    }
}

proof fn lemma_utf16_seq_push(s: Seq<char>, c: char)
    ensures
        utf16_seq(s.push(c)) == utf16_seq(s) + utf16_units(c),
    decreases s.len(),
{
    if s.len() == 0 {
        assert(s.push(c)[0] == c);
        assert(s.push(c).skip(1) =~= Seq::<char>::empty());
        assert(utf16_seq(s.push(c).skip(1)) == utf16_seq(Seq::<char>::empty()));
        assert(utf16_seq(Seq::<char>::empty()) =~= Seq::<u16>::empty());
        assert(utf16_seq(s) =~= Seq::<u16>::empty());
        assert(utf16_seq(s.push(c)) =~= utf16_seq(s) + utf16_units(c));
    } else {
        assert(s.push(c)[0] == s[0]);
        assert(s.push(c).skip(1) =~= s.skip(1).push(c));
        lemma_utf16_seq_push(s.skip(1), c);
        assert(utf16_seq(s.push(c).skip(1)) == utf16_seq(s.skip(1)) + utf16_units(c));
        assert(utf16_seq(s.push(c)) =~= utf16_seq(s) + utf16_units(c));
    }
}

/// Appends one escaped UTF-16BE code unit.
fn push_pdf_word(out: &mut Vec<u8>, w: u16)
    ensures
        final(out)@ == old(out)@ + pdf_word_bytes(w),
{
    if w == 0x28 || w == 0x29 || w == 0x5C {
        // precede with a backslash
        out.push(0x00);
        out.push(0x5C);
    }
    out.push((w / 0x100) as u8);
    out.push((w % 0x100) as u8);
    proof {
        assert(out@ =~= old(out)@ + pdf_word_bytes(w));
    }
}

/// Writes out a textual string in PDF format.
///
/// The string is wrapped in parentheses (`(` and `)`), encoded in UTF-16BE with
/// a byte order mark, and all backslashes and parentheses are escaped with a
/// preceding backslash.
#[verifier::loop_isolation(false)]
pub fn write_pdf_string(string: &str, out: &mut Vec<u8>)
    ensures
        final(out)@ == old(out)@ + pdf_string_bytes(string@),
{
    out.push(0x28);
    out.push(0xFE);
    out.push(0xFF);
    let mut it = string.chars();
    let ghost mut done: Seq<char> = Seq::empty();
    proof {
        assert(done + it.remaining() =~= string@);
        assert(utf16_seq(done) =~= Seq::<u16>::empty());
        assert(pdf_string_body(utf16_seq(done)) =~= Seq::<u8>::empty());
        assert(out@ =~= old(out)@ + seq![0x28u8, 0xFEu8, 0xFFu8]
            + pdf_string_body(utf16_seq(done)));
    }
    loop
        invariant
            it.decrease() is Some,
            done + it.remaining() == string@,
            out@ == old(out)@ + seq![0x28u8, 0xFEu8, 0xFFu8] + pdf_string_body(utf16_seq(done)),
        decreases it.decrease()->0,
    {
        let c = match it.next() {
            Some(c) => c,
            None => {
                break;
            },
        };
        let ghost done_before = done;
        proof {
            done = done.push(c);
            assert(done + it.remaining() =~= string@);
        }
        let u = c as u32;
        proof {
            vstd::utf8::char_is_scalar(c);
            assert(u <= 0x10FFFF);
        }
        if u < 0x10000 {
            let w: u16 = u as u16;
            push_pdf_word(out, w);
            proof {
                lemma_utf16_seq_push(done_before, c);
                lemma_pdf_string_body_concat(utf16_seq(done_before), utf16_units(c));
                assert(w == (c as u32) as u16);
                assert(utf16_units(c) =~= seq![w]);
                assert(utf16_units(c)[0] == w);
                assert(utf16_units(c).skip(1) =~= Seq::<u16>::empty());
                assert(pdf_string_body(utf16_units(c).skip(1)) =~= Seq::<u8>::empty());
                assert(pdf_string_body(utf16_units(c)) =~= pdf_word_bytes(w));
                assert(utf16_seq(done) == utf16_seq(done_before) + utf16_units(c));
                assert(pdf_string_body(utf16_seq(done)) == pdf_string_body(utf16_seq(done_before))
                    + pdf_string_body(utf16_units(c)));
                assert(out@ =~= old(out)@ + seq![0x28u8, 0xFEu8, 0xFFu8]
                    + pdf_string_body(utf16_seq(done)));
            }
        } else {
            let v = u - 0x10000;
            let w_hi: u16 = 0xD800 + (v / 0x400) as u16;
            let w_lo: u16 = 0xDC00 + (v % 0x400) as u16;
            push_pdf_word(out, w_hi);
            push_pdf_word(out, w_lo);
            proof {
                lemma_utf16_seq_push(done_before, c);
                lemma_pdf_string_body_concat(utf16_seq(done_before), utf16_units(c));
                assert(w_hi as int == 0xD800 + (((c as u32) as int) - 0x10000) / 0x400);
                assert(w_lo as int == 0xDC00 + (((c as u32) as int) - 0x10000) % 0x400);
                assert(utf16_units(c) =~= seq![w_hi, w_lo]);
                assert(utf16_units(c)[0] == w_hi);
                assert(utf16_units(c).skip(1) =~= seq![w_lo]);
                assert(pdf_string_body(utf16_units(c).skip(1)) == pdf_string_body(seq![w_lo]));
                assert(seq![w_lo].skip(1) =~= Seq::<u16>::empty());
                assert(pdf_string_body(seq![w_lo].skip(1)) =~= Seq::<u8>::empty());
                assert(pdf_string_body(seq![w_lo]) =~= pdf_word_bytes(w_lo));
                assert(pdf_string_body(utf16_units(c)) =~= pdf_word_bytes(w_hi)
                    + pdf_word_bytes(w_lo));
                assert(utf16_seq(done) == utf16_seq(done_before) + utf16_units(c));
                assert(pdf_string_body(utf16_seq(done)) == pdf_string_body(utf16_seq(done_before))
                    + pdf_string_body(utf16_units(c)));
                assert(out@ =~= old(out)@ + seq![0x28u8, 0xFEu8, 0xFFu8]
                    + pdf_string_body(utf16_seq(done)));
            }
        }
    }
    proof {
        assert(it.remaining().len() == 0);
        assert(done =~= string@);
    }
    out.push(0x29);
    proof {
        assert(out@ =~= old(out)@ + pdf_string_bytes(string@));
    }
}

/// Bytes that must be hex-escaped in a PDF name: white-space characters, the
/// number sign itself, delimiters, and everything outside `!` through `~`.
pub open spec fn name_byte_escaped(b: u8) -> bool {
    b < 0x21 || b > 0x7E || b == 0x23 || b == 0x25 || b == 0x28 || b == 0x29 || b == 0x2F
        || b == 0x3C || b == 0x3E || b == 0x5B || b == 0x5D || b == 0x7B || b == 0x7D
}

/// The uppercase hexadecimal digit for a value below 16.
pub open spec fn hex_digit_upper(n: int) -> u8 {
    if n < 10 {
        (0x30 + n) as u8
    } else {
        (0x41 + n - 10) as u8
    }
}

/// The encoding of one byte of a PDF name.
pub open spec fn name_byte_bytes(b: u8) -> Seq<u8> {
    if name_byte_escaped(b) {
        seq![0x23u8, hex_digit_upper(b as int / 16), hex_digit_upper(b as int % 16)]
    } else {
        seq![b]
    }
}

/// The body of a PDF name: its UTF-8 bytes, hex-escaped where needed.
pub open spec fn pdf_name_body(bs: Seq<u8>) -> Seq<u8>
    decreases bs.len(),
{
    if bs.len() == 0 {
        Seq::empty()
    } else {
        name_byte_bytes(bs[0]) + pdf_name_body(bs.skip(1))
    }
}

/// A PDF name: a slash followed by the escaped UTF-8 bytes of the name.
pub open spec fn pdf_name_bytes(bs: Seq<u8>) -> Seq<u8> {
    seq![0x2Fu8] + pdf_name_body(bs)
}

/// Appends one escaped byte of a PDF name.
fn push_name_byte(out: &mut Vec<u8>, b: u8)
    ensures
        final(out)@ == old(out)@ + name_byte_bytes(b),
{
    if b < 0x21 || b > 0x7E || b == 0x23 || b == 0x25 || b == 0x28 || b == 0x29 || b == 0x2F
        || b == 0x3C || b == 0x3E || b == 0x5B || b == 0x5D || b == 0x7B || b == 0x7D {
        out.push(0x23);
        let hi = b / 16;
        let lo = b % 16;
        out.push(if hi < 10 { 0x30 + hi } else { 0x41 + hi - 10 });
        out.push(if lo < 10 { 0x30 + lo } else { 0x41 + lo - 10 });
    } else {
        out.push(b);
    }
    proof {
        assert(out@ =~= old(out)@ + name_byte_bytes(b));
    }
}

/// Writes out a PDF name.
///
/// The output starts with a slash (`/`). The number sign (`#`) as well as
/// regular characters outside the range of `!` to `~` are encoded as a hex
/// escape: the number sign and two uppercase hexadecimal digits. White-space
/// and delimiter characters are escaped the same way.
#[verifier::loop_isolation(false)]
pub fn write_pdf_name(name: &str, out: &mut Vec<u8>)
    ensures
        final(out)@ == old(out)@ + pdf_name_bytes(name.spec_bytes()),
{
    out.push(0x2F);
    let bs = name.as_bytes();
    let mut i: usize = 0;
    proof {
        assert(out@ =~= old(out)@ + seq![0x2Fu8] + pdf_name_body(bs@.subrange(0, 0)));
    }
    while i < bs.len()
        invariant
            i <= bs@.len(),
            out@ == old(out)@ + seq![0x2Fu8] + pdf_name_body(bs@.subrange(0, i as int)),
        decreases bs@.len() - i,
    {
        let ghost pre = bs@.subrange(0, i as int);
        push_name_byte(out, bs[i]);
        i = i + 1;
        proof {
            lemma_pdf_name_body_push(pre, bs@[i - 1]);
            assert(pre.push(bs@[i - 1]) =~= bs@.subrange(0, i as int));
        }
    }
    proof {
        assert(bs@.subrange(0, bs@.len() as int) =~= bs@);
        assert(out@ =~= old(out)@ + pdf_name_bytes(name.spec_bytes()));
    }
}

proof fn lemma_pdf_name_body_push(bs: Seq<u8>, b: u8)
    ensures
        pdf_name_body(bs.push(b)) == pdf_name_body(bs) + name_byte_bytes(b),
    decreases bs.len(),
{
    if bs.len() == 0 {
        assert(bs.push(b)[0] == b);
        assert(bs.push(b).skip(1) =~= Seq::<u8>::empty());
        assert(pdf_name_body(bs.push(b).skip(1)) == pdf_name_body(Seq::<u8>::empty()));
        assert(pdf_name_body(Seq::<u8>::empty()) =~= Seq::<u8>::empty());
        assert(pdf_name_body(bs) =~= Seq::<u8>::empty());
        assert(pdf_name_body(bs.push(b)) =~= pdf_name_body(bs) + name_byte_bytes(b));
    } else {
        assert(bs.push(b)[0] == bs[0]);
        assert(bs.push(b).skip(1) =~= bs.skip(1).push(b));
        lemma_pdf_name_body_push(bs.skip(1), b);
        assert(pdf_name_body(bs.push(b).skip(1)) == pdf_name_body(bs.skip(1)) + name_byte_bytes(b));
        assert(pdf_name_body(bs.push(b)) =~= pdf_name_body(bs) + name_byte_bytes(b));
    }
}

/// The ID of a PDF object.
#[derive(Clone, Copy, Debug, Eq, Hash, Ord, PartialEq, PartialOrd, Structural)]
pub struct PdfId(pub u64);

/// A PDF object whose content can be written to a byte sink.
pub trait Object {
    /// The exact textual form of this object's content.
    spec fn content_bytes(&self) -> Seq<u8>;

    /// Appends the object's content in its textual form.
    fn write_content(&self, out: &mut Vec<u8>)
        ensures
            final(out)@ == old(out)@ + self.content_bytes(),
    ;
}

/// A Catalog PDF object, the topmost object in the hierarchical structure.
///
/// A catalog contains references to the root node of the page tree.
#[derive(Clone, Debug, Eq, Hash, Ord, PartialEq, PartialOrd)]
pub struct Catalog {
    pub root_pages_id: PdfId,
    pub lang: Option<String>,
}

/// The textual form of a catalog object.
pub open spec fn catalog_bytes(c: Catalog) -> Seq<u8> {
    ascii_seq("<</Type/Catalog"@) + ascii_seq("/Pages "@) + dec_bytes(c.root_pages_id.0 as nat)
        + ascii_seq(" 0 R"@) + (match c.lang {
        Some(l) => ascii_seq("/Lang"@) + pdf_string_bytes(l@),
        None => Seq::empty(),
    }) + ascii_seq(">>"@)
}

impl Object for Catalog {
    open spec fn content_bytes(&self) -> Seq<u8> {
        catalog_bytes(*self)
    }

    fn write_content(&self, out: &mut Vec<u8>) {
        proof {
            reveal_strlit("<</Type/Catalog");
            reveal_strlit("/Pages ");
            reveal_strlit(" 0 R");
            reveal_strlit("/Lang");
            reveal_strlit(">>");
        }
        push_ascii(out, "<</Type/Catalog");
        push_ascii(out, "/Pages ");
        push_dec_u64(out, self.root_pages_id.0);
        push_ascii(out, " 0 R");
        match &self.lang {
            Some(lang) => {
                push_ascii(out, "/Lang");
                write_pdf_string(lang.as_str(), out);
            },
            None => {},
        }
        push_ascii(out, ">>");
        proof {
            assert(out@ =~= old(out)@ + self.content_bytes());
        }
    }
}

/// A Pages PDF object, a branch in the page tree.
///
/// The simplest page tree consists of one `Pages` object with all `Page`
/// objects as its direct children.
#[derive(Clone, Debug, Eq, Hash, Ord, PartialEq, PartialOrd)]
pub struct Pages {
    pub children: Vec<PdfId>,
}

/// The references to all child pages after the first, each preceded by a
/// space.
pub open spec fn kids_tail_bytes(ids: Seq<PdfId>) -> Seq<u8>
    decreases ids.len(),
{
    if ids.len() == 0 {
        Seq::empty()
    } else {
        ascii_seq(" "@) + dec_bytes(ids[0].0 as nat) + ascii_seq(" 0 R"@) + kids_tail_bytes(
            ids.skip(1))
    }
}

/// The references to all child pages, separated by spaces.
pub open spec fn kids_bytes(ids: Seq<PdfId>) -> Seq<u8> {
    if ids.len() == 0 {
        Seq::empty()
    } else {
        dec_bytes(ids[0].0 as nat) + ascii_seq(" 0 R"@) + kids_tail_bytes(ids.skip(1))
    }
}

proof fn lemma_kids_tail_push(ids: Seq<PdfId>, id: PdfId)
    ensures
        kids_tail_bytes(ids.push(id)) == kids_tail_bytes(ids) + ascii_seq(" "@) + dec_bytes(
            id.0 as nat) + ascii_seq(" 0 R"@),
    decreases ids.len(),
{
    if ids.len() == 0 {
        assert(ids.push(id)[0] == id);
        assert(ids.push(id).skip(1) =~= Seq::<PdfId>::empty());
        assert(kids_tail_bytes(ids.push(id).skip(1)) == kids_tail_bytes(Seq::<PdfId>::empty()));
        assert(kids_tail_bytes(Seq::<PdfId>::empty()) =~= Seq::<u8>::empty());
        assert(kids_tail_bytes(ids) =~= Seq::<u8>::empty());
        assert(kids_tail_bytes(ids.push(id)) =~= kids_tail_bytes(ids) + ascii_seq(" "@)
            + dec_bytes(id.0 as nat) + ascii_seq(" 0 R"@));
    } else {
        assert(ids.push(id)[0] == ids[0]);
        assert(ids.push(id).skip(1) =~= ids.skip(1).push(id));
        lemma_kids_tail_push(ids.skip(1), id);
        assert(kids_tail_bytes(ids.push(id).skip(1)) == kids_tail_bytes(ids.skip(1).push(id)));
        assert(kids_tail_bytes(ids.push(id)) =~= kids_tail_bytes(ids) + ascii_seq(" "@)
            + dec_bytes(id.0 as nat) + ascii_seq(" 0 R"@));
    }
}

/// The textual form of a pages object.
pub open spec fn pages_bytes(p: Pages) -> Seq<u8> {
    ascii_seq("<</Type/Pages"@) + ascii_seq("/Kids["@) + kids_bytes(p.children@) + ascii_seq("]"@)
        + ascii_seq("/Count "@) + dec_bytes(p.children@.len()) + ascii_seq(">>"@)
}

impl Object for Pages {
    open spec fn content_bytes(&self) -> Seq<u8> {
        pages_bytes(*self)
    }

    #[verifier::loop_isolation(false)]
    fn write_content(&self, out: &mut Vec<u8>) {
        proof {
            reveal_strlit("<</Type/Pages");
            reveal_strlit("/Kids[");
            reveal_strlit(" ");
            reveal_strlit(" 0 R");
            reveal_strlit("]");
            reveal_strlit("/Count ");
            reveal_strlit(">>");
        }
        push_ascii(out, "<</Type/Pages");
        push_ascii(out, "/Kids[");
        let ghost mark = out@;
        let mut i: usize = 0;
        proof {
            assert(self.children@.subrange(0, 0) =~= Seq::<PdfId>::empty());
            assert(kids_bytes(self.children@.subrange(0, 0)) =~= Seq::<u8>::empty());
            assert(out@ =~= mark + kids_bytes(self.children@.subrange(0, 0)));
        }
        while i < self.children.len()
            invariant
                i <= self.children@.len(),
                out@ == mark + kids_bytes(self.children@.subrange(0, i as int)),
            decreases self.children@.len() - i,
        {
            let ghost pre = self.children@.subrange(0, i as int);
            if i > 0 {
                push_ascii(out, " ");
            }
            let child_id = self.children[i];
            push_dec_u64(out, child_id.0);
            push_ascii(out, " 0 R");
            i = i + 1;
            proof {
                assert(pre.push(child_id) =~= self.children@.subrange(0, i as int));
                if pre.len() == 0 {
                    assert(pre.push(child_id)[0] == child_id);
                    assert(pre.push(child_id).skip(1) =~= Seq::<PdfId>::empty());
                    assert(kids_tail_bytes(pre.push(child_id).skip(1)) == kids_tail_bytes(
                        Seq::<PdfId>::empty()));
                    assert(kids_tail_bytes(Seq::<PdfId>::empty()) =~= Seq::<u8>::empty());
                } else {
                    assert(pre.push(child_id)[0] == pre[0]);
                    assert(pre.push(child_id).skip(1) =~= pre.skip(1).push(child_id));
                    lemma_kids_tail_push(pre.skip(1), child_id);
                    assert(kids_tail_bytes(pre.push(child_id).skip(1)) == kids_tail_bytes(
                        pre.skip(1).push(child_id)));
                }
                assert(out@ =~= mark + kids_bytes(self.children@.subrange(0, i as int)));
            }
        }
        proof {
            assert(self.children@.subrange(0, self.children@.len() as int) =~= self.children@);
        }
        push_ascii(out, "]");
        push_ascii(out, "/Count ");
        push_dec_u64(out, self.children.len() as u64);
        push_ascii(out, ">>");
        proof {
            assert(out@ =~= old(out)@ + self.content_bytes());
        }
    }
}

/// A Page PDF object, a leaf in the page tree.
#[derive(Clone, Debug, Eq, Hash, Ord, PartialEq, PartialOrd)]
pub struct Page {
    /// The ID of the `Pages` object that is the immediate parent of this page.
    pub parent: PdfId,
    /// The width of the page, in points (1/72 in).
    pub width_pt: u64,
    /// The height of the page, in points (1/72 in).
    pub height_pt: u64,
    /// The ID of the content stream describing the contents of this page.
    pub contents: Option<PdfId>,
    /// Names and IDs of the XObjects referenced by this page, in the order
    /// they are written; names must not repeat.
    pub xobject_refs: Vec<(String, PdfId)>,
    /// Names and IDs of the fonts referenced by this page, in the order they
    /// are written; names must not repeat.
    pub font_refs: Vec<(String, PdfId)>,
}

/// A run of name-to-object references inside a dictionary.
pub open spec fn refs_bytes(rs: Seq<(String, PdfId)>) -> Seq<u8>
    decreases rs.len(),
{
    if rs.len() == 0 {
        Seq::empty()
    } else {
        pdf_name_bytes(vstd::utf8::encode_utf8(rs[0].0@)) + ascii_seq(" "@) + dec_bytes(
            rs[0].1.0 as nat) + ascii_seq(" 0 R"@) + refs_bytes(rs.skip(1))
    }
}

proof fn lemma_refs_bytes_push(rs: Seq<(String, PdfId)>, r: (String, PdfId))
    ensures
        refs_bytes(rs.push(r)) == refs_bytes(rs) + pdf_name_bytes(vstd::utf8::encode_utf8(r.0@))
            + ascii_seq(" "@) + dec_bytes(r.1.0 as nat) + ascii_seq(" 0 R"@),
    decreases rs.len(),
{
    if rs.len() == 0 {
        assert(rs.push(r)[0] == r);
        assert(rs.push(r).skip(1) =~= Seq::<(String, PdfId)>::empty());
        assert(refs_bytes(rs.push(r).skip(1)) == refs_bytes(Seq::<(String, PdfId)>::empty()));
        assert(refs_bytes(Seq::<(String, PdfId)>::empty()) =~= Seq::<u8>::empty());
        assert(refs_bytes(rs) =~= Seq::<u8>::empty());
        assert(refs_bytes(rs.push(r)) =~= refs_bytes(rs) + pdf_name_bytes(
            vstd::utf8::encode_utf8(r.0@)) + ascii_seq(" "@) + dec_bytes(r.1.0 as nat)
            + ascii_seq(" 0 R"@));
    } else {
        assert(rs.push(r)[0] == rs[0]);
        assert(rs.push(r).skip(1) =~= rs.skip(1).push(r));
        lemma_refs_bytes_push(rs.skip(1), r);
        assert(refs_bytes(rs.push(r).skip(1)) == refs_bytes(rs.skip(1).push(r)));
        assert(refs_bytes(rs.push(r)) =~= refs_bytes(rs) + pdf_name_bytes(
            vstd::utf8::encode_utf8(r.0@)) + ascii_seq(" "@) + dec_bytes(r.1.0 as nat)
            + ascii_seq(" 0 R"@));
    }
}

/// Appends a run of name-to-object references.
#[verifier::loop_isolation(false)]
fn push_refs(out: &mut Vec<u8>, rs: &Vec<(String, PdfId)>)
    ensures
        final(out)@ == old(out)@ + refs_bytes(rs@),
{
    proof {
        reveal_strlit(" ");
        reveal_strlit(" 0 R");
    }
    let mut i: usize = 0;
    proof {
        assert(rs@.subrange(0, 0) =~= Seq::<(String, PdfId)>::empty());
        assert(refs_bytes(rs@.subrange(0, 0)) =~= Seq::<u8>::empty());
        assert(out@ =~= old(out)@ + refs_bytes(rs@.subrange(0, 0)));
    }
    while i < rs.len()
        invariant
            i <= rs@.len(),
            out@ == old(out)@ + refs_bytes(rs@.subrange(0, i as int)),
        decreases rs@.len() - i,
    {
        let ghost pre = rs@.subrange(0, i as int);
        let name_str = rs[i].0.as_str();
        write_pdf_name(name_str, out);
        push_ascii(out, " ");
        push_dec_u64(out, rs[i].1.0);
        push_ascii(out, " 0 R");
        i = i + 1;
        proof {
            lemma_refs_bytes_push(pre, rs@[i - 1]);
            assert(pre.push(rs@[i - 1]) =~= rs@.subrange(0, i as int));
            assert(name_str.spec_bytes() == vstd::utf8::encode_utf8(rs@[i - 1].0@));
            assert(out@ =~= old(out)@ + refs_bytes(rs@.subrange(0, i as int)));
        }
    }
    proof {
        assert(rs@.subrange(0, rs@.len() as int) =~= rs@);
    }
}

/// The resource dictionary of a page.
///
/// The font dictionary, too, is written from the XObject reference list.
pub open spec fn page_resources_bytes(p: Page) -> Seq<u8> {
    ascii_seq("/Resources<</ProcSet[/PDF/Text/ImageB/ImageC/ImageI]"@)
        + (if p.xobject_refs@.len() > 0 {
        ascii_seq("/XObject<<"@) + refs_bytes(p.xobject_refs@) + ascii_seq(">>"@)
    } else {
        Seq::empty()
    }) + (if p.font_refs@.len() > 0 {
        ascii_seq("/Font<<"@) + refs_bytes(p.xobject_refs@) + ascii_seq(">>"@)
    } else {
        Seq::empty()
    }) + ascii_seq(">>"@)
}

/// Appends the resource dictionary of a page.
fn push_page_resources(p: &Page, out: &mut Vec<u8>)
    ensures
        final(out)@ == old(out)@ + page_resources_bytes(*p),
{
    proof {
        reveal_strlit("/Resources<</ProcSet[/PDF/Text/ImageB/ImageC/ImageI]");
        reveal_strlit("/XObject<<");
        reveal_strlit("/Font<<");
        reveal_strlit(">>");
    }
    push_ascii(out, "/Resources<</ProcSet[/PDF/Text/ImageB/ImageC/ImageI]");
    if p.xobject_refs.len() > 0 {
        push_ascii(out, "/XObject<<");
        push_refs(out, &p.xobject_refs);
        push_ascii(out, ">>");
    }
    if p.font_refs.len() > 0 {
        push_ascii(out, "/Font<<");
        push_refs(out, &p.xobject_refs);
        push_ascii(out, ">>");
    }
    push_ascii(out, ">>");
    proof {
        assert(out@ =~= old(out)@ + page_resources_bytes(*p));
    }
}

/// The textual form of a page object.
pub open spec fn page_bytes(p: Page) -> Seq<u8> {
    ascii_seq("<</Type/Page"@) + ascii_seq("/Parent "@) + dec_bytes(p.parent.0 as nat)
        + ascii_seq(" 0 R"@) + page_resources_bytes(p) + ascii_seq("/MediaBox[0 0 "@) + dec_bytes(
        p.width_pt as nat) + ascii_seq(" "@) + dec_bytes(p.height_pt as nat) + ascii_seq("]"@) + (
    match p.contents {
        Some(c) => ascii_seq("/Contents "@) + dec_bytes(c.0 as nat) + ascii_seq(" 0 R"@),
        None => Seq::empty(),
    }) + ascii_seq(">>"@)
}

impl Object for Page {
    open spec fn content_bytes(&self) -> Seq<u8> {
        page_bytes(*self)
    }

    #[verifier::rlimit(100)]
    fn write_content(&self, out: &mut Vec<u8>) {
        proof {
            reveal_strlit("<</Type/Page");
            reveal_strlit("/Parent ");
            reveal_strlit(" 0 R");
            reveal_strlit(">>");
            reveal_strlit("/MediaBox[0 0 ");
            reveal_strlit(" ");
            reveal_strlit("]");
            reveal_strlit("/Contents ");
        }
        push_ascii(out, "<</Type/Page");
        push_ascii(out, "/Parent ");
        push_dec_u64(out, self.parent.0);
        push_ascii(out, " 0 R");
        push_page_resources(self, out);
        push_ascii(out, "/MediaBox[0 0 ");
        push_dec_u64(out, self.width_pt);
        push_ascii(out, " ");
        push_dec_u64(out, self.height_pt);
        push_ascii(out, "]");
        match self.contents {
            Some(contents) => {
                push_ascii(out, "/Contents ");
                push_dec_u64(out, contents.0);
                push_ascii(out, " 0 R");
            },
            None => {},
        }
        push_ascii(out, ">>");
        proof {
            assert(out@ =~= old(out)@ + self.content_bytes());
        }
    }
}

/// A stream describing the contents of a PDF page.
#[derive(Clone, Debug, Eq, Hash, Ord, PartialEq, PartialOrd)]
pub struct PageContents {
    /// The drawing commands, in PDF's postfix operator notation, as a binary
    /// string.
    pub commands: Vec<u8>,
}

/// The textual form of a page contents object.
pub open spec fn page_contents_bytes(p: PageContents) -> Seq<u8> {
    ascii_seq("<<"@) + ascii_seq("/Length "@) + dec_bytes(p.commands@.len()) + ascii_seq(">>"@)
        + pdf_stream_bytes(p.commands@)
}

impl Object for PageContents {
    open spec fn content_bytes(&self) -> Seq<u8> {
        page_contents_bytes(*self)
    }

    fn write_content(&self, out: &mut Vec<u8>) {
        proof {
            reveal_strlit("<<");
            reveal_strlit("/Length ");
            reveal_strlit(">>");
        }
        push_ascii(out, "<<");
        push_ascii(out, "/Length ");
        push_dec_u64(out, self.commands.len() as u64);
        push_ascii(out, ">>");
        write_pdf_stream(self.commands.as_slice(), out);
        proof {
            assert(out@ =~= old(out)@ + self.content_bytes());
        }
    }
}

/// An external object (XObject) which is an image.
#[derive(Clone, Debug, Eq, Hash, Ord, PartialEq, PartialOrd)]
pub struct ImageXObject {
    /// The width of the image, in pixels.
    pub width: u64,
    /// The height of the image, in pixels.
    pub height: u64,
    /// The PDF name of the color space of the image.
    pub color_space: String,
    /// The number of bits used to encode one color component of one pixel.
    pub bits_per_component: u8,
    /// Recommend that the image be interpolated when scaled.
    pub interpolate: bool,
    /// The PDF names of the filters applied to the image, in order.
    pub data_filters: Vec<String>,
    /// The binary data of the image.
    pub data: Vec<u8>,
}

/// A run of PDF names.
pub open spec fn names_bytes(ns: Seq<String>) -> Seq<u8>
    decreases ns.len(),
{
    if ns.len() == 0 {
        Seq::empty()
    } else {
        pdf_name_bytes(vstd::utf8::encode_utf8(ns[0]@)) + names_bytes(ns.skip(1))
    }
}

proof fn lemma_names_bytes_push(ns: Seq<String>, n: String)
    ensures
        names_bytes(ns.push(n)) == names_bytes(ns) + pdf_name_bytes(vstd::utf8::encode_utf8(n@)),
    decreases ns.len(),
{
    if ns.len() == 0 {
        assert(ns.push(n)[0] == n);
        assert(ns.push(n).skip(1) =~= Seq::<String>::empty());
        assert(names_bytes(ns.push(n).skip(1)) == names_bytes(Seq::<String>::empty()));
        assert(names_bytes(Seq::<String>::empty()) =~= Seq::<u8>::empty());
        assert(names_bytes(ns) =~= Seq::<u8>::empty());
        assert(names_bytes(ns.push(n)) =~= names_bytes(ns) + pdf_name_bytes(
            vstd::utf8::encode_utf8(n@)));
    } else {
        assert(ns.push(n)[0] == ns[0]);
        assert(ns.push(n).skip(1) =~= ns.skip(1).push(n));
        lemma_names_bytes_push(ns.skip(1), n);
        assert(names_bytes(ns.push(n).skip(1)) == names_bytes(ns.skip(1).push(n)));
        assert(names_bytes(ns.push(n)) =~= names_bytes(ns) + pdf_name_bytes(
            vstd::utf8::encode_utf8(n@)));
    }
}

/// The filter list of an image XObject, if it has one.
pub open spec fn filter_section_bytes(fs: Seq<String>) -> Seq<u8> {
    if fs.len() > 0 {
        ascii_seq("/Filter["@) + names_bytes(fs) + ascii_seq("]"@)
    } else {
        Seq::empty()
    }
}

/// Appends the filter list of an image XObject, if it has one.
#[verifier::loop_isolation(false)]
fn push_filter_section(fs: &Vec<String>, out: &mut Vec<u8>)
    ensures
        final(out)@ == old(out)@ + filter_section_bytes(fs@),
{
    proof {
        reveal_strlit("/Filter[");
        reveal_strlit("]");
    }
    if fs.len() > 0 {
        push_ascii(out, "/Filter[");
        let ghost mark = out@;
        let mut i: usize = 0;
        proof {
            assert(fs@.subrange(0, 0) =~= Seq::<String>::empty());
            assert(names_bytes(fs@.subrange(0, 0)) =~= Seq::<u8>::empty());
            assert(out@ =~= mark + names_bytes(fs@.subrange(0, 0)));
        }
        while i < fs.len()
            invariant
                i <= fs@.len(),
                out@ == mark + names_bytes(fs@.subrange(0, i as int)),
            decreases fs@.len() - i,
        {
            let ghost pre = fs@.subrange(0, i as int);
            write_pdf_name(fs[i].as_str(), out);
            i = i + 1;
            proof {
                lemma_names_bytes_push(pre, fs@[i - 1]);
                assert(pre.push(fs@[i - 1]) =~= fs@.subrange(0, i as int));
                assert(out@ =~= mark + names_bytes(fs@.subrange(0, i as int)));
            }
        }
        proof {
            assert(fs@.subrange(0, fs@.len() as int) =~= fs@);
        }
        push_ascii(out, "]");
    }
    proof {
        assert(out@ =~= old(out)@ + filter_section_bytes(fs@));
    }
}

/// The textual form of an image XObject.
pub open spec fn image_xobject_bytes(x: ImageXObject) -> Seq<u8> {
    ascii_seq("<</Type/XObject/Subtype/Image"@) + ascii_seq("/Width "@) + dec_bytes(
        x.width as nat) + ascii_seq("/Height "@) + dec_bytes(x.height as nat) + ascii_seq(
        "/ColorSpace"@) + pdf_name_bytes(vstd::utf8::encode_utf8(x.color_space@)) + ascii_seq(
        "/BitsPerComponent "@) + dec_bytes(x.bits_per_component as nat) + ascii_seq(
        "/Interpolate "@) + (if x.interpolate {
        ascii_seq("true"@)
    } else {
        ascii_seq("false"@)
    }) + filter_section_bytes(x.data_filters@) + ascii_seq("/Length "@) + dec_bytes(x.data@.len())
        + ascii_seq(">>"@) + pdf_stream_bytes(x.data@)
}

impl Object for ImageXObject {
    open spec fn content_bytes(&self) -> Seq<u8> {
        image_xobject_bytes(*self)
    }

    #[verifier::loop_isolation(false)]
    #[verifier::rlimit(100)]
    fn write_content(&self, out: &mut Vec<u8>) {
        proof {
            reveal_strlit("<</Type/XObject/Subtype/Image");
            reveal_strlit("/Width ");
            reveal_strlit("/Height ");
            reveal_strlit("/ColorSpace");
            reveal_strlit("/BitsPerComponent ");
            reveal_strlit("/Interpolate ");
            reveal_strlit("true");
            reveal_strlit("false");
            reveal_strlit("/Filter[");
            reveal_strlit("]");
            reveal_strlit("/Length ");
            reveal_strlit(">>");
        }
        push_ascii(out, "<</Type/XObject/Subtype/Image");
        push_ascii(out, "/Width ");
        push_dec_u64(out, self.width);
        push_ascii(out, "/Height ");
        push_dec_u64(out, self.height);
        push_ascii(out, "/ColorSpace");
        write_pdf_name(self.color_space.as_str(), out);
        push_ascii(out, "/BitsPerComponent ");
        push_dec_u64(out, self.bits_per_component as u64);
        push_ascii(out, "/Interpolate ");
        if self.interpolate {
            push_ascii(out, "true");
        } else {
            push_ascii(out, "false");
        }
        push_filter_section(&self.data_filters, out);
        push_ascii(out, "/Length ");
        push_dec_u64(out, self.data.len() as u64);
        push_ascii(out, ">>");
        write_pdf_stream(self.data.as_slice(), out);
        proof {
            assert(out@ =~= old(out)@ + self.content_bytes());
        }
    }
}

/// One of the standard 14 fonts.
#[derive(Clone, Debug, Eq, Hash, Ord, PartialEq, PartialOrd)]
pub struct StandardFont {
    /// The PDF name of the font.
    pub name: String,
}

/// The textual form of a standard font object.
pub open spec fn standard_font_bytes(f: StandardFont) -> Seq<u8> {
    ascii_seq("<</Type/Font/Subtype/Type1"@) + ascii_seq("/BaseFont"@) + pdf_name_bytes(
        vstd::utf8::encode_utf8(f.name@)) + ascii_seq(">>"@)
}

impl Object for StandardFont {
    open spec fn content_bytes(&self) -> Seq<u8> {
        standard_font_bytes(*self)
    }

    fn write_content(&self, out: &mut Vec<u8>) {
        proof {
            reveal_strlit("<</Type/Font/Subtype/Type1");
            reveal_strlit("/BaseFont");
            reveal_strlit(">>");
        }
        push_ascii(out, "<</Type/Font/Subtype/Type1");
        push_ascii(out, "/BaseFont");
        write_pdf_name(self.name.as_str(), out);
        push_ascii(out, ">>");
        proof {
            assert(out@ =~= old(out)@ + self.content_bytes());
        }
    }
}

/// The contents of a PDF object.
#[derive(Clone, Debug, Eq, Hash, Ord, PartialEq, PartialOrd)]
pub enum Content {
    Catalog(Catalog),
    Pages(Pages),
    Page(Page),
    PageContents(PageContents),
    ImageXObject(ImageXObject),
    StandardFont(StandardFont),
}

impl Object for Content {
    open spec fn content_bytes(&self) -> Seq<u8> {
        match self {
            Content::Catalog(catalog) => catalog.content_bytes(),
            Content::Pages(pages) => pages.content_bytes(),
            Content::Page(page) => page.content_bytes(),
            Content::PageContents(page_contents) => page_contents.content_bytes(),
            Content::ImageXObject(image_xobject) => image_xobject.content_bytes(),
            Content::StandardFont(font) => font.content_bytes(),
        }
    }

    fn write_content(&self, out: &mut Vec<u8>) {
        match self {
            Self::Catalog(catalog) => catalog.write_content(out),
            Self::Pages(pages) => pages.write_content(out),
            Self::Page(page) => page.write_content(out),
            Self::PageContents(page_contents) => page_contents.write_content(out),
            Self::ImageXObject(image_xobject) => image_xobject.write_content(out),
            Self::StandardFont(font) => font.write_content(out),
        }
    }
}

/// A delimited PDF stream around the given data.
pub open spec fn pdf_stream_bytes(d: Seq<u8>) -> Seq<u8> {
    ascii_seq("\nstream\n"@) + d + ascii_seq("\nendstream"@)
}

/// Writes out a delimited PDF stream.
pub fn write_pdf_stream(data: &[u8], out: &mut Vec<u8>)
    ensures
        final(out)@ == old(out)@ + pdf_stream_bytes(data@),
{
    proof {
        reveal_strlit("\nstream\n");
        reveal_strlit("\nendstream");
    }
    push_ascii(out, "\nstream\n");
    out.extend_from_slice(data);
    push_ascii(out, "\nendstream");
    proof {
        assert(out@ =~= old(out)@ + pdf_stream_bytes(data@));
    }
}


/// A document in Portable Document Format.
///
/// The objects are kept sorted by strictly ascending ID; generation numbers
/// are always 0 in this simplified implementation.
#[derive(Clone, Debug, Eq, Hash, Ord, PartialEq, PartialOrd)]
pub struct Document {
    /// The objects, as ID/content pairs in strictly ascending ID order.
    pub objects: Vec<(PdfId, Content)>,
}

/// The objects are in strictly ascending ID order.
pub open spec fn doc_sorted(objs: Seq<(PdfId, Content)>) -> bool {
    forall|i: int, j: int| 0 <= i < j < objs.len() ==> (#[trigger] objs[i]).0.0 < (
    #[trigger] objs[j]).0.0
}

/// Appending an object with an ID above every present ID keeps the objects
/// sorted.
pub proof fn lemma_doc_sorted_push(objs: Seq<(PdfId, Content)>, e: (PdfId, Content))
    requires
        doc_sorted(objs),
        objs.len() > 0 ==> objs.last().0.0 < e.0.0,
    ensures
        doc_sorted(objs.push(e)),
{
    assert forall|i: int, j: int| 0 <= i < j < objs.push(e).len() implies (
    #[trigger] objs.push(e)[i]).0.0 < (#[trigger] objs.push(e)[j]).0.0 by {
        if j == objs.len() {
            assert(objs.push(e)[i] == objs[i]);
            assert(objs.push(e)[j] == e);
            if i < objs.len() - 1 {
                assert(objs[i].0.0 < objs[objs.len() - 1].0.0);
            }
        } else {
            assert(objs.push(e)[i] == objs[i]);
            assert(objs.push(e)[j] == objs[j]);
        }
    }
}

/// One object as written into the document body.
pub open spec fn obj_block_bytes(e: (PdfId, Content)) -> Seq<u8> {
    dec_bytes(e.0.0 as nat) + ascii_seq(" 0 obj\n"@) + e.1.content_bytes() + ascii_seq(
        "\nendobj\n"@)
}

/// The document body: every object in order.
pub open spec fn objs_blocks(objs: Seq<(PdfId, Content)>) -> Seq<u8>
    decreases objs.len(),
{
    if objs.len() == 0 {
        Seq::empty()
    } else {
        obj_block_bytes(objs[0]) + objs_blocks(objs.skip(1))
    }
}

proof fn lemma_objs_blocks_push(objs: Seq<(PdfId, Content)>, e: (PdfId, Content))
    ensures
        objs_blocks(objs.push(e)) == objs_blocks(objs) + obj_block_bytes(e),
    decreases objs.len(),
{
    if objs.len() == 0 {
        assert(objs.push(e)[0] == e);
        assert(objs.push(e).skip(1) =~= Seq::<(PdfId, Content)>::empty());
        assert(objs_blocks(objs.push(e).skip(1)) == objs_blocks(Seq::<(PdfId, Content)>::empty()));
        assert(objs_blocks(Seq::<(PdfId, Content)>::empty()) =~= Seq::<u8>::empty());
        assert(objs_blocks(objs) =~= Seq::<u8>::empty());
        assert(objs_blocks(objs.push(e)) =~= objs_blocks(objs) + obj_block_bytes(e));
    } else {
        assert(objs.push(e)[0] == objs[0]);
        assert(objs.push(e).skip(1) =~= objs.skip(1).push(e));
        lemma_objs_blocks_push(objs.skip(1), e);
        assert(objs_blocks(objs.push(e).skip(1)) == objs_blocks(objs.skip(1).push(e)));
        assert(objs_blocks(objs.push(e)) =~= objs_blocks(objs) + obj_block_bytes(e));
    }
}

/// The fixed document header: the magic and a binary-detection comment line.
pub open spec fn pdf_header() -> Seq<u8> {
    ascii_seq("%PDF-1.5"@) + seq![0x0Au8, 0x25u8, 0xE2u8, 0xE3u8, 0xCFu8, 0xD3u8, 0x0Au8, 0x0Au8]
}

/// The byte position of object `i` within the document.
pub open spec fn obj_offset(objs: Seq<(PdfId, Content)>, i: int) -> int {
    (pdf_header().len() + objs_blocks(objs.subrange(0, i)).len()) as int
}

/// One free cross-reference line.
pub open spec fn xref_free_line(off: int) -> Seq<u8> {
    dec10_bytes(off as nat) + ascii_seq(" 65535 f\r\n"@)
}

/// One used cross-reference line.
pub open spec fn xref_used_line(off: int) -> Seq<u8> {
    dec10_bytes(off as nat) + ascii_seq(" 00000 n\r\n"@)
}

/// The cross-reference lines for one object: free lines, carrying the
/// object's own offset, for every skipped ID below it, then its used line.
pub open spec fn xref_entry_lines(off: int, id: int, cur: int) -> Seq<u8>
    decreases id - cur,
{
    if cur < id {
        xref_free_line(off) + xref_entry_lines(off, id, cur + 1)
    } else {
        xref_used_line(off)
    }
}

/// The body of the cross-reference table from object `i` on, with `cur` the
/// next ID to account for.
pub open spec fn xref_body(objs: Seq<(PdfId, Content)>, i: int, cur: int) -> Seq<u8>
    decreases objs.len() - i,
{
    if i < 0 || i >= objs.len() {
        Seq::empty()
    } else {
        xref_entry_lines(obj_offset(objs, i), objs[i].0.0 as int, cur) + xref_body(
            objs, i + 1, objs[i].0.0 as int + 1)
    }
}

/// The index of the first catalog object.
pub open spec fn first_catalog_index(objs: Seq<(PdfId, Content)>) -> int
    decreases objs.len(),
{
    if objs.len() == 0 {
        0
    } else if objs[0].1 is Catalog {
        0
    } else {
        1 + first_catalog_index(objs.skip(1))
    }
}

/// Some object of the document is a catalog.
pub open spec fn has_catalog(objs: Seq<(PdfId, Content)>) -> bool {
    exists|i: int| 0 <= i < objs.len() && (#[trigger] objs[i]).1 is Catalog
}

/// The start of the cross-reference table: its keyword and the one subsection
/// header covering IDs 0 through the highest.
pub open spec fn xref_header_bytes(max_id: int) -> Seq<u8> {
    ascii_seq("xref\n"@) + ascii_seq("0 "@) + dec_bytes((max_id + 1) as nat) + ascii_seq("\n"@)
}

/// The trailer: the object count, the root reference, and where the
/// cross-reference table starts.
pub open spec fn trailer_bytes(max_id: int, root_id: int, xref_abs: int) -> Seq<u8> {
    ascii_seq("trailer\n"@) + ascii_seq("<</Size "@) + dec_bytes((max_id + 1) as nat) + ascii_seq(
        "/Root "@) + dec_bytes(root_id as nat) + ascii_seq(" 0 R>>\n"@) + ascii_seq(
        "startxref\n"@) + dec_bytes(xref_abs as nat) + ascii_seq("\n%%EOF\n"@)
}

/// The complete textual form of a document: header, every object, the
/// cross-reference table and the trailer.
pub open spec fn pdf_doc_bytes(objs: Seq<(PdfId, Content)>) -> Seq<u8> {
    let max_id = objs.last().0.0 as int;
    let xref_abs = (pdf_header().len() + objs_blocks(objs).len()) as int;
    pdf_header() + objs_blocks(objs) + xref_header_bytes(max_id) + xref_body(objs, 0, 0)
        + trailer_bytes(max_id, objs[first_catalog_index(objs)].0.0 as int, xref_abs)
}

/// Appends the start of the cross-reference table.
fn push_xref_header(max_id: u64, out: &mut Vec<u8>)
    requires
        max_id < u64::MAX,
    ensures
        final(out)@ == old(out)@ + xref_header_bytes(max_id as int),
{
    proof {
        reveal_strlit("xref\n");
        reveal_strlit("0 ");
        reveal_strlit("\n");
    }
    push_ascii(out, "xref\n");
    push_ascii(out, "0 ");
    push_dec_u64(out, max_id + 1);
    push_ascii(out, "\n");
    proof {
        assert(out@ =~= old(out)@ + xref_header_bytes(max_id as int));
    }
}

/// Appends the trailer.
fn push_trailer(max_id: u64, root_id: u64, xref_abs: u64, out: &mut Vec<u8>)
    requires
        max_id < u64::MAX,
    ensures
        final(out)@ == old(out)@ + trailer_bytes(max_id as int, root_id as int, xref_abs as int),
{
    proof {
        reveal_strlit("trailer\n");
        reveal_strlit("<</Size ");
        reveal_strlit("/Root ");
        reveal_strlit(" 0 R>>\n");
        reveal_strlit("startxref\n");
        reveal_strlit("\n%%EOF\n");
    }
    push_ascii(out, "trailer\n");
    push_ascii(out, "<</Size ");
    push_dec_u64(out, max_id + 1);
    push_ascii(out, "/Root ");
    push_dec_u64(out, root_id);
    push_ascii(out, " 0 R>>\n");
    push_ascii(out, "startxref\n");
    push_dec_u64(out, xref_abs);
    push_ascii(out, "\n%%EOF\n");
    proof {
        assert(out@ =~= old(out)@ + trailer_bytes(max_id as int, root_id as int, xref_abs as int));
    }
}

proof fn lemma_first_catalog_in_range(objs: Seq<(PdfId, Content)>)
    requires
        has_catalog(objs),
    ensures
        0 <= first_catalog_index(objs) < objs.len(),
        objs[first_catalog_index(objs)].1 is Catalog,
        forall|k: int| 0 <= k < first_catalog_index(objs) ==> !((#[trigger] objs[k]).1 is Catalog),
    decreases objs.len(),
{
    if objs.len() == 0 {
    } else if objs[0].1 is Catalog {
    } else {
        assert(has_catalog(objs.skip(1))) by {
            let w = choose|i: int| 0 <= i < objs.len() && (#[trigger] objs[i]).1 is Catalog;
            assert(objs.skip(1)[w - 1] == objs[w]);
        }
        lemma_first_catalog_in_range(objs.skip(1));
        assert forall|k: int| 0 <= k < first_catalog_index(objs)
            implies !((#[trigger] objs[k]).1 is Catalog) by {
            if k > 0 {
                assert(objs.skip(1)[k - 1] == objs[k]);
            }
        }
    }
}

#[verifier::loop_isolation(false)]
#[verifier::rlimit(100)]
fn push_doc_body(objects: &Vec<(PdfId, Content)>, out: &mut Vec<u8>) -> (offsets: Vec<u64>)
    ensures
        final(out)@ == old(out)@ + pdf_header() + objs_blocks(objects@),
        offsets@.len() == objects@.len(),
        forall|k: int| 0 <= k < objects@.len() ==> (#[trigger] offsets@[k]) as int == obj_offset(
            objects@, k),
{
    proof {
        reveal_strlit("%PDF-1.5");
        reveal_strlit(" 0 obj\n");
        reveal_strlit("\nendobj\n");
    }
    let ghost objs = objects@;
    let base_len = out.len();

    // header (magic and binary detection comment line)
    push_ascii(out, "%PDF-1.5");
    out.push(0x0A);
    out.push(0x25);
    out.push(0xE2);
    out.push(0xE3);
    out.push(0xCF);
    out.push(0xD3);
    out.push(0x0A);
    out.push(0x0A);
    proof {
        assert(out@ =~= old(out)@ + pdf_header());
    }

    let mut offsets: Vec<u64> = Vec::new();
    let mut i: usize = 0;
    proof {
        assert(objs.subrange(0, 0) =~= Seq::<(PdfId, Content)>::empty());
        assert(objs_blocks(objs.subrange(0, 0)) =~= Seq::<u8>::empty());
        assert(out@ =~= old(out)@ + pdf_header() + objs_blocks(objs.subrange(0, 0)));
    }
    while i < objects.len()
        invariant
            i <= objs.len(),
            objs == objects@,
            base_len == old(out)@.len(),
            base_len <= out@.len(),
            offsets@.len() == i,
            forall|k: int| 0 <= k < i ==> (#[trigger] offsets@[k]) as int == obj_offset(objs, k),
            out@ == old(out)@ + pdf_header() + objs_blocks(objs.subrange(0, i as int)),
        decreases objs.len() - i,
    {
        let ghost pre = objs.subrange(0, i as int);
        let object_start = (out.len() - base_len) as u64;
        offsets.push(object_start);
        push_dec_u64(out, objects[i].0.0);
        push_ascii(out, " 0 obj\n");
        objects[i].1.write_content(out);
        push_ascii(out, "\nendobj\n");
        i = i + 1;
        proof {
            lemma_objs_blocks_push(pre, objs[i - 1]);
            assert(pre.push(objs[i - 1]) =~= objs.subrange(0, i as int));
            assert(out@ =~= old(out)@ + pdf_header() + objs_blocks(objs.subrange(0, i as int)));
        }
    }
    proof {
        assert(objs.subrange(0, objs.len() as int) =~= objs);
    }
    offsets
}

#[verifier::loop_isolation(false)]
fn push_xref_entries(objects: &Vec<(PdfId, Content)>, offsets: &Vec<u64>, out: &mut Vec<u8>)
    requires
        objects@.len() > 0,
        doc_sorted(objects@),
        objects@.last().0.0 < u64::MAX,
        offsets@.len() == objects@.len(),
        forall|k: int| 0 <= k < objects@.len() ==> (#[trigger] offsets@[k]) as int == obj_offset(
            objects@, k),
    ensures
        final(out)@ == old(out)@ + xref_body(objects@, 0, 0),
{
    proof {
        reveal_strlit(" 65535 f\r\n");
        reveal_strlit(" 00000 n\r\n");
    }
    let ghost objs = objects@;
    let ghost pre_xref = out@;
    let mut cur_obj_id: u64 = 0;
    let mut j: usize = 0;
    proof {
        assert(out@ + xref_body(objs, 0, 0) =~= pre_xref + xref_body(objs, 0, 0));
    }
    while j < objects.len()
        invariant
            j <= objs.len(),
            j < objs.len() ==> cur_obj_id <= objs[j as int].0.0,
            out@ + xref_body(objs, j as int, cur_obj_id as int) == pre_xref + xref_body(
                objs, 0, 0),
        decreases objs.len() - j,
    {
        let id = objects[j].0.0;
        let off = offsets[j];
        proof {
            assert(off as int == obj_offset(objs, j as int));
        }
        while cur_obj_id < id
            invariant
                cur_obj_id <= id,
                out@ + xref_entry_lines(off as int, id as int, cur_obj_id as int) + xref_body(
                    objs, j as int + 1, id as int + 1) == pre_xref + xref_body(objs, 0, 0),
            decreases id - cur_obj_id,
        {
            push_dec10_u64(out, off);
            push_ascii(out, " 65535 f\r\n");
            cur_obj_id = cur_obj_id + 1;
            proof {
                assert(out@ + xref_entry_lines(off as int, id as int, cur_obj_id as int)
                    + xref_body(objs, j as int + 1, id as int + 1) =~= pre_xref + xref_body(
                    objs, 0, 0));
            }
        }
        push_dec10_u64(out, off);
        push_ascii(out, " 00000 n\r\n");
        proof {
            assert(id < u64::MAX) by {
                if j as int == objs.len() - 1 {
                } else {
                    assert(objs[j as int].0.0 < objs[objs.len() - 1].0.0);
                }
            }
        }
        cur_obj_id = id + 1;
        j = j + 1;
        proof {
            if j < objects.len() {
                assert(objs[j - 1].0.0 < objs[j as int].0.0);
            }
            assert(out@ + xref_body(objs, j as int, cur_obj_id as int) =~= pre_xref + xref_body(
                objs, 0, 0));
        }
    }
    proof {
        assert(xref_body(objs, objs.len() as int, cur_obj_id as int) =~= Seq::<u8>::empty());
        assert(out@ =~= pre_xref + xref_body(objs, 0, 0));
    }
}

#[verifier::loop_isolation(false)]
fn find_catalog_index(objects: &Vec<(PdfId, Content)>) -> (r: usize)
    requires
        has_catalog(objects@),
    ensures
        r as int == first_catalog_index(objects@),
        r < objects@.len(),
{
    let ghost objs = objects@;
    let n = objects.len();
    let mut root_idx: usize = 0;
    loop
        invariant
            root_idx < n,
            n == objs.len(),
            forall|k: int| 0 <= k < root_idx ==> !((#[trigger] objs[k]).1 is Catalog),
        decreases objs.len() - root_idx,
    {
        let is_catalog = match &objects[root_idx].1 {
            Content::Catalog(_) => true,
            _ => false,
        };
        if is_catalog {
            break;
        }
        proof {
            lemma_first_catalog_in_range(objs);
            if root_idx + 1 == objs.len() {
                assert(objs[first_catalog_index(objs)].1 is Catalog);
                assert(false);
            }
        }
        root_idx = root_idx + 1;
    }
    proof {
        lemma_first_catalog_in_range(objs);
        assert forall|k: int| 0 <= k < objs.len() && objs[k].1 is Catalog
            implies first_catalog_index(objs) <= k by {
            if k < first_catalog_index(objs) {
                assert(!(objs[k].1 is Catalog));
            }
        }
        assert(first_catalog_index(objs) == root_idx as int);
    }
    root_idx
}

impl Document {
    /// Writes the whole document: the header, every object in ascending ID
    /// order, the cross-reference table and the trailer.
    #[verifier::loop_isolation(false)]
    #[verifier::rlimit(100)]
    pub fn write_pdf(&self, out: &mut Vec<u8>)
        requires
            self.objects@.len() > 0,
            doc_sorted(self.objects@),
            has_catalog(self.objects@),
            self.objects@.last().0.0 < u64::MAX,
        ensures
            final(out)@ == old(out)@ + pdf_doc_bytes(self.objects@),
    {
        let ghost objs = self.objects@;
        let base_len = out.len();

        let offsets = push_doc_body(&self.objects, out);

        let max_obj_id = self.objects[self.objects.len() - 1].0.0;

        // the cross-reference table
        let xref_abs = (out.len() - base_len) as u64;
        push_xref_header(max_obj_id, out);
        push_xref_entries(&self.objects, &offsets, out);

        // the trailer points at the catalog: the root of the document
        let root_idx = find_catalog_index(&self.objects);
        let root_obj_id = self.objects[root_idx].0.0;
        push_trailer(max_obj_id, root_obj_id, xref_abs, out);
        proof {
            assert(out@ =~= old(out)@ + pdf_doc_bytes(objs));
        }
    }
}

} // verus!
