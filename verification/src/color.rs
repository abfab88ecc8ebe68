//! Deterministic label colors: a label's digest picks one of ten fixed
//! palette entries, so the same label always gets the same color.

use vstd::arithmetic::power::pow;
use vstd::prelude::*;

verus! {

/// Number of colors in the fixed palette.
pub const PALETTE_LEN: usize = 10;

/// What the md5 digest of a label's UTF-8 encoding is: sixteen bytes
/// that depend on the label's characters alone.
pub uninterp spec fn md5_of(label: Seq<char>) -> Seq<u8>;

/// Relies on md5::compute: the digest of the label's UTF-8 bytes, a
/// pure function of the text, sixteen bytes long.
#[verifier::external_body]
fn md5_digest(label: &Vec<char>) -> (r: Vec<u8>)
    ensures
        r@ == md5_of(label@),
        r@.len() == 16,
{
    let text: String = label.iter().collect();
    let digest = md5::compute(text.as_bytes());
    let bytes: [u8; 16] = digest.into();
    bytes.to_vec()
}

/// The value of a little-endian byte string: the first byte is the
/// least significant.
pub open spec fn le_bytes_val(s: Seq<u8>) -> int
    decreases s.len(),
{
    if s.len() == 0 {
        0
    } else {
        s[0] + 256 * le_bytes_val(s.drop_first())
    }
}

proof fn lemma_pow256_16()
    ensures
        pow(256, 16) == 0x1_0000_0000_0000_0000_0000_0000_0000_0000,
{
    reveal(pow);
    assert(pow(256, 0) == 1);
    assert(pow(256, 1) == 256 * pow(256, 0));
    assert(pow(256, 2) == 256 * pow(256, 1));
    assert(pow(256, 3) == 256 * pow(256, 2));
    assert(pow(256, 4) == 256 * pow(256, 3));
    assert(pow(256, 5) == 256 * pow(256, 4));
    assert(pow(256, 6) == 256 * pow(256, 5));
    assert(pow(256, 7) == 256 * pow(256, 6));
    assert(pow(256, 8) == 256 * pow(256, 7));
    assert(pow(256, 9) == 256 * pow(256, 8));
    assert(pow(256, 10) == 256 * pow(256, 9));
    assert(pow(256, 11) == 256 * pow(256, 10));
    assert(pow(256, 12) == 256 * pow(256, 11));
    assert(pow(256, 13) == 256 * pow(256, 12));
    assert(pow(256, 14) == 256 * pow(256, 13));
    assert(pow(256, 15) == 256 * pow(256, 14));
    assert(pow(256, 16) == 256 * pow(256, 15));
}

proof fn lemma_le_bytes_val_bound(s: Seq<u8>)
    ensures
        0 <= le_bytes_val(s) < pow(256, s.len() as nat),
    decreases s.len(),
{
    reveal(pow);
    if s.len() == 0 {
        assert(pow(256, 0) == 1);
    } else {
        lemma_le_bytes_val_bound(s.drop_first());
        assert(pow(256, s.len() as nat) == 256 * pow(256, (s.len() - 1) as nat));
    }
}

/// The palette index of a label: its digest, read as a little-endian
/// number, reduced modulo the palette size.
pub open spec fn color_index_spec(label: Seq<char>) -> int {
    le_bytes_val(md5_of(label)) % (PALETTE_LEN as int)
}

/// The palette index of a label's color.
pub fn get_color_index(label: &Vec<char>) -> (r: usize)
    ensures
        r == color_index_spec(label@),
        r < PALETTE_LEN,
{
    let digest = md5_digest(label);
    let ghost s = digest@;
    let mut val: u128 = 0;
    let mut i: usize = 16;
    proof {
        assert(s.skip(16) =~= Seq::<u8>::empty());
        vstd::arithmetic::power::lemma_pow_positive(256, 0);
    }
    while i > 0
        invariant
            i <= 16,
            digest@ == s,
            s.len() == 16,
            val == le_bytes_val(s.skip(i as int)),
            0 <= le_bytes_val(s.skip(i as int)) < pow(256, (16 - i) as nat),
        decreases i,
    {
        i = i - 1;
        proof {
            assert(s.skip(i as int).drop_first() =~= s.skip(i + 1));
            assert(s.skip(i as int)[0] == s[i as int]);
            assert(le_bytes_val(s.skip(i as int)) == s[i as int] + 256 * le_bytes_val(
                s.skip(i + 1),
            ));
            lemma_le_bytes_val_bound(s.skip(i as int));
            reveal(pow);
            assert(pow(256, (16 - i) as nat) == 256 * pow(256, (15 - i) as nat));
            vstd::arithmetic::power::lemma_pow_increases(256, (16 - i) as nat, 16);
            lemma_pow256_16();
        }
        val = val * 256 + (digest[i] as u128);
    }
    proof {
        assert(s.skip(0) =~= s);
    }
    let idx = (val % 10) as usize;
    idx
}

/// The fixed ten-entry palette, as red, green and blue components.
pub open spec fn palette_spec(i: int) -> (u8, u8, u8)
    recommends
        0 <= i < 10,
{
    if i == 0 {
        (190u8, 0u8, 0u8)
    } else if i == 1 {
        (0u8, 190u8, 0u8)
    } else if i == 2 {
        (15u8, 52u8, 215u8)
    } else if i == 3 {
        (227u8, 159u8, 0u8)
    } else if i == 4 {
        (0u8, 190u8, 190u8)
    } else if i == 5 {
        (156u8, 0u8, 190u8)
    } else if i == 6 {
        (0u8, 176u8, 123u8)
    } else if i == 7 {
        (104u8, 0u8, 176u8)
    } else if i == 8 {
        (255u8, 0u8, 172u8)
    } else {
        (0u8, 122u8, 198u8)
    }
}

/// The palette entry for an index, reduced modulo the palette size.
pub fn palette_rgb(index: usize) -> (r: (u8, u8, u8))
    ensures
        r == palette_spec(index as int % (PALETTE_LEN as int)),
{
    let i = index % PALETTE_LEN;
    if i == 0 {
        (190, 0, 0)
    } else if i == 1 {
        (0, 190, 0)
    } else if i == 2 {
        (15, 52, 215)
    } else if i == 3 {
        (227, 159, 0)
    } else if i == 4 {
        (0, 190, 190)
    } else if i == 5 {
        (156, 0, 190)
    } else if i == 6 {
        (0, 176, 123)
    } else if i == 7 {
        (104, 0, 176)
    } else if i == 8 {
        (255, 0, 172)
    } else {
        (0, 122, 198)
    }
}

/// The lower-case hexadecimal digit for a value below sixteen.
pub open spec fn hex_digit(d: int) -> char
    recommends
        0 <= d < 16,
{
    if d == 0 {
        '0'
    } else if d == 1 {
        '1'
    } else if d == 2 {
        '2'
    } else if d == 3 {
        '3'
    } else if d == 4 {
        '4'
    } else if d == 5 {
        '5'
    } else if d == 6 {
        '6'
    } else if d == 7 {
        '7'
    } else if d == 8 {
        '8'
    } else if d == 9 {
        '9'
    } else if d == 10 {
        'a'
    } else if d == 11 {
        'b'
    } else if d == 12 {
        'c'
    } else if d == 13 {
        'd'
    } else if d == 14 {
        'e'
    } else {
        'f'
    }
}

/// Two lower-case hexadecimal digits of a byte, high digit first.
pub open spec fn hex_byte(b: u8) -> Seq<char> {
    seq![hex_digit(b as int / 16), hex_digit(b as int % 16)]
}

/// The tmux background color string for a palette index: a `#` and six
/// lower-case hexadecimal digits.
pub open spec fn tmux_color_spec(index: int) -> Seq<char> {
    let (r, g, b) = palette_spec(index % (PALETTE_LEN as int));
    seq!['#'] + hex_byte(r) + hex_byte(g) + hex_byte(b)
}

fn hex_digit_char(d: u8) -> (r: char)
    requires
        d < 16,
    ensures
        r == hex_digit(d as int),
{
    if d == 0 {
        '0'
    } else if d == 1 {
        '1'
    } else if d == 2 {
        '2'
    } else if d == 3 {
        '3'
    } else if d == 4 {
        '4'
    } else if d == 5 {
        '5'
    } else if d == 6 {
        '6'
    } else if d == 7 {
        '7'
    } else if d == 8 {
        '8'
    } else if d == 9 {
        '9'
    } else if d == 10 {
        'a'
    } else if d == 11 {
        'b'
    } else if d == 12 {
        'c'
    } else if d == 13 {
        'd'
    } else if d == 14 {
        'e'
    } else {
        'f'
    }
}

fn push_hex_byte(out: &mut Vec<char>, b: u8)
    ensures
        final(out)@ == old(out)@ + hex_byte(b),
{
    out.push(hex_digit_char(b / 16));
    out.push(hex_digit_char(b % 16));
    proof {
        assert(out@ =~= old(out)@ + hex_byte(b));
    }
}

/// The tmux color string for a palette index.
pub fn get_tmux_color(index: usize) -> (r: Vec<char>)
    ensures
        r@ == tmux_color_spec(index as int),
{
    let (cr, cg, cb) = palette_rgb(index);
    let mut out: Vec<char> = Vec::new();
    out.push('#');
    push_hex_byte(&mut out, cr);
    push_hex_byte(&mut out, cg);
    push_hex_byte(&mut out, cb);
    proof {
        assert(out@ =~= tmux_color_spec(index as int));
    }
    out
}

} // verus!
