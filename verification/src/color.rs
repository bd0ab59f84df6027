use vstd::prelude::*;

verus! {

/// ASCII code of the digit `0`.
pub open spec fn ascii_zero() -> int {
    48
}

/// The canonical decimal spelling of `n` in ASCII digits, most significant first,
/// without leading zeros (a single `0` for zero).
pub open spec fn decimal_digits(n: nat) -> Seq<u8>
    decreases n,
{
    if n < 10 {
        seq![(ascii_zero() + n) as u8]
    } else {
        decimal_digits(n / 10).push((ascii_zero() + n % 10) as u8)
    }
}

/// The number that a string of ASCII digits spells in base ten.
pub open spec fn decimal_value(s: Seq<u8>) -> int
    decreases s.len(),
{
    if s.len() == 0 {
        0
    } else {
        decimal_value(s.drop_last()) * 10 + (s.last() - ascii_zero())
    }
}

/// Whether every byte of `s` is an ASCII digit.
pub open spec fn all_digits(s: Seq<u8>) -> bool {
    forall|i: int| 0 <= i < s.len() ==> 48 <= #[trigger] s[i] <= 57
}

/// One text line of a plain (`P3`) PPM pixel: the three channel values in decimal,
/// separated by single spaces and ended by a newline.
pub open spec fn color_line(r: nat, g: nat, b: nat) -> Seq<u8> {
    decimal_digits(r) + seq![32u8] + decimal_digits(g) + seq![32u8] + decimal_digits(b) + seq![
        10u8,
    ]
}

/// The header of a plain PPM image: the magic `P3`, the width and height, and the
/// maximal channel value 255, one item per line.
pub open spec fn ppm_header(width: nat, height: nat) -> Seq<u8> {
    seq![80u8, 51u8, 10u8] + decimal_digits(width) + seq![32u8] + decimal_digits(height) + seq![
        10u8,
        50u8,
        53u8,
        53u8,
        10u8,
    ]
}

/// The pixel lines of a plain PPM image, one `color_line` per pixel, in order.
pub open spec fn pixel_lines(pixels: Seq<(u16, u16, u16)>) -> Seq<u8>
    decreases pixels.len(),
{
    if pixels.len() == 0 {
        Seq::empty()
    } else {
        let last = pixels.last();
        pixel_lines(pixels.drop_last()) + color_line(last.0 as nat, last.1 as nat, last.2 as nat)
    }
}

/// Decimal spellings are made of digits, are never empty, start with a nonzero
/// digit unless the number is zero, and spell back the number they were made from.
pub proof fn lemma_decimal_roundtrip(n: nat)
    ensures
        decimal_digits(n).len() >= 1,
        all_digits(decimal_digits(n)),
        decimal_value(decimal_digits(n)) == n,
        n > 0 ==> decimal_digits(n)[0] != 48,
    decreases n,
{
    let s = decimal_digits(n);
    if n < 10 {
        assert(s.drop_last() =~= Seq::<u8>::empty());
        assert(decimal_value(s.drop_last()) == 0);
    } else {
        lemma_decimal_roundtrip(n / 10);
        assert(s.drop_last() =~= decimal_digits(n / 10));
        assert(s[0] == decimal_digits(n / 10)[0]);
        vstd::arithmetic::div_mod::lemma_fundamental_div_mod(n as int, 10);
        assert(decimal_value(s) == decimal_value(decimal_digits(n / 10)) * 10 + n % 10);
    }
}

/// How many times the byte `b` occurs in `s`.
pub open spec fn count_byte(s: Seq<u8>, b: u8) -> nat
    decreases s.len(),
{
    if s.len() == 0 {
        0
    } else {
        count_byte(s.drop_last(), b) + if s.last() == b {
            1nat
        } else {
            0nat
        }
    }
}

/// Occurrences of a byte add up over a concatenation.
pub proof fn lemma_count_byte_concat(s: Seq<u8>, t: Seq<u8>, b: u8)
    ensures
        count_byte(s + t, b) == count_byte(s, b) + count_byte(t, b),
    decreases t.len(),
{
    if t.len() == 0 {
        assert(s + t =~= s);
    } else {
        assert((s + t).drop_last() =~= s + t.drop_last());
        lemma_count_byte_concat(s, t.drop_last(), b);
    }
}

/// A string of digits holds no space and no newline.
pub proof fn lemma_digits_have_no_separators(s: Seq<u8>)
    requires
        all_digits(s),
    ensures
        count_byte(s, 32u8) == 0,
        count_byte(s, 10u8) == 0,
    decreases s.len(),
{
    if s.len() > 0 {
        assert(all_digits(s.drop_last()));
        lemma_digits_have_no_separators(s.drop_last());
    }
}

/// `line` splits, at the spaces at `k1` and `k2` and the final newline, into
/// three fields of digits that spell `r`, `g` and `b`.
pub open spec fn reads_as_color_line(line: Seq<u8>, k1: int, k2: int, r: nat, g: nat, b: nat) -> bool {
    &&& 0 < k1 < k2 < line.len() - 1
    &&& line[k1] == 32u8
    &&& line[k2] == 32u8
    &&& line.last() == 10u8
    &&& all_digits(line.subrange(0, k1))
    &&& all_digits(line.subrange(k1 + 1, k2))
    &&& all_digits(line.subrange(k2 + 1, line.len() - 1))
    &&& decimal_value(line.subrange(0, k1)) == r
    &&& decimal_value(line.subrange(k1 + 1, k2)) == g
    &&& decimal_value(line.subrange(k2 + 1, line.len() - 1)) == b
}

/// `h` is `P3` and a newline, then digits spelling `width` up to the space at
/// `k`, digits spelling `height` up to the newline at `m`, then `255` and a
/// newline.
pub open spec fn reads_as_ppm_header(h: Seq<u8>, k: int, m: int, width: nat, height: nat) -> bool {
    &&& 3 < k < m
    &&& m + 5 == h.len()
    &&& h.subrange(0, 3) == seq![80u8, 51u8, 10u8]
    &&& h[k] == 32u8
    &&& h[m] == 10u8
    &&& all_digits(h.subrange(3, k))
    &&& all_digits(h.subrange(k + 1, m))
    &&& decimal_value(h.subrange(3, k)) == width
    &&& decimal_value(h.subrange(k + 1, m)) == height
    &&& h.subrange(m + 1, h.len() as int) == seq![50u8, 53u8, 53u8, 10u8]
}

/// Reading a pixel line back: it is three fields of digits separated by single
/// spaces and ended by a newline, and the fields spell red, green and blue in
/// that order. Since digits hold no separator, the split is the only one.
pub proof fn lemma_color_line_fields(r: nat, g: nat, b: nat)
    ensures
        exists|k1: int, k2: int| #[trigger] reads_as_color_line(color_line(r, g, b), k1, k2, r, g, b),
        count_byte(color_line(r, g, b), 10u8) == 1,
        count_byte(color_line(r, g, b), 32u8) == 2,
{
    lemma_decimal_roundtrip(r);
    lemma_decimal_roundtrip(g);
    lemma_decimal_roundtrip(b);
    let dr = decimal_digits(r);
    let dg = decimal_digits(g);
    let db = decimal_digits(b);
    let line = color_line(r, g, b);
    let k1 = dr.len() as int;
    let k2: int = k1 + 1 + dg.len();
    assert(line.subrange(0, k1) =~= dr);
    assert(line.subrange(k1 + 1, k2) =~= dg);
    assert(line.subrange(k2 + 1, line.len() - 1) =~= db);
    assert(line[k1] == 32u8);
    assert(line[k2] == 32u8);
    lemma_digits_have_no_separators(dr);
    lemma_digits_have_no_separators(dg);
    lemma_digits_have_no_separators(db);
    let sp = seq![32u8];
    let nl = seq![10u8];
    assert(count_byte(sp, 32u8) == 1) by {
        assert(sp.drop_last() =~= Seq::<u8>::empty());
        assert(count_byte(Seq::<u8>::empty(), 32u8) == 0);
        assert(sp.last() == 32u8);
    }
    assert(count_byte(sp, 10u8) == 0) by {
        assert(sp.drop_last() =~= Seq::<u8>::empty());
        assert(count_byte(Seq::<u8>::empty(), 10u8) == 0);
        assert(sp.last() == 32u8);
    }
    assert(count_byte(nl, 32u8) == 0) by {
        assert(nl.drop_last() =~= Seq::<u8>::empty());
    }
    assert(count_byte(nl, 10u8) == 1) by {
        assert(nl.drop_last() =~= Seq::<u8>::empty());
    }
    lemma_count_byte_concat(dr, sp, 10u8);
    lemma_count_byte_concat(dr + sp, dg, 10u8);
    lemma_count_byte_concat(dr + sp + dg, sp, 10u8);
    lemma_count_byte_concat(dr + sp + dg + sp, db, 10u8);
    lemma_count_byte_concat(dr + sp + dg + sp + db, nl, 10u8);
    lemma_count_byte_concat(dr, sp, 32u8);
    lemma_count_byte_concat(dr + sp, dg, 32u8);
    lemma_count_byte_concat(dr + sp + dg, sp, 32u8);
    lemma_count_byte_concat(dr + sp + dg + sp, db, 32u8);
    lemma_count_byte_concat(dr + sp + dg + sp + db, nl, 32u8);
    assert(line == dr + sp + dg + sp + db + nl);
    assert(reads_as_color_line(line, k1, k2, r, g, b));
}

/// Reading the header back: it is `P3`, a newline, the digits of the width, a
/// space, the digits of the height, a newline, and `255` with a newline. The
/// width comes first and the height second, whatever their sizes.
pub proof fn lemma_ppm_header_fields(width: nat, height: nat)
    ensures
        exists|k: int, m: int| #[trigger] reads_as_ppm_header(ppm_header(width, height), k, m, width, height),
{
    lemma_decimal_roundtrip(width);
    lemma_decimal_roundtrip(height);
    let dw = decimal_digits(width);
    let dh = decimal_digits(height);
    let h = ppm_header(width, height);
    let k: int = 3 + dw.len() as int;
    let m: int = k + 1 + dh.len();
    assert(h.subrange(0, 3) =~= seq![80u8, 51u8, 10u8]);
    assert(h.subrange(3, k) =~= dw);
    assert(h.subrange(k + 1, m) =~= dh);
    assert(h.subrange(m + 1, h.len() as int) =~= seq![50u8, 53u8, 53u8, 10u8]);
    assert(h[k] == 32u8);
    assert(h[m] == 10u8);
    assert(reads_as_ppm_header(h, k, m, width, height));
}

/// Adding a pixel adds exactly its line at the end: nothing is merged,
/// dropped or reordered.
pub proof fn lemma_pixel_lines_push(pixels: Seq<(u16, u16, u16)>, p: (u16, u16, u16))
    ensures
        pixel_lines(pixels.push(p)) == pixel_lines(pixels) + color_line(p.0 as nat, p.1 as nat, p.2 as nat),
{
    assert(pixels.push(p).drop_last() =~= pixels);
}

/// The pixel lines hold exactly one newline per pixel.
pub proof fn lemma_pixel_lines_count(pixels: Seq<(u16, u16, u16)>)
    ensures
        count_byte(pixel_lines(pixels), 10u8) == pixels.len(),
    decreases pixels.len(),
{
    if pixels.len() > 0 {
        let last = pixels.last();
        lemma_pixel_lines_count(pixels.drop_last());
        lemma_color_line_fields(last.0 as nat, last.1 as nat, last.2 as nat);
        lemma_count_byte_concat(
            pixel_lines(pixels.drop_last()),
            color_line(last.0 as nat, last.1 as nat, last.2 as nat),
            10u8,
        );
    }
}

/// Appends the decimal spelling of `n` to `output`.
fn push_decimal(output: &mut Vec<u8>, n: u64)
    ensures
        final(output)@ == old(output)@ + decimal_digits(n as nat),
    decreases n,
{
    if n >= 10 {
        push_decimal(output, n / 10);
    }
    let digit: u8 = (n % 10) as u8;
    output.push(48u8 + digit);
    proof {
        if n >= 10 {
            assert(decimal_digits(n as nat) == decimal_digits((n / 10) as nat).push(
                (48 + n % 10) as u8,
            ));
        }
    }
}

/// Writes one pixel of a plain PPM image: the red, green and blue intensities
/// (already quantized to the range the header announces) in decimal, separated by
/// spaces, followed by a newline.
pub fn write_color(output: &mut Vec<u8>, ir: u16, ig: u16, ib: u16)
    ensures
        final(output)@ == old(output)@ + color_line(ir as nat, ig as nat, ib as nat),
        exists|k1: int, k2: int|
            #[trigger] reads_as_color_line(
                final(output)@.subrange(old(output)@.len() as int, final(output)@.len() as int),
                k1,
                k2,
                ir as nat,
                ig as nat,
                ib as nat,
            ),
{
    push_decimal(output, ir as u64);
    output.push(32u8);
    push_decimal(output, ig as u64);
    output.push(32u8);
    push_decimal(output, ib as u64);
    output.push(10u8);
    assert(final(output)@ =~= old(output)@ + color_line(ir as nat, ig as nat, ib as nat));
    proof {
        assert(final(output)@.subrange(old(output)@.len() as int, final(output)@.len() as int)
            =~= color_line(ir as nat, ig as nat, ib as nat));
        lemma_color_line_fields(ir as nat, ig as nat, ib as nat);
    }
}

/// Writes the header of a plain PPM image of the given size with channel values up
/// to 255.
pub fn write_ppm_header(output: &mut Vec<u8>, width: u64, height: u64)
    ensures
        final(output)@ == old(output)@ + ppm_header(width as nat, height as nat),
        exists|k: int, m: int|
            #[trigger] reads_as_ppm_header(
                final(output)@.subrange(old(output)@.len() as int, final(output)@.len() as int),
                k,
                m,
                width as nat,
                height as nat,
            ),
{
    output.push(80u8);
    output.push(51u8);
    output.push(10u8);
    push_decimal(output, width);
    output.push(32u8);
    push_decimal(output, height);
    output.push(10u8);
    output.push(50u8);
    output.push(53u8);
    output.push(53u8);
    output.push(10u8);
    assert(final(output)@ =~= old(output)@ + ppm_header(width as nat, height as nat));
    proof {
        assert(final(output)@.subrange(old(output)@.len() as int, final(output)@.len() as int)
            =~= ppm_header(width as nat, height as nat));
        lemma_ppm_header_fields(width as nat, height as nat);
    }
}

/// Writes the pixel lines of a plain PPM image, one pixel per line, in the order
/// given (row by row, left to right, for an image buffer).
pub fn write_pixels(output: &mut Vec<u8>, pixels: &Vec<(u16, u16, u16)>)
    ensures
        final(output)@ == old(output)@ + pixel_lines(pixels@),
        count_byte(final(output)@, 10u8) == count_byte(old(output)@, 10u8) + pixels@.len(),
        forall|k: int|
            0 <= k <= pixels@.len() ==> #[trigger] pixel_lines(pixels@.take(k)).is_prefix_of(
                pixel_lines(pixels@),
            ),
{
    let mut i: usize = 0;
    while i < pixels.len()
        invariant
            i <= pixels@.len(),
            output@ == old(output)@ + pixel_lines(pixels@.take(i as int)),
        decreases pixels.len() - i,
    {
        let (r, g, b) = pixels[i];
        let ghost before = output@;
        write_color(output, r, g, b);
        proof {
            assert(pixels@.take(i + 1).drop_last() =~= pixels@.take(i as int));
            assert(output@ =~= old(output)@ + pixel_lines(pixels@.take(i + 1)));
        }
        i = i + 1;
    }
    assert(pixels@.take(pixels@.len() as int) =~= pixels@);
    proof {
        lemma_pixel_lines_count(pixels@);
        lemma_count_byte_concat(old(output)@, pixel_lines(pixels@), 10u8);
        assert forall|k: int|
            0 <= k <= pixels@.len() implies #[trigger] pixel_lines(pixels@.take(k)).is_prefix_of(
                pixel_lines(pixels@),
            ) by {
            lemma_pixel_lines_prefix(pixels@, k);
        }
    }
}

/// The lines of the first `k` pixels start the lines of all pixels.
pub proof fn lemma_pixel_lines_prefix(pixels: Seq<(u16, u16, u16)>, k: int)
    requires
        0 <= k <= pixels.len(),
    ensures
        pixel_lines(pixels.take(k)).is_prefix_of(pixel_lines(pixels)),
    decreases pixels.len() - k,
{
    if k == pixels.len() {
        assert(pixels.take(k) =~= pixels);
    } else {
        lemma_pixel_lines_prefix(pixels, k + 1);
        assert(pixels.take(k + 1).drop_last() =~= pixels.take(k));
        let a = pixel_lines(pixels.take(k));
        let b = pixel_lines(pixels.take(k + 1));
        assert(a.is_prefix_of(b));
    }
}

} // verus!
