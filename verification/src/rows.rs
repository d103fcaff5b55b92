//! Rows of pixels, bottom row first, as bitmap updates carry them.

use vstd::prelude::*;

verus! {

/// Number of pieces that `len` bytes fall into when one starts every `size` bytes.
pub open spec fn piece_count(len: int, size: int) -> int
    recommends
        size > 0,
{
    (len + size - 1) / size
}

/// The piece of number `i`; the last one may be short.
pub open spec fn piece(data: Seq<u8>, size: int, i: int) -> Seq<u8> {
    data.subrange(i * size, if (i + 1) * size <= data.len() { (i + 1) * size } else { data.len() as int })
}

/// The first `n` bytes, or as many as there are.
pub open spec fn cut(bytes: Seq<u8>, n: int) -> Seq<u8> {
    if n <= bytes.len() {
        bytes.take(n)
    } else {
        bytes
    }
}

/// The first `n` rows of `data`, the last of them first, each cut to `row_len` bytes.
pub open spec fn bottom_up(data: Seq<u8>, stride: int, row_len: int, n: int) -> Seq<u8>
    decreases n,
{
    if n <= 0 {
        Seq::empty()
    } else {
        cut(piece(data, stride, n - 1), row_len) + bottom_up(data, stride, row_len, n - 1)
    }
}

/// Whether each of the first `n` rows, cut to `row_len` bytes, holds whole pixels.
pub open spec fn whole_pixels(data: Seq<u8>, stride: int, row_len: int, n: int) -> bool {
    forall|i: int| 0 <= i < n ==> (#[trigger] cut(piece(data, stride, i), row_len)).len() % 4 == 0
}

/// A piece starts inside the data and is not empty.
pub proof fn lemma_piece_bounds(len: int, size: int, i: int)
    requires
        size > 0,
        len >= 0,
        0 <= i < piece_count(len, size),
    ensures
        0 <= i * size < len,
        (i + 1) * size == i * size + size,
        i == piece_count(len, size) - 1 <==> (i + 1) * size >= len,
{
    let n = piece_count(len, size);
    vstd::arithmetic::div_mod::lemma_fundamental_div_mod(len + size - 1, size);
    assert(i * size <= (n - 1) * size && (n - 1) * size == n * size - size) by (nonlinear_arith)
        requires
            0 <= i < n,
            size > 0,
    ;
    assert(0 <= i * size) by (nonlinear_arith)
        requires
            0 <= i,
            size > 0,
    ;
    assert((i + 1) * size == i * size + size) by (nonlinear_arith);
    assert(size * n == n * size) by (nonlinear_arith);
    if i < n - 1 {
        assert((i + 1) * size <= (n - 1) * size) by (nonlinear_arith)
            requires
                i < n - 1,
                size > 0,
        ;
    }
}

/// Rows of whole pixels make whole pixels together.
pub proof fn lemma_bottom_up_len(data: Seq<u8>, stride: int, row_len: int, n: int)
    requires
        stride > 0,
        row_len >= 0,
        0 <= n <= piece_count(data.len() as int, stride),
    ensures
        whole_pixels(data, stride, row_len, n) ==> bottom_up(data, stride, row_len, n).len() % 4 == 0,
    decreases n,
{
    if n > 0 {
        lemma_piece_bounds(data.len() as int, stride, n - 1);
        lemma_bottom_up_len(data, stride, row_len, n - 1);
        let top = cut(piece(data, stride, n - 1), row_len);
        assert(whole_pixels(data, stride, row_len, n) ==> whole_pixels(data, stride, row_len, n - 1));
        assert(whole_pixels(data, stride, row_len, n) ==> top.len() % 4 == 0);
    }
}

/// Of an image whose rows are all there, the rows hold every pixel.
pub proof fn lemma_bottom_up_image(data: Seq<u8>, stride: int, width: int, height: int, n: int)
    requires
        crate::frame::holds_image(data, stride, width, height),
        0 <= n <= height,
    ensures
        height <= piece_count(data.len() as int, stride),
        bottom_up(data, stride, width * 4, n).len() == n * (width * 4),
        whole_pixels(data, stride, width * 4, n),
    decreases n,
{
    let len = data.len() as int;
    vstd::arithmetic::div_mod::lemma_fundamental_div_mod(len + stride - 1, stride);
    let count = piece_count(len, stride);
    assert(height <= count) by (nonlinear_arith)
        requires
            len >= (height - 1) * stride + width * 4,
            width > 0,
            stride > 0,
            len + stride - 1 == stride * count + (len + stride - 1) % stride,
            (len + stride - 1) % stride < stride,
    ;
    if n > 0 {
        lemma_bottom_up_image(data, stride, width, height, n - 1);
        lemma_piece_bounds(len, stride, n - 1);
        crate::frame::lemma_cell_in_bounds(len, stride, width, height, n - 1, width * 4 - 1);
        let top = cut(piece(data, stride, n - 1), width * 4);
        assert(top.len() == width * 4);
        assert(n * (width * 4) == (n - 1) * (width * 4) + width * 4) by (nonlinear_arith);
        assert forall|i: int| 0 <= i < n implies (#[trigger] cut(piece(data, stride, i), width * 4)).len()
            % 4 == 0 by {
            if i == n - 1 {
            } else {
                assert(whole_pixels(data, stride, width * 4, n - 1));
            }
        }
    } else {
        assert(0 * (width * 4) == 0) by (nonlinear_arith);
    }
}

/// Where the rows of an image stand when the last of them comes first.
pub proof fn lemma_bottom_up_cell(
    data: Seq<u8>,
    stride: int,
    width: int,
    height: int,
    n: int,
    row: int,
    off: int,
)
    requires
        crate::frame::holds_image(data, stride, width, height),
        0 <= row < n <= height,
        0 <= off < width * 4,
    ensures
        0 <= (n - 1 - row) * (width * 4) + off < n * (width * 4),
        bottom_up(data, stride, width * 4, n)[(n - 1 - row) * (width * 4) + off] == crate::frame::cell(
            data,
            stride,
            row,
            off,
        ),
    decreases n,
{
    let len = data.len() as int;
    let row_len = width * 4;
    lemma_bottom_up_image(data, stride, width, height, n);
    lemma_bottom_up_image(data, stride, width, height, n - 1);
    lemma_piece_bounds(len, stride, n - 1);
    crate::frame::lemma_cell_in_bounds(len, stride, width, height, n - 1, row_len - 1);
    let top = cut(piece(data, stride, n - 1), row_len);
    assert(n * row_len == (n - 1) * row_len + row_len) by (nonlinear_arith);
    if row == n - 1 {
        assert((n - 1 - row) * row_len == 0) by (nonlinear_arith)
            requires
                row == n - 1,
        ;
    } else {
        lemma_bottom_up_cell(data, stride, width, height, n - 1, row, off);
        assert((n - 1 - row) * row_len == (n - 2 - row) * row_len + row_len) by (nonlinear_arith);
    }
}

/// Every byte with `mask` laid over it.
pub open spec fn masked(bytes: Seq<u8>, mask: u8) -> Seq<u8> {
    Seq::new(bytes.len(), |i: int| bytes[i] & mask)
}

/// Colours that have been quantized stay as they are when they are quantized again.
pub proof fn lemma_masked_idempotent(bytes: Seq<u8>, mask: u8)
    ensures
        masked(masked(bytes, mask), mask) == masked(bytes, mask),
{
    assert forall|i: int| 0 <= i < bytes.len() implies masked(masked(bytes, mask), mask)[i] == masked(
        bytes,
        mask,
    )[i] by {
        let b = bytes[i];
        assert((b & mask) & mask == b & mask) by (bit_vector);
    }
    assert(masked(masked(bytes, mask), mask) =~= masked(bytes, mask));
}

/// The full mask leaves every colour as it is.
pub proof fn lemma_masked_lossless(bytes: Seq<u8>)
    ensures
        masked(bytes, 0xFF) == bytes,
{
    assert forall|i: int| 0 <= i < bytes.len() implies masked(bytes, 0xFF)[i] == bytes[i] by {
        let b = bytes[i];
        assert(b & 0xFF == b) by (bit_vector);
    }
    assert(masked(bytes, 0xFF) =~= bytes);
}

/// Number of pieces that `len` bytes fall into.
pub fn count_pieces(len: usize, size: usize) -> (r: usize)
    requires
        size > 0,
    ensures
        r == piece_count(len as int, size as int),
{
    proof {
        let l = len as int;
        let s = size as int;
        vstd::arithmetic::div_mod::lemma_fundamental_div_mod(l + s - 1, s);
        vstd::arithmetic::div_mod::lemma_fundamental_div_mod(l, s);
        let n = piece_count(l, s);
        let q = l / s;
        let m = l % s;
        if m == 0 {
            assert(n == q) by (nonlinear_arith)
                requires
                    l == s * q,
                    l + s - 1 == s * n + (l + s - 1) % s,
                    0 <= (l + s - 1) % s < s,
                    s > 0,
            ;
        } else {
            assert(n == q + 1) by (nonlinear_arith)
                requires
                    l == s * q + m,
                    0 < m < s,
                    l + s - 1 == s * n + (l + s - 1) % s,
                    0 <= (l + s - 1) % s < s,
                    s > 0,
            ;
        }
        assert(q <= l) by (nonlinear_arith)
            requires
                l == s * q + m,
                m >= 0,
                s > 0,
                l >= 0,
        ;
        assert(m > 0 ==> q + 1 <= l) by (nonlinear_arith)
            requires
                l == s * q + m,
                m >= 0,
                s > 0,
                l >= 0,
        ;
    }
    if len % size == 0 {
        len / size
    } else {
        len / size + 1
    }
}

/// The first `n` rows of `data`, the last of them first, each cut to `row_len` bytes, with `mask`
/// laid over every byte.
pub fn rows_bottom_up(data: &[u8], stride: usize, row_len: usize, n: usize, mask: u8) -> (r: Vec<u8>)
    requires
        stride > 0,
        n <= piece_count(data@.len() as int, stride as int),
    ensures
        r@ == masked(bottom_up(data@, stride as int, row_len as int, n as int), mask),
{
    let len: usize = data.len();
    let mut out: Vec<u8> = Vec::new();
    let mut left: usize = n;
    let ghost whole = bottom_up(data@, stride as int, row_len as int, n as int);
    while left > 0
        invariant
            left <= n,
            stride > 0,
            len == data@.len(),
            n <= piece_count(len as int, stride as int),
            whole == bottom_up(data@, stride as int, row_len as int, n as int),
            out@.len() + bottom_up(data@, stride as int, row_len as int, left as int).len() == whole.len(),
            whole.skip(out@.len() as int) == bottom_up(
                data@,
                stride as int,
                row_len as int,
                left as int,
            ),
            forall|i: int| 0 <= i < out@.len() ==> #[trigger] out@[i] == whole[i] & mask,
        decreases left,
    {
        let row: usize = left - 1;
        proof {
            lemma_piece_bounds(len as int, stride as int, row as int);
        }
        let start: usize = row * stride;
        let full: usize = if len - start <= stride {
            len - start
        } else {
            stride
        };
        let keep: usize = if row_len <= full {
            row_len
        } else {
            full
        };
        let ghost top = cut(piece(data@, stride as int, row as int), row_len as int);
        let ghost base = out@.len();
        let ghost rest = bottom_up(data@, stride as int, row_len as int, row as int);
        assert(top =~= data@.subrange(start as int, start + keep));
        assert(whole.skip(base as int) == top + rest);
        let mut i: usize = 0;
        while i < keep
            invariant
                i <= keep,
                start + keep <= len,
                len == data@.len(),
                top == data@.subrange(start as int, start + keep),
                out@.len() == base + i,
                base + keep <= whole.len(),
                whole.skip(base as int) == top + rest,
                forall|k: int| 0 <= k < out@.len() ==> #[trigger] out@[k] == whole[k] & mask,
            decreases keep - i,
        {
            assert(whole[base + i] == whole.skip(base as int)[i as int]);
            assert((top + rest)[i as int] == data@[start + i]);
            out.push(data[start + i] & mask);
            i = i + 1;
        }
        assert(whole.skip(out@.len() as int) =~= rest) by {
            assert forall|k: int| 0 <= k < rest.len() implies whole.skip(base + keep)[k] == rest[k] by {
                assert(whole.skip(base + keep)[k] == whole.skip(base as int)[keep + k]);
                assert((top + rest)[keep + k] == rest[k]);
            }
        }
        left = row;
    }
    assert(out@ =~= masked(whole, mask));
    out
}

} // verus!
