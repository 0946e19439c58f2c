//! Drawing-surface sizing and the read-back of rendered rows.
use vstd::prelude::*;

verus! {

/// Copies out of a texture want each row padded to this many bytes.
pub const ROW_ALIGNMENT: u32 = 256;

/// The bytes one row of `width` RGBA8 pixels takes once padded for a copy.
pub open spec fn padded_row(width: u32) -> int {
    let unpadded = width as int * 4;
    (unpadded + 255) / 256 * 256
}

/// A padded row is the smallest multiple of the copy alignment that holds
/// the row's `width * 4` bytes: a multiple of 256, no shorter than the row,
/// and less than 256 bytes longer.
pub proof fn lemma_padded_row_is_aligned(width: u32)
    ensures
        padded_row(width) % 256 == 0,
        width * 4 <= padded_row(width) < width * 4 + 256,
{
    let u = width as int * 4;
    let q = (u + 255) / 256;
    assert(q * 256 % 256 == 0 && u <= q * 256 < u + 256) by (nonlinear_arith)
        requires
            u >= 0,
            q == (u + 255) / 256,
    ;
}

/// Whether a padded row of `width` RGBA8 pixels fits a `u32` byte count.
pub fn row_fits(width: u32) -> (b: bool)
    ensures
        b == (padded_row(width) <= u32::MAX),
{
    let unpadded: u64 = width as u64 * 4;
    let rows: u64 = (unpadded + 255) / 256;
    rows * 256 <= 0xFFFF_FFFF
}

/// The bytes one row of `width` RGBA8 pixels takes once padded for a copy.
pub fn padded_row_bytes(width: u32) -> (n: u32)
    requires
        padded_row(width) <= u32::MAX,
    ensures
        n == padded_row(width),
        n % ROW_ALIGNMENT == 0,
        width * 4 <= n < width * 4 + 256,
{
    let unpadded: u64 = width as u64 * 4;
    let rows: u64 = (unpadded + 255) / 256;
    assert(rows * 256 <= u32::MAX);
    assert(unpadded <= rows * 256 < unpadded + 256) by (nonlinear_arith)
        requires
            rows == (unpadded + 255) / 256,
    ;
    proof {
        lemma_padded_row_is_aligned(width);
    }
    (rows * 256) as u32
}

/// Each full `padded`-byte row of `data`, cut to its first `unpadded` bytes,
/// in order; a short tail is dropped.
pub open spec fn strip_rows(data: Seq<u8>, unpadded: nat, padded: nat) -> Seq<u8>
    decreases data.len(),
{
    if padded == 0 || data.len() < padded {
        Seq::empty()
    } else {
        data.subrange(0, unpadded as int) + strip_rows(
            data.subrange(padded as int, data.len() as int),
            unpadded,
            padded,
        )
    }
}

/// Read rows back out of a padded copy: each full `padded`-byte row cut to
/// its first `unpadded` bytes, top row first.
pub fn strip_row_padding(data: &[u8], unpadded: usize, padded: usize) -> (out: Vec<u8>)
    requires
        0 < padded,
        unpadded <= padded,
    ensures
        out@ == strip_rows(data@, unpadded as nat, padded as nat),
{
    let mut out: Vec<u8> = Vec::new();
    let mut off: usize = 0;
    assert(data@.subrange(0, data@.len() as int) =~= data@);
    while off <= data.len() && data.len() - off >= padded
        invariant
            0 < padded,
            unpadded <= padded,
            off <= data@.len(),
            out@ + strip_rows(data@.subrange(off as int, data@.len() as int), unpadded as nat, padded as nat)
                == strip_rows(data@, unpadded as nat, padded as nat),
        decreases data@.len() - off,
    {
        let ghost rest = data@.subrange(off as int, data@.len() as int);
        let mut k: usize = 0;
        let ghost before = out@;
        while k < unpadded
            invariant
                k <= unpadded <= padded,
                off + padded <= data.len(),
                out@ == before + data@.subrange(off as int, (off + k) as int),
            decreases unpadded - k,
        {
            out.push(data[off + k]);
            assert(data@.subrange(off as int, (off + k + 1) as int) =~= data@.subrange(
                off as int,
                (off + k) as int,
            ).push(data@[off + k]));
            k = k + 1;
        }
        assert(rest.subrange(0, unpadded as int) =~= data@.subrange(off as int, (off + unpadded) as int));
        assert(rest.subrange(padded as int, rest.len() as int) =~= data@.subrange(
            (off + padded) as int,
            data@.len() as int,
        ));
        assert(out@ + strip_rows(
            data@.subrange((off + padded) as int, data@.len() as int),
            unpadded as nat,
            padded as nat,
        ) =~= before + strip_rows(rest, unpadded as nat, padded as nat));
        off = off + padded;
    }
    assert(strip_rows(data@.subrange(off as int, data@.len() as int), unpadded as nat, padded as nat)
        =~= Seq::<u8>::empty());
    assert(out@ =~= strip_rows(data@, unpadded as nat, padded as nat));
    out
}

/// Reading back `h` padded rows gives `h` unpadded rows' worth of bytes:
/// a copy of `h` rows of `padded` bytes strips to `h * unpadded` bytes.
pub proof fn lemma_strip_rows_len(data: Seq<u8>, unpadded: nat, padded: nat, h: nat)
    requires
        0 < padded,
        unpadded <= padded,
        data.len() == h * padded,
    ensures
        strip_rows(data, unpadded, padded).len() == h * unpadded,
    decreases h,
{
    if h > 0 {
        assert(h * padded == (h - 1) * padded + padded) by (nonlinear_arith)
            requires
                h > 0,
        ;
        assert(h * unpadded == (h - 1) * unpadded + unpadded) by (nonlinear_arith)
            requires
                h > 0,
        ;
        let rest = data.subrange(padded as int, data.len() as int);
        lemma_strip_rows_len(rest, unpadded, padded, (h - 1) as nat);
        assert(strip_rows(data, unpadded, padded) == data.subrange(0, unpadded as int) + strip_rows(
            rest,
            unpadded,
            padded,
        ));
    } else {
        assert(h * padded == 0 && h * unpadded == 0) by (nonlinear_arith)
            requires
                h == 0,
        ;
    }
}

/// The drawing size a resize asks for: each side at least one pixel.
pub open spec fn clamped_size(width: u32, height: u32) -> (u32, u32) {
    (if width == 0 {
        1
    } else {
        width
    }, if height == 0 {
        1
    } else {
        height
    })
}

/// A resize keeps every nonzero side, makes a zero side one pixel, and
/// resizing to the size it gave changes nothing.
pub proof fn lemma_clamped_size_keeps_real_sides(width: u32, height: u32)
    ensures
        clamped_size(width, height).0 >= 1,
        clamped_size(width, height).1 >= 1,
        width > 0 ==> clamped_size(width, height).0 == width,
        height > 0 ==> clamped_size(width, height).1 == height,
        clamped_size(clamped_size(width, height).0, clamped_size(width, height).1) == clamped_size(
            width,
            height,
        ),
{
}

/// Decide a resize: the new size, or `None` when it is the size already in
/// force and there is nothing to reconfigure.
pub fn resize_to(current: (u32, u32), width: u32, height: u32) -> (r: Option<(u32, u32)>)
    ensures
        r == (if clamped_size(width, height) == current {
            None
        } else {
            Some(clamped_size(width, height))
        }),
{
    let w = if width == 0 {
        1
    } else {
        width
    };
    let h = if height == 0 {
        1
    } else {
        height
    };
    if current.0 == w && current.1 == h {
        None
    } else {
        Some((w, h))
    }
}

/// Which of a surface's offered formats to present to: the first that is not
/// sRGB, since colors are already sRGB bytes and a second conversion would
/// wash them out; failing that the first offered; `None` when none is.
pub fn preferred_format(is_srgb: &[bool]) -> (r: Option<usize>)
    ensures
        is_srgb@.len() == 0 ==> r is None,
        (exists|i: int| 0 <= i < is_srgb@.len() && !is_srgb@[i]) ==> (r matches Some(k) && k
            < is_srgb@.len() && !is_srgb@[k as int] && forall|j: int|
            0 <= j < k ==> #[trigger] is_srgb@[j]),
        is_srgb@.len() > 0 && (forall|i: int| 0 <= i < is_srgb@.len() ==> #[trigger] is_srgb@[i])
            ==> r == Some(0usize),
{
    let mut i: usize = 0;
    while i < is_srgb.len()
        invariant
            i <= is_srgb@.len(),
            forall|j: int| 0 <= j < i ==> #[trigger] is_srgb@[j],
        decreases is_srgb@.len() - i,
    {
        if !is_srgb[i] {
            return Some(i);
        }
        i = i + 1;
    }
    if is_srgb.len() > 0 {
        Some(0)
    } else {
        None
    }
}

/// Rows laid out one after another, each followed by its padding.
pub open spec fn padded_rows(rows: Seq<Seq<u8>>, pads: Seq<Seq<u8>>) -> Seq<u8>
    decreases rows.len(),
{
    if rows.len() == 0 || pads.len() == 0 {
        Seq::empty()
    } else {
        rows[0] + pads[0] + padded_rows(rows.drop_first(), pads.drop_first())
    }
}

/// Rows laid out one after another.
pub open spec fn joined_rows(rows: Seq<Seq<u8>>) -> Seq<u8>
    decreases rows.len(),
{
    if rows.len() == 0 {
        Seq::empty()
    } else {
        rows[0] + joined_rows(rows.drop_first())
    }
}

/// Reading back a copy whose rows were padded gives exactly the rows, in
/// order, whatever the padding held.
pub proof fn lemma_strip_rows_undoes_padding(
    rows: Seq<Seq<u8>>,
    pads: Seq<Seq<u8>>,
    unpadded: nat,
    padded: nat,
)
    requires
        unpadded <= padded,
        0 < padded,
        rows.len() == pads.len(),
        forall|i: int| 0 <= i < rows.len() ==> (#[trigger] rows[i]).len() == unpadded,
        forall|i: int| 0 <= i < pads.len() ==> (#[trigger] pads[i]).len() == padded - unpadded,
    ensures
        strip_rows(padded_rows(rows, pads), unpadded, padded) == joined_rows(rows),
    decreases rows.len(),
{
    if rows.len() > 0 {
        let rest_rows = rows.drop_first();
        let rest_pads = pads.drop_first();
        lemma_strip_rows_undoes_padding(rest_rows, rest_pads, unpadded, padded);
        let data = padded_rows(rows, pads);
        let tail = padded_rows(rest_rows, rest_pads);
        assert(rows[0].len() == unpadded);
        assert(pads[0].len() == padded - unpadded);
        assert(data == rows[0] + pads[0] + tail);
        assert(data.subrange(0, unpadded as int) =~= rows[0]);
        assert(data.subrange(padded as int, data.len() as int) =~= tail);
    }
}

} // verus!
