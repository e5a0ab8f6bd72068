//! The four-layer texture array a PIE model samples: diffuse, team-colour
//! mask, normal map and specular map, each as one RGBA layer of a common
//! size. Pages of another size are resampled nearest-neighbour to the
//! largest page; a missing page is filled with a fixed pixel.

use vstd::prelude::*;
use vstd::arithmetic::div_mod::{lemma_fundamental_div_mod, lemma_fundamental_div_mod_converse};

verus! {

/// Decoded texture page for upload. The page name doubles as the cache key
/// so models referencing the same page share one upload.
#[derive(Debug)]
pub struct TexturePageRef<'a> {
    pub page_name: &'a str,
    pub rgba: &'a [u8],
    pub width: u32,
    pub height: u32,
}

/// A page whose pixels can be read: at least one pixel each way, and
/// exactly `width * height` RGBA pixels.
pub open spec fn page_ok(p: TexturePageRef) -> bool {
    &&& p.width >= 1
    &&& p.height >= 1
    &&& p.rgba@.len() == p.width * p.height * 4
}

/// The built texture array: `data` holds four layers of
/// `width * height` RGBA pixels, one after the other.
#[derive(Debug)]
pub struct PageAtlas {
    pub width: u32,
    pub height: u32,
    pub data: Vec<u8>,
}

/// `n` bytes repeating the four-byte `pattern`.
pub open spec fn filled_layer(pattern: Seq<u8>, n: nat) -> Seq<u8> {
    Seq::new(n, |k: int| pattern[k % 4])
}

/// Source byte offset that nearest-neighbour resampling reads for byte `k`
/// of a `dw` x `dh` layer, from a `w` x `h` source.
pub open spec fn source_offset(w: int, h: int, dw: int, dh: int, k: int) -> int {
    let px = k / 4;
    let sx = (px % dw) * w / dw;
    let sy = (px / dw) * h / dh;
    (sy * w + sx) * 4 + k % 4
}

/// A `w` x `h` RGBA image resampled nearest-neighbour to `dw` x `dh`; with
/// `force_alpha` every pixel's alpha byte is that value instead.
pub open spec fn resized_layer(src: Seq<u8>, w: int, h: int, dw: int, dh: int, force_alpha: Option<u8>) -> Seq<u8> {
    Seq::new((dw * dh * 4) as nat, |k: int|
        if k % 4 == 3 && force_alpha is Some { force_alpha->0 } else { src[source_offset(w, h, dw, dh, k)] })
}

/// Append `pixels` copies of `pattern`.
fn fill_layer(out: &mut Vec<u8>, pattern: [u8; 4], pixels: usize)
    requires
        old(out)@.len() + pixels * 4 <= usize::MAX,
    ensures
        final(out)@ == old(out)@ + filled_layer(pattern@, (pixels * 4) as nat),
{
    let ghost start = out@;
    let mut i: usize = 0;
    while i < pixels
        invariant
            i <= pixels,
            start.len() + pixels * 4 <= usize::MAX,
            out@ == start + filled_layer(pattern@, (i * 4) as nat),
        decreases pixels - i,
    {
        let mut c: usize = 0;
        while c < 4
            invariant
                i < pixels,
                c <= 4,
                start.len() + pixels * 4 <= usize::MAX,
                out@ == start + filled_layer(pattern@, (i * 4 + c) as nat),
            decreases 4 - c,
        {
            out.push(pattern[c]);
            proof {
                assert((i * 4 + c) % 4 == c as int);
                assert(out@ =~= start + filled_layer(pattern@, (i * 4 + c + 1) as nat));
            }
            c = c + 1;
        }
        i = i + 1;
    }
}

/// Byte `k` of a layer resampled from an image of its own size is byte `k`
/// of the image.
proof fn lemma_same_size_offset(w: int, h: int, k: int)
    requires
        w >= 1,
        h >= 1,
        0 <= k < w * h * 4,
    ensures
        source_offset(w, h, w, h, k) == k,
{
    let px = k / 4;
    let x = px % w;
    let y = px / w;
    lemma_fundamental_div_mod(px, w);
    lemma_fundamental_div_mod(k, 4);
    assert(x * w / w == x) by {
        vstd::arithmetic::div_mod::lemma_div_by_multiple(x, w);
    }
    assert(px >= 0);
    assert(y >= 0) by {
        vstd::arithmetic::div_mod::lemma_div_pos_is_pos(px, w);
    }
    assert(y * h / h == y) by {
        vstd::arithmetic::div_mod::lemma_div_by_multiple(y, h);
    }
    assert(y * w + x == px) by {
        vstd::arithmetic::mul::lemma_mul_is_commutative(w, y);
    }
}

/// Append the image `src`, which is `w` x `h` pixels, unchanged but for
/// the alpha bytes when `force_alpha` is given.
fn copy_layer(out: &mut Vec<u8>, src: &[u8], w: u32, h: u32, force_alpha: Option<u8>)
    requires
        w >= 1,
        h >= 1,
        src@.len() == w * h * 4,
        old(out)@.len() + src@.len() <= usize::MAX,
    ensures
        final(out)@ == old(out)@ + resized_layer(src@, w as int, h as int, w as int, h as int, force_alpha),
{
    let ghost start = out@;
    let ghost want = resized_layer(src@, w as int, h as int, w as int, h as int, force_alpha);
    let mut k: usize = 0;
    while k < src.len()
        invariant
            k <= src@.len(),
            w >= 1,
            h >= 1,
            src@.len() == w * h * 4,
            start.len() + src@.len() <= usize::MAX,
            want == resized_layer(src@, w as int, h as int, w as int, h as int, force_alpha),
            out@.len() == start.len() + k,
            forall|j: int| 0 <= j < start.len() ==> out@[j] == start[j],
            forall|j: int| 0 <= j < k ==> #[trigger] out@[start.len() + j] == want[j],
        decreases src@.len() - k,
    {
        proof {
            lemma_same_size_offset(w as int, h as int, k as int);
        }
        let byte = match force_alpha {
            Some(a) => if k % 4 == 3 { a } else { src[k] },
            None => src[k],
        };
        out.push(byte);
        proof {
            assert(out@[start.len() + k] == want[k as int]);
        }
        k = k + 1;
    }
    proof {
        assert(out@ =~= start + want) by {
            assert forall|j: int| 0 <= j < want.len() implies out@[start.len() + j] == want[j] by {}
        }
    }
}

/// Scaling an index below `d` by `w / d` lands below `w`.
proof fn lemma_scaled_below(x: int, w: int, d: int)
    requires
        0 <= x < d,
        w >= 1,
    ensures
        0 <= x * w / d < w,
{
    let q = x * w / d;
    let r = x * w % d;
    lemma_fundamental_div_mod(x * w, d);
    assert(x * w >= 0) by (nonlinear_arith)
        requires
            0 <= x,
            w >= 1,
    ;
    vstd::arithmetic::div_mod::lemma_div_pos_is_pos(x * w, d);
    vstd::arithmetic::div_mod::lemma_mod_pos_bound(x * w, d);
    assert(x * w < d * w) by (nonlinear_arith)
        requires
            0 <= x < d,
            w >= 1,
    ;
    assert(d * q < d * w);
    assert(q < w) by (nonlinear_arith)
        requires
            d * q < d * w,
            d >= 1,
    ;
}

/// A pixel index below `dw * dh` lies on a row below `dh`.
pub(crate) proof fn lemma_row_below(i: int, dw: int, dh: int)
    requires
        0 <= i < dw * dh,
        dw >= 1,
    ensures
        0 <= i / dw < dh,
        0 <= i % dw < dw,
{
    lemma_fundamental_div_mod(i, dw);
    vstd::arithmetic::div_mod::lemma_div_pos_is_pos(i, dw);
    vstd::arithmetic::div_mod::lemma_mod_pos_bound(i, dw);
    let q = i / dw;
    let r = i % dw;
    assert(q < dh) by (nonlinear_arith)
        requires
            i == dw * q + r,
            0 <= r,
            i < dw * dh,
            dw >= 1,
    ;
}

/// A pixel inside a `w` x `h` image has a byte offset inside it.
proof fn lemma_pixel_inside(sx: int, sy: int, w: int, h: int)
    requires
        0 <= sx < w,
        0 <= sy < h,
    ensures
        0 <= sy * w + sx,
        (sy * w + sx) * 4 + 3 < w * h * 4,
{
    assert(0 <= sy * w) by (nonlinear_arith)
        requires
            0 <= sy,
            0 <= sx < w,
    ;
    assert(sy * w + sx < w * h) by (nonlinear_arith)
        requires
            0 <= sx < w,
            0 <= sy < h,
    ;
}

/// Append `src`, a `src_w` x `src_h` image, resampled nearest-neighbour to
/// `dst_w` x `dst_h`; with `force_alpha` every alpha byte is that value.
fn nearest_resize(
    out: &mut Vec<u8>,
    src: &[u8],
    src_w: u32,
    src_h: u32,
    dst_w: u32,
    dst_h: u32,
    force_alpha: Option<u8>,
)
    requires
        src_w >= 1,
        src_h >= 1,
        src@.len() == src_w * src_h * 4,
        dst_w >= 1,
        dst_h >= 1,
        old(out)@.len() + dst_w * dst_h * 4 <= usize::MAX,
    ensures
        final(out)@ == old(out)@ + resized_layer(
            src@,
            src_w as int,
            src_h as int,
            dst_w as int,
            dst_h as int,
            force_alpha,
        ),
{
    let ghost start = out@;
    let ghost want = resized_layer(src@, src_w as int, src_h as int, dst_w as int, dst_h as int, force_alpha);
    let dw = dst_w as usize;
    let n: usize = dw * dst_h as usize;
    let total = src.len();
    let mut i: usize = 0;
    while i < n
        invariant
            i <= n,
            total == src@.len(),
            n == dst_w * dst_h,
            dw == dst_w,
            src_w >= 1,
            src_h >= 1,
            src@.len() == src_w * src_h * 4,
            dst_w >= 1,
            dst_h >= 1,
            start.len() + dst_w * dst_h * 4 <= usize::MAX,
            want == resized_layer(src@, src_w as int, src_h as int, dst_w as int, dst_h as int, force_alpha),
            out@.len() == start.len() + i * 4,
            forall|j: int| 0 <= j < start.len() ==> out@[j] == start[j],
            forall|j: int| 0 <= j < i * 4 ==> #[trigger] out@[start.len() + j] == want[j],
        decreases n - i,
    {
        let x = i % dw;
        let y = i / dw;
        proof {
            lemma_row_below(i as int, dst_w as int, dst_h as int);
            lemma_scaled_below(x as int, src_w as int, dst_w as int);
            lemma_scaled_below(y as int, src_h as int, dst_h as int);
            assert(x * src_w <= u64::MAX) by (nonlinear_arith)
                requires
                    x < dst_w,
                    dst_w <= u32::MAX,
                    src_w <= u32::MAX,
            ;
            assert(y * src_h <= u64::MAX) by (nonlinear_arith)
                requires
                    y < dst_h,
                    dst_h <= u32::MAX,
                    src_h <= u32::MAX,
            ;
        }
        let sx = ((x as u64 * src_w as u64) / dst_w as u64) as usize;
        let sy = ((y as u64 * src_h as u64) / dst_h as u64) as usize;
        assert(sx == x * src_w / (dst_w as int));
        assert(sy == y * src_h / (dst_h as int));
        proof {
            lemma_pixel_inside(sx as int, sy as int, src_w as int, src_h as int);
        }
        let s = (sy * src_w as usize + sx) * 4;
        let mut c: usize = 0;
        while c < 4
            invariant
                i < n,
                c <= 4,
                x == i % dw,
                y == i / dw,
                dw == dst_w,
                dst_w >= 1,
                dst_h >= 1,
                sx == x * src_w / (dst_w as int),
                sy == y * src_h / (dst_h as int),
                s == (sy * src_w + sx) * 4,
                s + 3 < src@.len(),
                n == dst_w * dst_h,
                start.len() + dst_w * dst_h * 4 <= usize::MAX,
                want == resized_layer(src@, src_w as int, src_h as int, dst_w as int, dst_h as int, force_alpha),
                out@.len() == start.len() + i * 4 + c,
                forall|j: int| 0 <= j < start.len() ==> out@[j] == start[j],
                forall|j: int| 0 <= j < i * 4 + c ==> #[trigger] out@[start.len() + j] == want[j],
            decreases 4 - c,
        {
            let byte = match force_alpha {
                Some(a) => if c == 3 { a } else { src[s + c] },
                None => src[s + c],
            };
            proof {
                let k = (i * 4 + c) as int;
                lemma_fundamental_div_mod_converse(k, 4, i as int, c as int);
                assert(want[k] == byte);
            }
            out.push(byte);
            c = c + 1;
        }
        i = i + 1;
    }
    proof {
        assert(out@ =~= start + want) by {
            assert forall|j: int| 0 <= j < want.len() implies out@[start.len() + j] == want[j] by {}
        }
    }
}

/// Width of an optional page; a missing page has none.
pub open spec fn page_width(p: Option<&TexturePageRef>) -> u32 {
    match p {
        Some(p) => p.width,
        None => 0,
    }
}

/// Height of an optional page; a missing page has none.
pub open spec fn page_height(p: Option<&TexturePageRef>) -> u32 {
    match p {
        Some(p) => p.height,
        None => 0,
    }
}

pub open spec fn max_u32(a: u32, b: u32) -> u32 {
    if a < b { b } else { a }
}

/// The largest of four page extents, and at least one.
pub open spec fn atlas_extent(a: u32, b: u32, c: u32, d: u32) -> u32 {
    max_u32(max_u32(max_u32(max_u32(1, a), b), c), d)
}

/// One layer of a `dw` x `dh` atlas: the page resampled to that size, or
/// the fill pixel where there is no page.
pub open spec fn atlas_layer(page: Option<&TexturePageRef>, fill: Seq<u8>, force_alpha: Option<u8>, dw: int, dh: int) -> Seq<u8> {
    match page {
        Some(p) => resized_layer(p.rgba@, p.width as int, p.height as int, dw, dh, force_alpha),
        None => filled_layer(fill, (dw * dh * 4) as nat),
    }
}

/// A page that is absent or readable.
pub open spec fn page_usable(page: Option<&TexturePageRef>) -> bool {
    page matches Some(p) ==> page_ok(*p)
}

/// Append one `dw` x `dh` layer built from `page`, or filled with `fill`.
fn push_layer(
    out: &mut Vec<u8>,
    page: Option<&TexturePageRef>,
    fill: [u8; 4],
    force_alpha: Option<u8>,
    dw: u32,
    dh: u32,
)
    requires
        page_usable(page),
        dw >= 1,
        dh >= 1,
        page_width(page) <= dw,
        page_height(page) <= dh,
        old(out)@.len() + dw * dh * 4 <= usize::MAX,
    ensures
        final(out)@ == old(out)@ + atlas_layer(page, fill@, force_alpha, dw as int, dh as int),
{
    match page {
        Some(p) => {
            if p.width == dw && p.height == dh {
                copy_layer(out, p.rgba, p.width, p.height, force_alpha);
            } else {
                nearest_resize(out, p.rgba, p.width, p.height, dw, dh, force_alpha);
            }
        },
        None => {
            proof {
                assert(dw * dh * 4 == (dw as usize * dh as usize) * 4) by (nonlinear_arith);
            }
            fill_layer(out, fill, dw as usize * dh as usize);
        },
    }
}

/// Build the four-layer texture array for a model: diffuse, team-colour
/// mask, normal map, specular map. All layers take the size of the largest
/// page (at least 1 x 1); pages of another size are resampled
/// nearest-neighbour. Normal and specular layers carry alpha 255 when a map
/// is present, the shader's sign that it exists; missing pages are filled
/// with opaque white, transparent black, a flat normal with alpha 0, and
/// transparent black.
pub fn build_page_atlas(
    diffuse: Option<&TexturePageRef>,
    tcmask: Option<&TexturePageRef>,
    normal: Option<&TexturePageRef>,
    specular: Option<&TexturePageRef>,
) -> (r: PageAtlas)
    requires
        page_usable(diffuse),
        page_usable(tcmask),
        page_usable(normal),
        page_usable(specular),
        atlas_extent(page_width(diffuse), page_width(tcmask), page_width(normal), page_width(specular))
            * atlas_extent(page_height(diffuse), page_height(tcmask), page_height(normal), page_height(specular))
            * 16 <= usize::MAX,
    ensures
        r.width == atlas_extent(page_width(diffuse), page_width(tcmask), page_width(normal), page_width(specular)),
        r.height == atlas_extent(page_height(diffuse), page_height(tcmask), page_height(normal), page_height(specular)),
        r.data@ == atlas_layer(diffuse, seq![255u8, 255, 255, 255], None, r.width as int, r.height as int)
            + atlas_layer(tcmask, seq![0u8, 0, 0, 0], None, r.width as int, r.height as int)
            + atlas_layer(normal, seq![128u8, 128, 255, 0], Some(255u8), r.width as int, r.height as int)
            + atlas_layer(specular, seq![0u8, 0, 0, 0], Some(255u8), r.width as int, r.height as int),
{
    let mut ext: (u32, u32) = (1, 1);
    ext = widen(ext, diffuse);
    ext = widen(ext, tcmask);
    ext = widen(ext, normal);
    ext = widen(ext, specular);
    let (w, h) = ext;
    let ghost layer: int = w * h * 4;
    proof {
        assert(layer * 4 == w * h * 16) by (nonlinear_arith)
            requires
                layer == w * h * 4,
        ;
        assert(layer >= 0) by (nonlinear_arith)
            requires
                layer == w * h * 4,
        ;
    }
    let mut data: Vec<u8> = Vec::new();
    push_layer(&mut data, diffuse, [255u8, 255, 255, 255], None, w, h);
    push_layer(&mut data, tcmask, [0u8, 0, 0, 0], None, w, h);
    push_layer(&mut data, normal, [128u8, 128, 255, 0], Some(255u8), w, h);
    push_layer(&mut data, specular, [0u8, 0, 0, 0], Some(255u8), w, h);
    proof {
        assert([255u8, 255, 255, 255]@ =~= seq![255u8, 255, 255, 255]);
        assert([0u8, 0, 0, 0]@ =~= seq![0u8, 0, 0, 0]);
        assert([128u8, 128, 255, 0]@ =~= seq![128u8, 128, 255, 0]);
    }
    PageAtlas { width: w, height: h, data }
}

/// Grow an extent to cover a page.
fn widen(ext: (u32, u32), page: Option<&TexturePageRef>) -> (r: (u32, u32))
    ensures
        r == (max_u32(ext.0, page_width(page)), max_u32(ext.1, page_height(page))),
{
    match page {
        Some(p) => {
            let w = if ext.0 < p.width { p.width } else { ext.0 };
            let h = if ext.1 < p.height { p.height } else { ext.1 };
            (w, h)
        },
        None => ext,
    }
}

/// Resampling an image to its own size gives the image back: the copy the
/// builder makes for a page already of the atlas size is exactly what
/// resampling would give.
pub proof fn lemma_resize_to_own_size_is_identity(src: Seq<u8>, w: int, h: int)
    requires
        w >= 1,
        h >= 1,
        src.len() == w * h * 4,
    ensures
        resized_layer(src, w, h, w, h, None) == src,
{
    let r = resized_layer(src, w, h, w, h, None);
    assert forall|k: int| 0 <= k < src.len() implies r[k] == src[k] by {
        lemma_same_size_offset(w, h, k);
    }
    assert(r =~= src);
}

} // verus!
