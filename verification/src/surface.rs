//! The host's software pixel surface: 32-bit premultiplied ARGB pixels, row
//! by row, onto which the icon's pixels are composited ("source over").

use vstd::prelude::*;

verus! {

/// Alpha, red, green and blue of an ARGB pixel, each 0..=255.
pub open spec fn alpha_of(p: u32) -> int {
    p as int / 0x1000000
}

pub open spec fn red_of(p: u32) -> int {
    (p as int / 0x10000) % 0x100
}

pub open spec fn green_of(p: u32) -> int {
    (p as int / 0x100) % 0x100
}

pub open spec fn blue_of(p: u32) -> int {
    p as int % 0x100
}

/// One channel of "source over": the source's channel plus the
/// destination's scaled by what the source leaves uncovered (rounded to
/// nearest), at most 255.
pub open spec fn over(src: int, dst: int, a: int) -> int {
    let v = src + (dst * (255 - a) + 127) / 255;
    if v > 255 {
        255
    } else {
        v
    }
}

/// The pixel packed from four channels.
pub open spec fn argb(a: int, r: int, g: int, b: int) -> int {
    a * 0x1000000 + r * 0x10000 + g * 0x100 + b
}

/// `dst` after compositing a premultiplied RGBA source pixel over it.
pub open spec fn blended(dst: u32, r: u8, g: u8, b: u8, a: u8) -> int {
    argb(
        over(a as int, alpha_of(dst), a as int),
        over(r as int, red_of(dst), a as int),
        over(g as int, green_of(dst), a as int),
        over(b as int, blue_of(dst), a as int),
    )
}

/// A pixel surface of `width` × `height` pixels.
pub struct Surface {
    pub width: i32,
    pub height: i32,
    pub pixels: Vec<u32>,
}

/// The number of pixels held for a size: at least one row and one column.
pub open spec fn pixel_count(width: i32, height: i32) -> int {
    (if width > 1 { width as int } else { 1 }) * (if height > 1 { height as int } else { 1 })
}

/// Whether `(x, y)` lies on the surface.
pub open spec fn on_surface(s: &Surface, x: int, y: int) -> bool {
    0 <= x < s.width && 0 <= y < s.height
}

/// The surface holds its pixels, row by row.
pub open spec fn surface_ok(s: &Surface) -> bool {
    &&& pixel_count(s.width, s.height) <= i32::MAX
    &&& s.pixels@.len() == pixel_count(s.width, s.height)
}

fn channel(src: u32, dst: u32, a: u32) -> (r: u32)
    requires
        src <= 255,
        dst <= 255,
        a <= 255,
    ensures
        r == over(src as int, dst as int, a as int),
{
    assert(dst * (255 - a) <= 255 * 255) by (nonlinear_arith)
        requires
            dst <= 255,
            a <= 255,
    ;
    let v = src + (dst * (255 - a) + 127) / 255;
    if v > 255 {
        255
    } else {
        v
    }
}

impl Surface {
    /// A transparent surface of the size.
    pub fn new(width: i32, height: i32) -> (r: Surface)
        requires
            pixel_count(width, height) <= i32::MAX,
        ensures
            r.width == width && r.height == height,
            surface_ok(&r),
            forall|i: int| 0 <= i < r.pixels@.len() ==> r.pixels@[i] == 0,
    {
        let w: i32 = if width > 1 { width } else { 1 };
        let h: i32 = if height > 1 { height } else { 1 };
        assert(w * h == pixel_count(width, height));
        let size = (w * h) as usize;
        let mut pixels: Vec<u32> = Vec::new();
        let mut i: usize = 0;
        while i < size
            invariant
                i <= size,
                pixels@.len() == i,
                forall|j: int| 0 <= j < i ==> pixels@[j] == 0,
            decreases size - i,
        {
            pixels.push(0);
            i = i + 1;
        }
        Surface { width, height, pixels }
    }

    /// Every pixel transparent again.
    pub fn clear(&mut self)
        ensures
            final(self).width == old(self).width && final(self).height == old(self).height,
            final(self).pixels@.len() == old(self).pixels@.len(),
            forall|i: int| 0 <= i < final(self).pixels@.len() ==> final(self).pixels@[i] == 0,
    {
        let n = self.pixels.len();
        let ghost (w, h) = (self.width, self.height);
        let mut i: usize = 0;
        while i < n
            invariant
                n == self.pixels@.len(),
                self.width == w && self.height == h,
                i <= n,
                forall|j: int| 0 <= j < i ==> self.pixels@[j] == 0,
            decreases n - i,
        {
            self.pixels.set(i, 0);
            i = i + 1;
        }
    }

    /// Composites a premultiplied RGBA pixel over the pixel at `(x, y)`;
    /// nothing for a point off the surface or a fully transparent pixel.
    pub fn blend_pixel_rgba8(&mut self, x: i32, y: i32, r: u8, g: u8, b: u8, a: u8)
        requires
            surface_ok(old(self)),
        ensures
            final(self).width == old(self).width && final(self).height == old(self).height,
            surface_ok(final(self)),
            !on_surface(old(self), x as int, y as int) || a == 0 ==> final(self).pixels@ == old(self).pixels@,
            on_surface(old(self), x as int, y as int) && a != 0 ==> final(self).pixels@ == old(self).pixels@.update(
                y * old(self).width + x,
                blended(old(self).pixels@[y * old(self).width + x], r, g, b, a) as u32,
            ),
    {
        if x < 0 || x >= self.width || y < 0 || y >= self.height || a == 0 {
            return;
        }
        assert(y * self.width + x < pixel_count(self.width, self.height)) by (nonlinear_arith)
            requires
                0 <= x < self.width,
                0 <= y < self.height,
                pixel_count(self.width, self.height) == self.width * self.height,
        ;
        assert(0 <= y * self.width) by (nonlinear_arith)
            requires
                0 <= y,
                0 <= self.width,
        ;
        let idx = (y * self.width + x) as usize;
        let dst = self.pixels[idx];
        let dst_a = (dst >> 24) & 0xFF;
        let dst_r = (dst >> 16) & 0xFF;
        let dst_g = (dst >> 8) & 0xFF;
        let dst_b = dst & 0xFF;
        assert(dst_a == dst / 0x1000000 && dst_r == (dst / 0x10000) % 0x100 && dst_g == (dst / 0x100) % 0x100
            && dst_b == dst % 0x100) by (bit_vector)
            requires
                dst_a == (dst >> 24) & 0xFF,
                dst_r == (dst >> 16) & 0xFF,
                dst_g == (dst >> 8) & 0xFF,
                dst_b == dst & 0xFF,
        ;
        let a32 = a as u32;
        let out_a = channel(a32, dst_a, a32);
        let out_r = channel(r as u32, dst_r, a32);
        let out_g = channel(g as u32, dst_g, a32);
        let out_b = channel(b as u32, dst_b, a32);
        let packed = (out_a << 24) | (out_r << 16) | (out_g << 8) | out_b;
        assert(packed == out_a * 0x1000000 + out_r * 0x10000 + out_g * 0x100 + out_b) by (bit_vector)
            requires
                out_a <= 255,
                out_r <= 255,
                out_g <= 255,
                out_b <= 255,
                packed == (out_a << 24) | (out_r << 16) | (out_g << 8) | out_b,
        ;
        self.pixels.set(idx, packed);
    }
}

/// The RGBA source pixel at `(sx, sy)` of a pixmap `sw` pixels wide.
pub open spec fn source_pixel(data: Seq<u8>, sw: int, sx: int, sy: int) -> (u8, u8, u8, u8) {
    let o = (sy * sw + sx) * 4;
    (data[o], data[o + 1], data[o + 2], data[o + 3])
}

/// Whether the source pixel `(sx, sy)` of a `sw` × `sh` pixmap has been
/// composited once the first `rows` rows and then `cols` pixels of the next
/// row have.
pub open spec fn done_before(sx: int, sy: int, rows: int, cols: int) -> bool {
    sy < rows || (sy == rows && sx < cols)
}

/// The pixel at index `d` after compositing those source pixels of the
/// pixmap at `(px, py)` that are done and not fully transparent.
pub open spec fn composited_at(
    old: Seq<u32>,
    width: int,
    height: int,
    px: int,
    py: int,
    sw: int,
    sh: int,
    data: Seq<u8>,
    rows: int,
    cols: int,
    d: int,
) -> u32 {
    if width > 0 && d / width < height {
        let (sx, sy) = (d % width - px, d / width - py);
        if 0 <= sx < sw && 0 <= sy < sh && done_before(sx, sy, rows, cols) && source_pixel(data, sw, sx, sy).3
            != 0 {
            let c = source_pixel(data, sw, sx, sy);
            blended(old[d], c.0, c.1, c.2, c.3) as u32
        } else {
            old[d]
        }
    } else {
        old[d]
    }
}

/// The pixels after compositing the done part of the pixmap.
pub open spec fn composited(
    old: Seq<u32>,
    width: int,
    height: int,
    px: int,
    py: int,
    sw: int,
    sh: int,
    data: Seq<u8>,
    rows: int,
    cols: int,
) -> Seq<u32> {
    Seq::new(old.len(), |d: int| composited_at(old, width, height, px, py, sw, sh, data, rows, cols, d))
}

proof fn lemma_coordinates(x: int, y: int, w: int)
    requires
        0 <= x < w,
        0 <= y,
    ensures
        (y * w + x) % w == x,
        (y * w + x) / w == y,
{
    vstd::arithmetic::div_mod::lemma_fundamental_div_mod_converse(y * w + x, w, y, x);
}

impl Surface {
    /// Composites a `sw` × `sh` RGBA pixmap (premultiplied, row by row) with
    /// its top-left corner at `(px, py)`: each source pixel that is not fully
    /// transparent, over the surface pixel it lands on, where that is on the
    /// surface.
    pub fn draw_pixmap(&mut self, px: i32, py: i32, sw: i32, sh: i32, data: &[u8])
        requires
            surface_ok(old(self)),
            0 <= sw && 0 <= sh,
            sw * sh * 4 <= i32::MAX,
            data@.len() >= sw * sh * 4,
            px + sw <= i32::MAX,
            py + sh <= i32::MAX,
        ensures
            final(self).width == old(self).width && final(self).height == old(self).height,
            surface_ok(final(self)),
            final(self).pixels@ == composited(
                old(self).pixels@,
                old(self).width as int,
                old(self).height as int,
                px as int,
                py as int,
                sw as int,
                sh as int,
                data@,
                sh as int,
                0,
            ),
    {
        let ghost old_pixels = self.pixels@;
        let ghost (w, h) = (self.width as int, self.height as int);
        proof {
            assert(composited(old_pixels, w, h, px as int, py as int, sw as int, sh as int, data@, 0, 0) =~= old_pixels);
        }
        let mut sy: i32 = 0;
        while sy < sh
            invariant
                0 <= sy <= sh,
                surface_ok(self),
                self.width == w && self.height == h,
                0 <= sw && 0 <= sh,
                sw * sh * 4 <= i32::MAX,
                data@.len() >= sw * sh * 4,
                px + sw <= i32::MAX,
                py + sh <= i32::MAX,
                self.pixels@ == composited(old_pixels, w, h, px as int, py as int, sw as int, sh as int, data@, sy as int, 0),
            decreases sh - sy,
        {
            let mut sx: i32 = 0;
            while sx < sw
                invariant
                    0 <= sy < sh,
                    0 <= sx <= sw,
                    surface_ok(self),
                    self.width == w && self.height == h,
                    0 <= sw && 0 <= sh,
                    sw * sh * 4 <= i32::MAX,
                    data@.len() >= sw * sh * 4,
                    px + sw <= i32::MAX,
                    py + sh <= i32::MAX,
                    self.pixels@ == composited(old_pixels, w, h, px as int, py as int, sw as int, sh as int, data@, sy as int, sx as int),
                decreases sw - sx,
            {
                assert(0 <= sy * sw + sx < sw * sh) by (nonlinear_arith)
                    requires
                        0 <= sy < sh,
                        0 <= sx < sw,
                ;
                let offset = ((sy * sw + sx) * 4) as usize;
                let r = data[offset];
                let g = data[offset + 1];
                let b = data[offset + 2];
                let a = data[offset + 3];
                let ghost before = self.pixels@;
                let x = px + sx;
                let y = py + sy;
                if a > 0 {
                    self.blend_pixel_rgba8(x, y, r, g, b, a);
                }
                proof {
                    let next = composited(old_pixels, w, h, px as int, py as int, sw as int, sh as int, data@, sy as int, sx + 1);
                    let cur = composited(old_pixels, w, h, px as int, py as int, sw as int, sh as int, data@, sy as int, sx as int);
                    assert(before == cur);
                    assert(source_pixel(data@, sw as int, sx as int, sy as int) == (r, g, b, a));
                    let hit = on_surface(self, x as int, y as int) && a != 0;
                    if on_surface(self, x as int, y as int) {
                        lemma_coordinates(x as int, y as int, w);
                        assert(0 <= y * w) by (nonlinear_arith)
                            requires
                                0 <= y,
                                0 <= w,
                        ;
                        assert(y * w + x < w * h) by (nonlinear_arith)
                            requires
                                0 <= x < w,
                                0 <= y < h,
                        ;
                        assert(pixel_count(w as i32, h as i32) == w * h);
                    }
                    assert forall|d: int| 0 <= d < before.len() implies #[trigger] self.pixels@[d] == next[d] by {
                        let same_source = w > 0 && d / w < h && d % w - px == sx && d / w - py == sy;
                        if same_source {
                            vstd::arithmetic::div_mod::lemma_fundamental_div_mod(d, w);
                            vstd::arithmetic::div_mod::lemma_mod_pos_bound(d, w);
                            vstd::arithmetic::div_mod::lemma_div_pos_is_pos(d, w);
                            assert(d == y * w + x) by (nonlinear_arith)
                                requires
                                    d == w * (d / w) + d % w,
                                    d % w == x,
                                    d / w == y,
                            ;
                            assert(on_surface(self, x as int, y as int));
                            if a != 0 {
                                assert(self.pixels@[d] == blended(before[d], r, g, b, a) as u32);
                                assert(before[d] == old_pixels[d]);
                            } else {
                                assert(self.pixels@[d] == before[d]);
                            }
                        } else {
                            if hit {
                                if d == y * w + x {
                                    assert(d % w == x && d / w == y);
                                }
                                assert(d != y * w + x);
                            }
                            assert(self.pixels@[d] == before[d]);
                        }
                    }
                    assert(self.pixels@ =~= next);
                }
                sx = sx + 1;
            }
            proof {
                assert(composited(old_pixels, w, h, px as int, py as int, sw as int, sh as int, data@, sy as int, sw as int)
                    =~= composited(old_pixels, w, h, px as int, py as int, sw as int, sh as int, data@, sy + 1, 0));
            }
            sy = sy + 1;
        }
    }
}

} // verus!
