use vstd::prelude::*;

pub mod colour;
pub mod mesh;
pub mod triangle;

use crate::colour::{packed, round_div, unpacked, Colour};
use crate::mesh::{Mesh, MeshError};
use crate::triangle::{
    aabb_of, abs, denom, min3, weights, Aabb, Barycentric, Point, Triangle, SUBPIXEL,
};

verus! {

/// A caller-owned frame of packed `0x00RRGGBB` words, `width` per row,
/// addressed as `y * width + x`.
pub struct PixelBuffer<'a> {
    buffer: &'a mut [u32],
    width: usize,
    height: usize,
}

impl<'a> PixelBuffer<'a> {
    /// The words of the frame, row after row.
    pub closed spec fn pixels(&self) -> Seq<u32> {
        self.buffer@
    }

    pub closed spec fn spec_width(&self) -> nat {
        self.width as nat
    }

    pub closed spec fn spec_height(&self) -> nat {
        self.height as nat
    }

    /// The word of the pixel at column `x`, row `y`.
    pub open spec fn pixel(&self, x: int, y: int) -> u32 {
        frame_at(self.pixels(), self.spec_width(), x, y)
    }

    /// The frame holds exactly one word per pixel.
    pub open spec fn wf(&self) -> bool {
        &&& self.pixels().len() == self.spec_width() * self.spec_height()
        &&& self.pixels().len() <= usize::MAX
    }

    pub fn new(buffer: &'a mut [u32], width: usize, height: usize) -> (pb: PixelBuffer<'a>)
        requires
            old(buffer)@.len() == width * height,
        ensures
            pb.wf(),
            pb.pixels() == old(buffer)@,
            pb.spec_width() == width,
            pb.spec_height() == height,
    {
        let n = buffer.len();
        assert(n == buffer@.len());
        PixelBuffer { buffer, width, height }
    }

    pub fn width(&self) -> (w: usize)
        ensures
            w == self.spec_width(),
    {
        self.width
    }

    pub fn height(&self) -> (h: usize)
        ensures
            h == self.spec_height(),
    {
        self.height
    }

    /// Fills every pixel with one colour.
    pub fn clear(&mut self, colour: Colour)
        requires
            old(self).wf(),
        ensures
            final(self).wf(),
            final(self).spec_width() == old(self).spec_width(),
            final(self).spec_height() == old(self).spec_height(),
            final(self).pixels() == Seq::new(old(self).pixels().len(), |i: int| packed(colour) as u32),
    {
        let w = colour.to_packed();
        let n = self.buffer.len();
        let mut i: usize = 0;
        while i < n
            invariant
                0 <= i <= n,
                n == old(self).pixels().len(),
                self.pixels().len() == n,
                self.width == old(self).width,
                self.height == old(self).height,
                w as int == packed(colour),
                forall|j: int| 0 <= j < i ==> self.pixels()[j] == w,
            decreases n - i,
        {
            self.buffer[i] = w;
            i = i + 1;
        }
        assert(self.pixels() =~= Seq::new(n as nat, |i: int| packed(colour) as u32));
    }

    fn index(&self, x: usize, y: usize) -> (i: usize)
        requires
            self.wf(),
            x < self.spec_width(),
            y < self.spec_height(),
        ensures
            i == y * self.spec_width() + x,
            i < self.pixels().len(),
    {
        proof {
            lemma_index_in_frame(x as int, y as int, self.width as int, self.height as int);
            assert(y * self.width + x < self.pixels().len());
        }
        y * self.width + x
    }

    /// Writes one pixel; a pixel outside the frame is left alone.
    pub fn set_pixel(&mut self, x: usize, y: usize, colour: Colour)
        requires
            old(self).wf(),
        ensures
            final(self).wf(),
            final(self).spec_width() == old(self).spec_width(),
            final(self).spec_height() == old(self).spec_height(),
            final(self).pixels() == (if x < old(self).spec_width() && y < old(self).spec_height() {
                old(self).pixels().update(y * old(self).spec_width() + x, packed(colour) as u32)
            } else {
                old(self).pixels()
            }),
    {
        if x >= self.width || y >= self.height {
            return;
        }
        let i = self.index(x, y);
        self.buffer[i] = colour.to_packed();
    }

    fn word_at(&self, x: usize, y: usize) -> (w: u32)
        requires
            self.wf(),
            x < self.spec_width(),
            y < self.spec_height(),
        ensures
            w == self.pixel(x as int, y as int),
    {
        let i = self.index(x, y);
        self.buffer[i]
    }

    /// Shades pixel `(px, py)` of triangle `t`, whose box holds the pixel.
    fn fill_pixel(
        &mut self,
        t: &Triangle,
        colours: Option<[Colour; 3]>,
        smooth: bool,
        px: usize,
        py: usize,
    )
        requires
            old(self).wf(),
            px < old(self).spec_width(),
            py < old(self).spec_height(),
            denom(*t) != 0,
            in_box(aabb_of(*t), px as int, py as int),
        ensures
            final(self).wf(),
            final(self).spec_width() == old(self).spec_width(),
            final(self).spec_height() == old(self).spec_height(),
            final(self).pixels() == old(self).pixels().update(
                py * old(self).spec_width() + px,
                filled(*t, colours, smooth, px as int, py as int, old(self).pixel(px as int, py as int)),
            ),
    {
        let ghost old_word = self.pixel(px as int, py as int);
        let ghost idx = py * self.spec_width() + px;
        proof {
            lemma_index_in_frame(px as int, py as int, self.width as int, self.height as int);
        }
        let bb = t.aabb();
        assert(-8388608 <= bb.top_left.x && bb.bottom_right.x <= 8388608);
        assert(-8388608 <= bb.top_left.y && bb.bottom_right.y <= 8388608);
        let sx = px as i64 * 256;
        let sy = py as i64 * 256;
        let b = match t.barycentric(sx, sy) {
            Some(b) => b,
            None => {
                return;
            },
        };
        assert(weights_of(b) == weights(*t, px * SUBPIXEL, py * SUBPIXEL));
        if b.w1 >= 0 && b.w2 >= 0 && b.w3 >= 0 {
            let c = shade_exec(colours, &b);
            self.set_pixel(px, py, c);
        } else if smooth {
            let m = if b.w1 <= b.w2 && b.w1 <= b.w3 {
                b.w1
            } else if b.w2 <= b.w3 {
                b.w2
            } else {
                b.w3
            };
            let a = b.total + EDGE_FALLOFF * m;
            if a >= 0 {
                let bg = Colour::from_packed(self.word_at(px, py));
                let c = fade_exec(shade_exec(colours, &b), bg, a, b.total);
                self.set_pixel(px, py, c);
            } else {
                assert(self.pixels() =~= self.pixels().update(idx, old_word));
            }
        } else {
            assert(self.pixels() =~= self.pixels().update(idx, old_word));
        }
    }

    /// Fills triangle `t` pixel by pixel over its box, clipped to the frame.
    fn fill(&mut self, t: &Triangle, colours: Option<[Colour; 3]>, smooth: bool)
        requires
            old(self).wf(),
        ensures
            final(self).wf(),
            final(self).spec_width() == old(self).spec_width(),
            final(self).spec_height() == old(self).spec_height(),
            forall|x: int, y: int|
                in_frame(old(self).spec_width(), old(self).spec_height(), x, y)
                    ==> #[trigger] final(self).pixel(x, y) == filled(
                    *t,
                    colours,
                    smooth,
                    x,
                    y,
                    old(self).pixel(x, y),
                ),
    {
        let ghost w = self.spec_width();
        let ghost h = self.spec_height();
        if t.is_degenerate() || self.width == 0 || self.height == 0 {
            return;
        }
        let bb = t.aabb();
        let x_lo: i128 = if bb.top_left.x < 0 {
            0
        } else {
            bb.top_left.x as i128
        };
        let y_lo: i128 = if bb.top_left.y < 0 {
            0
        } else {
            bb.top_left.y as i128
        };
        let x_hi: i128 = if (bb.bottom_right.x as i128) < self.width as i128 {
            bb.bottom_right.x as i128
        } else {
            self.width as i128 - 1
        };
        let y_hi: i128 = if (bb.bottom_right.y as i128) < self.height as i128 {
            bb.bottom_right.y as i128
        } else {
            self.height as i128 - 1
        };
        let mut py: i128 = y_lo;
        while py <= y_hi
            invariant
                self.wf(),
                self.spec_width() == w,
                self.spec_height() == h,
                w > 0,
                h > 0,
                denom(*t) != 0,
                bb == aabb_of(*t),
                x_lo == (if bb.top_left.x < 0 { 0 } else { bb.top_left.x as int }),
                y_lo == (if bb.top_left.y < 0 { 0 } else { bb.top_left.y as int }),
                x_hi == (if bb.bottom_right.x < w { bb.bottom_right.x as int } else { w - 1 }),
                y_hi == (if bb.bottom_right.y < h { bb.bottom_right.y as int } else { h - 1 }),
                y_lo <= py,
                py <= y_hi + 1 || y_hi < y_lo,
                forall|x: int, y: int|
                    in_frame(w, h, x, y) ==> #[trigger] self.pixel(x, y) == (if y_lo <= y < py
                        && x_lo <= x <= x_hi {
                        filled(*t, colours, smooth, x, y, old(self).pixel(x, y))
                    } else {
                        old(self).pixel(x, y)
                    }),
            decreases y_hi + 1 - py,
        {
            let mut px: i128 = x_lo;
            while px <= x_hi
                invariant
                    self.wf(),
                    self.spec_width() == w,
                    self.spec_height() == h,
                    denom(*t) != 0,
                    bb == aabb_of(*t),
                    x_lo == (if bb.top_left.x < 0 { 0 } else { bb.top_left.x as int }),
                    x_hi == (if bb.bottom_right.x < w { bb.bottom_right.x as int } else { w - 1 }),
                    0 <= y_lo <= py <= y_hi,
                    y_hi < h,
                    0 <= x_lo,
                    bb.top_left.y <= py <= bb.bottom_right.y,
                    x_lo <= px,
                    px <= x_hi + 1 || x_hi < x_lo,
                    forall|x: int, y: int|
                        in_frame(w, h, x, y) ==> #[trigger] self.pixel(x, y) == (if (y_lo <= y < py
                            && x_lo <= x <= x_hi) || (y == py && x_lo <= x < px) {
                            filled(*t, colours, smooth, x, y, old(self).pixel(x, y))
                        } else {
                            old(self).pixel(x, y)
                        }),
                decreases x_hi + 1 - px,
            {
                let ghost before = self.pixels();
                assert forall|x: int, y: int| in_frame(w, h, x, y) implies #[trigger] frame_at(
                    before,
                    w,
                    x,
                    y,
                ) == (if (y_lo <= y < py && x_lo <= x <= x_hi) || (y == py && x_lo <= x < px) {
                    filled(*t, colours, smooth, x, y, old(self).pixel(x, y))
                } else {
                    old(self).pixel(x, y)
                }) by {
                    assert(self.pixel(x, y) == frame_at(before, w, x, y));
                }
                assert(self.pixel(px as int, py as int) == old(self).pixel(px as int, py as int));
                self.fill_pixel(t, colours, smooth, px as usize, py as usize);
                proof {
                    lemma_frame_update(
                        before,
                        w,
                        h,
                        px as int,
                        py as int,
                        filled(*t, colours, smooth, px as int, py as int, old(self).pixel(px as int, py as int)),
                    );
                    assert forall|x: int, y: int| in_frame(w, h, x, y) implies #[trigger] self.pixel(
                        x,
                        y,
                    ) == (if (y_lo <= y < py && x_lo <= x <= x_hi) || (y == py && x_lo <= x < px + 1) {
                        filled(*t, colours, smooth, x, y, old(self).pixel(x, y))
                    } else {
                        old(self).pixel(x, y)
                    }) by {
                        assert(self.pixel(x, y) == frame_at(self.pixels(), w, x, y));
                        assert(frame_at(before, w, x, y) == frame_at(before, w, x, y));
                    }
                }
                px = px + 1;
            }
            py = py + 1;
        }
        assert forall|x: int, y: int| in_frame(w, h, x, y) implies #[trigger] self.pixel(x, y)
            == filled(*t, colours, smooth, x, y, old(self).pixel(x, y)) by {
            if !(y_lo <= y < py && x_lo <= x <= x_hi) {
                assert(!in_box(bb, x, y));
            }
        }
    }

    /// Fills one screen-space triangle, for inspection on its own: pixels
    /// just outside its edges fade into what the frame held.
    pub fn triangle(&mut self, triangle: Triangle, colours: Option<[Colour; 3]>)
        requires
            old(self).wf(),
        ensures
            final(self).wf(),
            final(self).spec_width() == old(self).spec_width(),
            final(self).spec_height() == old(self).spec_height(),
            forall|x: int, y: int|
                in_frame(old(self).spec_width(), old(self).spec_height(), x, y)
                    ==> #[trigger] final(self).pixel(x, y) == filled(
                    triangle,
                    colours,
                    true,
                    x,
                    y,
                    old(self).pixel(x, y),
                ),
    {
        self.fill(&triangle, colours, true);
    }

    /// Draws a mesh whose vertices were projected to the screen points
    /// `projected`, one per vertex: triangles in index order, each culled if it
    /// faces away, else filled with its vertex colours.
    pub fn mesh(&mut self, mesh: &Mesh, projected: &Vec<Point>) -> (r: Result<(), MeshError>)
        requires
            old(self).wf(),
            mesh.wf(),
        ensures
            final(self).wf(),
            final(self).spec_width() == old(self).spec_width(),
            final(self).spec_height() == old(self).spec_height(),
            r is Ok <==> projected@.len() == mesh.spec_vertices().len(),
            r is Err ==> r == Err::<(), MeshError>(MeshError::ProjectedCountMismatch)
                && final(self).pixels() == old(self).pixels(),
            r is Ok ==> forall|x: int, y: int|
                in_frame(old(self).spec_width(), old(self).spec_height(), x, y)
                    ==> #[trigger] final(self).pixel(x, y) == rendered(
                    mesh.spec_indices(),
                    projected@,
                    mesh.spec_colours(),
                    mesh.spec_indices().len() / 3,
                    x,
                    y,
                    old(self).pixel(x, y),
                ),
    {
        let ghost w = self.spec_width();
        let ghost h = self.spec_height();
        if projected.len() != mesh.vertices().len() {
            return Err(MeshError::ProjectedCountMismatch);
        }
        let indices = mesh.indices();
        let colours = mesh.colours();
        let n = indices.len() / 3;
        assert(indices@.len() <= usize::MAX);
        let mut k: usize = 0;
        while k < n
            invariant
                self.wf(),
                self.spec_width() == w,
                self.spec_height() == h,
                mesh.wf(),
                indices@ == mesh.spec_indices(),
                colours@ == mesh.spec_colours(),
                projected@.len() == mesh.spec_vertices().len(),
                n == indices@.len() / 3,
                indices@.len() <= usize::MAX,
                0 <= k <= n,
                forall|x: int, y: int|
                    in_frame(w, h, x, y) ==> #[trigger] self.pixel(x, y) == rendered(
                        indices@,
                        projected@,
                        colours@,
                        k as nat,
                        x,
                        y,
                        old(self).pixel(x, y),
                    ),
            decreases n - k,
        {
            assert(3 * k + 3 <= indices@.len()) by (nonlinear_arith)
                requires
                    k < n,
                    n == indices@.len() / 3,
            ;
            let i1 = indices[3 * k];
            let i2 = indices[3 * k + 1];
            let i3 = indices[3 * k + 2];
            let t = Triangle::new(projected[i1], projected[i2], projected[i3]);
            let ghost before = *self;
            if is_front_facing(&t) {
                let cs = [colours[i1], colours[i2], colours[i3]];
                assert(cs@ =~= mesh_colours(indices@, colours@, k as int)@);
                self.fill(&t, Some(cs), false);
            }
            proof {
                assert(t == mesh_triangle(indices@, projected@, k as int));
                assert forall|x: int, y: int| in_frame(w, h, x, y) implies #[trigger] self.pixel(
                    x,
                    y,
                ) == rendered(
                    indices@,
                    projected@,
                    colours@,
                    (k + 1) as nat,
                    x,
                    y,
                    old(self).pixel(x, y),
                ) by {
                    assert(before.pixel(x, y) == rendered(
                        indices@,
                        projected@,
                        colours@,
                        k as nat,
                        x,
                        y,
                        old(self).pixel(x, y),
                    ));
                }
            }
            k = k + 1;
        }
        Ok(())
    }

    /// The frame as 8-bit RGB bytes, three per pixel, row after row.
    pub fn rgb_bytes(&self) -> (bytes: Vec<u8>)
        requires
            self.wf(),
        ensures
            bytes@.len() == 3 * self.pixels().len(),
            forall|i: int|
                0 <= i < self.pixels().len() ==> {
                    let c = #[trigger] unpacked(self.pixels()[i]);
                    &&& bytes@[3 * i] == c.r
                    &&& bytes@[3 * i + 1] == c.g
                    &&& bytes@[3 * i + 2] == c.b
                },
    {
        let n = self.buffer.len();
        let mut bytes: Vec<u8> = Vec::new();
        let mut i: usize = 0;
        while i < n
            invariant
                n == self.pixels().len(),
                0 <= i <= n,
                bytes@.len() == 3 * i,
                forall|j: int|
                    0 <= j < i ==> {
                        let c = #[trigger] unpacked(self.pixels()[j]);
                        &&& bytes@[3 * j] == c.r
                        &&& bytes@[3 * j + 1] == c.g
                        &&& bytes@[3 * j + 2] == c.b
                    },
            decreases n - i,
        {
            let c = Colour::from_packed(self.buffer[i]);
            bytes.push(c.r);
            bytes.push(c.g);
            bytes.push(c.b);
            i = i + 1;
        }
        bytes
    }

    /// Draws Bresenham's line from `(x0, y0)` to `(x1, y1)`, both ends included;
    /// pixels of the line outside the frame are skipped.
    pub fn line(&mut self, x0: usize, y0: usize, x1: usize, y1: usize, colour: Colour)
        requires
            old(self).wf(),
        ensures
            final(self).wf(),
            final(self).spec_width() == old(self).spec_width(),
            final(self).spec_height() == old(self).spec_height(),
            forall|px: int, py: int|
                in_frame(old(self).spec_width(), old(self).spec_height(), px, py)
                    ==> #[trigger] final(self).pixel(px, py) == (if line_points(
                    x0 as int,
                    y0 as int,
                    x1 as int,
                    y1 as int,
                ).contains((px, py)) {
                    packed(colour) as u32
                } else {
                    old(self).pixel(px, py)
                }),
    {
        let ghost w = self.spec_width();
        let ghost h = self.spec_height();
        let ghost full = line_points(x0 as int, y0 as int, x1 as int, y1 as int);
        let xe = x1 as i128;
        let ye = y1 as i128;
        let mut x = x0 as i128;
        let mut y = y0 as i128;
        let dx: i128 = if x < xe {
            xe - x
        } else {
            x - xe
        };
        let dy: i128 = if y < ye {
            y - ye
        } else {
            ye - y
        };
        let sx: i128 = if x < xe {
            1
        } else {
            -1
        };
        let sy: i128 = if y < ye {
            1
        } else {
            -1
        };
        let mut error: i128 = dx + dy;
        let ghost m = dx - dy;
        let ghost mut drawn: Seq<(int, int)> = seq![];
        loop
            invariant_except_break
                drawn + line_walk(x as int, y as int, error as int, xe as int, ye as int, dx as nat, (-dy) as nat) == full,
            invariant
                self.wf(),
                self.spec_width() == w,
                self.spec_height() == h,
                xe == x1,
                ye == y1,
                dx == abs(xe - x0),
                dy == -abs(ye - y0),
                m == dx - dy,
                m <= 0x20000000000000000,
                -2 * m <= error <= 2 * m,
                sx == (if x0 < x1 {
                    1int
                } else {
                    -1int
                }),
                sy == (if y0 < y1 {
                    1int
                } else {
                    -1int
                }),
                (x0 <= x <= xe) || (xe <= x <= x0),
                (y0 <= y <= ye) || (ye <= y <= y0),
                forall|px: int, py: int|
                    in_frame(w, h, px, py) ==> #[trigger] self.pixel(px, py) == (if drawn.contains(
                        (px, py),
                    ) {
                        packed(colour) as u32
                    } else {
                        old(self).pixel(px, py)
                    }),
            ensures
                self.wf(),
                self.spec_width() == w,
                self.spec_height() == h,
                drawn == full,
                forall|px: int, py: int|
                    in_frame(w, h, px, py) ==> #[trigger] self.pixel(px, py) == (if drawn.contains(
                        (px, py),
                    ) {
                        packed(colour) as u32
                    } else {
                        old(self).pixel(px, py)
                    }),
            decreases abs(xe - x) + abs(ye - y),
        {
            let ghost before = self.pixels();
            let ghost prev = drawn;
            let ghost walk = line_walk(x as int, y as int, error as int, xe as int, ye as int, dx as nat, (-dy) as nat);
            assert forall|px: int, py: int| in_frame(w, h, px, py) implies #[trigger] frame_at(
                before,
                w,
                px,
                py,
            ) == (if prev.contains((px, py)) {
                packed(colour) as u32
            } else {
                old(self).pixel(px, py)
            }) by {
                assert(self.pixel(px, py) == frame_at(before, w, px, py));
            }
            self.set_pixel(x as usize, y as usize, colour);
            proof {
                if in_frame(w, h, x as int, y as int) {
                    lemma_frame_update(before, w, h, x as int, y as int, packed(colour) as u32);
                }
                drawn = drawn.push((x as int, y as int));
                assert(walk[0] == (x as int, y as int));
                assert forall|px: int, py: int| in_frame(w, h, px, py) implies #[trigger] self.pixel(
                    px,
                    py,
                ) == (if drawn.contains((px, py)) {
                    packed(colour) as u32
                } else {
                    old(self).pixel(px, py)
                }) by {
                    assert(self.pixel(px, py) == frame_at(self.pixels(), w, px, py));
                    assert(frame_at(before, w, px, py) == frame_at(before, w, px, py));
                    if prev.contains((px, py)) {
                        let k = choose|k: int| 0 <= k < prev.len() && prev[k] == (px, py);
                        assert(drawn[k] == (px, py));
                    }
                    if drawn.contains((px, py)) && !(px == x && py == y) {
                        let k = choose|k: int| 0 <= k < drawn.len() && drawn[k] == (px, py);
                        assert(prev[k] == (px, py));
                    }
                    if px == x && py == y {
                        assert(drawn[drawn.len() - 1] == (px, py));
                    }
                }
            }
            if x == xe && y == ye {
                assert(walk =~= seq![(x as int, y as int)]);
                break;
            }
            let e2 = 2 * error;
            let ghost ex = x;
            let ghost ey = y;
            let ghost e_err = error;
            if e2 >= dy {
                if x == xe {
                    assert(walk =~= seq![(x as int, y as int)]);
                    break;
                }
                error = error + dy;
                x = x + sx;
            }
            if e2 <= dx {
                if y == ye {
                    assert(walk =~= seq![(ex as int, ey as int)]);
                    break;
                }
                error = error + dx;
                y = y + sy;
            }
            assert(walk == seq![(ex as int, ey as int)] + line_walk(x as int, y as int, error as int, xe as int, ye as int, dx as nat, (-dy) as nat));
            assert(drawn + line_walk(x as int, y as int, error as int, xe as int, ye as int, dx as nat, (-dy) as nat) =~= full);
        }
    }
}

/// A value held to the channel range `[0, 255]`.
pub open spec fn clamp_channel(v: int) -> int {
    if v < 0 {
        0
    } else if v > 255 {
        255
    } else {
        v
    }
}

/// The channel nearest to `n / d`, held to `[0, 255]`.
pub open spec fn channel(n: int, d: int) -> u8 {
    clamp_channel(round_div(n, d)) as u8
}

/// The vertex colours blended by the weights `b`.
pub open spec fn interpolated(cs: [Colour; 3], b: (int, int, int, int)) -> Colour {
    Colour {
        r: channel(b.0 * cs@[0].r + b.1 * cs@[1].r + b.2 * cs@[2].r, b.3),
        g: channel(b.0 * cs@[0].g + b.1 * cs@[1].g + b.2 * cs@[2].g, b.3),
        b: channel(b.0 * cs@[0].b + b.1 * cs@[1].b + b.2 * cs@[2].b, b.3),
    }
}

/// The colour that shows the weights themselves: red, green and blue are
/// `255` times the first, second and third weight, rounded down.
pub open spec fn weight_colour(b: (int, int, int, int)) -> Colour {
    Colour {
        r: clamp_channel((b.0 * 255) / b.3) as u8,
        g: clamp_channel((b.1 * 255) / b.3) as u8,
        b: clamp_channel((b.2 * 255) / b.3) as u8,
    }
}

/// The colour of a pixel with weights `b`: interpolated from the vertex
/// colours where they are given, else the weight colour.
pub open spec fn shade(colours: Option<[Colour; 3]>, b: (int, int, int, int)) -> Colour {
    match colours {
        Some(cs) => interpolated(cs, b),
        None => weight_colour(b),
    }
}

/// No weight is negative: the point lies inside the triangle or on its edge.
pub open spec fn covered(b: (int, int, int, int)) -> bool {
    b.0 >= 0 && b.1 >= 0 && b.2 >= 0
}

/// Edge blending reaches one hundredth of the weight range outside the triangle.
pub const EDGE_FALLOFF: i128 = 100;

/// The opacity of a pixel just outside the edge, as a fraction of `b.3`:
/// one plus the smallest weight divided by the falloff distance.
pub open spec fn edge_alpha(b: (int, int, int, int)) -> int {
    b.3 + EDGE_FALLOFF * min3(b.0, b.1, b.2)
}

/// The point lies outside the triangle, but within the falloff distance of it.
pub open spec fn near_edge(b: (int, int, int, int)) -> bool {
    min3(b.0, b.1, b.2) < 0 && edge_alpha(b) >= 0
}

/// `c` laid over `bg` with opacity `a / total`.
pub open spec fn faded(c: Colour, bg: Colour, a: int, total: int) -> Colour {
    Colour {
        r: channel(a * c.r + (total - a) * bg.r, total),
        g: channel(a * c.g + (total - a) * bg.g, total),
        b: channel(a * c.b + (total - a) * bg.b, total),
    }
}

/// Whether pixel `(x, y)` lies in the box, both corners included.
pub open spec fn in_box(bb: Aabb, x: int, y: int) -> bool {
    bb.top_left.x <= x <= bb.bottom_right.x && bb.top_left.y <= y <= bb.bottom_right.y
}

/// The word of pixel `(x, y)` after filling triangle `t` over the word `old`.
/// A degenerate triangle leaves every pixel alone. Inside the box the pixel is
/// sampled at its whole-pixel position; a covered pixel takes the shaded colour,
/// and with `smooth` a pixel near an edge fades the shaded colour into `old`.
pub open spec fn filled(
    t: Triangle,
    colours: Option<[Colour; 3]>,
    smooth: bool,
    x: int,
    y: int,
    old: u32,
) -> u32 {
    if denom(t) == 0 || !in_box(aabb_of(t), x, y) {
        old
    } else {
        let b = weights(t, x * SUBPIXEL, y * SUBPIXEL);
        if covered(b) {
            packed(shade(colours, b)) as u32
        } else if smooth && near_edge(b) {
            packed(faded(shade(colours, b), unpacked(old), edge_alpha(b), b.3)) as u32
        } else {
            old
        }
    }
}

/// Weights small enough for the shading arithmetic to stay in range.
pub open spec fn bounded(b: Barycentric) -> bool {
    &&& -0x10000000000000000000000000 <= b.w1 <= 0x10000000000000000000000000
    &&& -0x10000000000000000000000000 <= b.w2 <= 0x10000000000000000000000000
    &&& -0x10000000000000000000000000 <= b.w3 <= 0x10000000000000000000000000
    &&& 0 < b.total <= 0x40000000000000000
}

pub open spec fn weights_of(b: Barycentric) -> (int, int, int, int) {
    (b.w1 as int, b.w2 as int, b.w3 as int, b.total as int)
}

fn channel_exec(n: i128, d: i128) -> (r: u8)
    requires
        0 < d <= 0x40000000000000000,
        -0x1000000000000000000000000000000 <= n <= 0x1000000000000000000000000000000,
    ensures
        r == channel(n as int, d as int),
{
    let t = 2 * n + d;
    if t < 0 {
        assert((2 * n + d) / (2 * d) < 0) by (nonlinear_arith)
            requires
                2 * n + d < 0,
                d > 0,
        ;
        0
    } else {
        let q = (t as u128) / ((2 * d) as u128);
        if q > 255 {
            255
        } else {
            q as u8
        }
    }
}

fn weight_channel(w: i128, total: i128) -> (r: u8)
    requires
        0 < total,
        -0x10000000000000000000000000 <= w <= 0x10000000000000000000000000,
    ensures
        r == clamp_channel((w * 255) / (total as int)) as u8,
{
    if w < 0 {
        assert((w * 255) / (total as int) < 0) by (nonlinear_arith)
            requires
                w < 0,
                total > 0,
        ;
        0
    } else {
        let q = (w as u128 * 255) / (total as u128);
        if q > 255 {
            255
        } else {
            q as u8
        }
    }
}

proof fn lemma_weighted_sum_bound(w1: int, w2: int, w3: int, c1: int, c2: int, c3: int)
    requires
        -0x10000000000000000000000000 <= w1 <= 0x10000000000000000000000000,
        -0x10000000000000000000000000 <= w2 <= 0x10000000000000000000000000,
        -0x10000000000000000000000000 <= w3 <= 0x10000000000000000000000000,
        0 <= c1 <= 255,
        0 <= c2 <= 255,
        0 <= c3 <= 255,
    ensures
        -0x1000000000000000000000000000 <= w1 * c1 <= 0x1000000000000000000000000000,
        -0x1000000000000000000000000000 <= w2 * c2 <= 0x1000000000000000000000000000,
        -0x1000000000000000000000000000 <= w3 * c3 <= 0x1000000000000000000000000000,
{
    crate::triangle::lemma_mul_bound(w1, c1, 0x10000000000000000000000000, 255);
    crate::triangle::lemma_mul_bound(w2, c2, 0x10000000000000000000000000, 255);
    crate::triangle::lemma_mul_bound(w3, c3, 0x10000000000000000000000000, 255);
}

fn interpolate_channel(b: &Barycentric, c1: u8, c2: u8, c3: u8) -> (r: u8)
    requires
        bounded(*b),
    ensures
        r == channel(b.w1 * c1 + b.w2 * c2 + b.w3 * c3, b.total as int),
{
    proof {
        lemma_weighted_sum_bound(b.w1 as int, b.w2 as int, b.w3 as int, c1 as int, c2 as int, c3 as int);
    }
    channel_exec(b.w1 * c1 as i128 + b.w2 * c2 as i128 + b.w3 * c3 as i128, b.total)
}

fn shade_exec(colours: Option<[Colour; 3]>, b: &Barycentric) -> (c: Colour)
    requires
        bounded(*b),
    ensures
        c == shade(colours, weights_of(*b)),
{
    match colours {
        Some(cs) => Colour {
            r: interpolate_channel(b, cs[0].r, cs[1].r, cs[2].r),
            g: interpolate_channel(b, cs[0].g, cs[1].g, cs[2].g),
            b: interpolate_channel(b, cs[0].b, cs[1].b, cs[2].b),
        },
        None => Colour {
            r: weight_channel(b.w1, b.total),
            g: weight_channel(b.w2, b.total),
            b: weight_channel(b.w3, b.total),
        },
    }
}

fn fade_channel(c: u8, bg: u8, a: i128, total: i128) -> (r: u8)
    requires
        0 <= a <= total,
        0 < total <= 0x40000000000000000,
    ensures
        r == channel(a * c + (total - a) * bg, total as int),
{
    proof {
        crate::triangle::lemma_mul_bound(a as int, c as int, 0x40000000000000000, 255);
        crate::triangle::lemma_mul_bound((total - a) as int, bg as int, 0x40000000000000000, 255);
    }
    channel_exec(a * c as i128 + (total - a) * bg as i128, total)
}

fn fade_exec(c: Colour, bg: Colour, a: i128, total: i128) -> (r: Colour)
    requires
        0 <= a <= total,
        0 < total <= 0x40000000000000000,
    ensures
        r == faded(c, bg, a as int, total as int),
{
    Colour {
        r: fade_channel(c.r, bg.r, a, total),
        g: fade_channel(c.g, bg.g, a, total),
        b: fade_channel(c.b, bg.b, a, total),
    }
}

/// Twice the signed area of the triangle `a`, `b`, `c`: the z component of
/// `(b - a) x (c - a)`.
pub open spec fn signed_area(a: Point, b: Point, c: Point) -> int {
    (b.x - a.x) * (c.y - a.y) - (b.y - a.y) * (c.x - a.x)
}

/// A triangle faces the viewer when its signed area is negative.
pub open spec fn front_facing(t: Triangle) -> bool {
    signed_area(t.p1, t.p2, t.p3) < 0
}

/// Triangle `k` of a mesh, from the projected points its index triple names.
pub open spec fn mesh_triangle(indices: Seq<usize>, points: Seq<Point>, k: int) -> Triangle {
    Triangle {
        p1: points[indices[3 * k] as int],
        p2: points[indices[3 * k + 1] as int],
        p3: points[indices[3 * k + 2] as int],
    }
}

/// The vertex colours of triangle `k` of a mesh.
pub open spec fn mesh_colours(indices: Seq<usize>, colours: Seq<Colour>, k: int) -> [Colour; 3] {
    [
        colours[indices[3 * k] as int],
        colours[indices[3 * k + 1] as int],
        colours[indices[3 * k + 2] as int],
    ]
}

/// The word of pixel `(x, y)` after drawing one mesh triangle over `old`:
/// filled with interpolated colours if it faces the viewer, else untouched.
pub open spec fn culled_fill(t: Triangle, cs: [Colour; 3], x: int, y: int, old: u32) -> u32 {
    if front_facing(t) {
        filled(t, Some(cs), false, x, y, old)
    } else {
        old
    }
}

/// The word of pixel `(x, y)` after drawing the first `k` triangles of a mesh
/// in order over `old`.
pub open spec fn rendered(
    indices: Seq<usize>,
    points: Seq<Point>,
    colours: Seq<Colour>,
    k: nat,
    x: int,
    y: int,
    old: u32,
) -> u32
    decreases k,
{
    if k == 0 {
        old
    } else {
        culled_fill(
            mesh_triangle(indices, points, k - 1),
            mesh_colours(indices, colours, k - 1),
            x,
            y,
            rendered(indices, points, colours, (k - 1) as nat, x, y, old),
        )
    }
}

fn is_front_facing(t: &Triangle) -> (r: bool)
    ensures
        r == front_facing(*t),
{
    let ax = t.p1.x as i128;
    let ay = t.p1.y as i128;
    let bx = t.p2.x as i128;
    let by = t.p2.y as i128;
    let cx = t.p3.x as i128;
    let cy = t.p3.y as i128;
    proof {
        crate::triangle::lemma_mul_bound(bx - ax, cy - ay, 0x100000000, 0x100000000);
        crate::triangle::lemma_mul_bound(by - ay, cx - ax, 0x100000000, 0x100000000);
    }
    (bx - ax) * (cy - ay) - (by - ay) * (cx - ax) < 0
}

/// Culling: a triangle that faces the viewer is filled, and the same triangle
/// with its winding reversed faces away and leaves every pixel as it was.
pub proof fn lemma_reversed_winding_culled(t: Triangle, cs: [Colour; 3], x: int, y: int, old: u32)
    requires
        front_facing(t),
    ensures
        culled_fill(t, cs, x, y, old) == filled(t, Some(cs), false, x, y, old),
        !front_facing(Triangle { p1: t.p1, p2: t.p3, p3: t.p2 }),
        culled_fill(Triangle { p1: t.p1, p2: t.p3, p3: t.p2 }, cs, x, y, old) == old,
{
    let (ax, ay, bx, by, cx, cy) = (
        t.p1.x as int,
        t.p1.y as int,
        t.p2.x as int,
        t.p2.y as int,
        t.p3.x as int,
        t.p3.y as int,
    );
    assert((cx - ax) * (by - ay) - (cy - ay) * (bx - ax) == -((bx - ax) * (cy - ay) - (by - ay) * (
    cx - ax))) by (nonlinear_arith);
}

/// The word at column `x`, row `y` of a frame `w` pixels wide.
pub open spec fn frame_at(s: Seq<u32>, w: nat, x: int, y: int) -> u32 {
    s[y * w + x]
}

/// Whether `(x, y)` lies inside a `w` by `h` frame.
pub open spec fn in_frame(w: nat, h: nat, x: int, y: int) -> bool {
    0 <= x < w && 0 <= y < h
}

/// The pixels that Bresenham's walk visits from `(x, y)` with error term `err`
/// towards `(x1, y1)`, where `dx` and `ndy` are the absolute extents of the line.
pub open spec fn line_walk(x: int, y: int, err: int, x1: int, y1: int, dx: nat, ndy: nat) -> Seq<
    (int, int),
>
    decreases abs(x1 - x) + abs(y1 - y),
{
    let dy = -(ndy as int);
    let e2 = 2 * err;
    let sx: int = if x < x1 {
        1
    } else {
        -1
    };
    let sy: int = if y < y1 {
        1
    } else {
        -1
    };
    if x == x1 && y == y1 {
        seq![(x, y)]
    } else if e2 >= dy && x == x1 {
        seq![(x, y)]
    } else if e2 <= dx && y == y1 {
        seq![(x, y)]
    } else {
        let nx = if e2 >= dy {
            x + sx
        } else {
            x
        };
        let err1 = if e2 >= dy {
            err + dy
        } else {
            err
        };
        let ny = if e2 <= dx {
            y + sy
        } else {
            y
        };
        let err2 = if e2 <= dx {
            err1 + dx
        } else {
            err1
        };
        seq![(x, y)] + line_walk(nx, ny, err2, x1, y1, dx, ndy)
    }
}

/// The pixels of Bresenham's line from `(x0, y0)` to `(x1, y1)`.
pub open spec fn line_points(x0: int, y0: int, x1: int, y1: int) -> Seq<(int, int)> {
    let dx = abs(x1 - x0) as nat;
    let ndy = abs(y1 - y0) as nat;
    line_walk(x0, y0, dx - ndy, x1, y1, dx, ndy)
}

proof fn lemma_index_unique(x: int, y: int, px: int, py: int, w: int)
    requires
        0 <= x < w,
        0 <= px < w,
        py * w + px == y * w + x,
    ensures
        px == x,
        py == y,
{
    if py > y {
        assert((py - y) * w >= w) by (nonlinear_arith)
            requires
                py > y,
                w > 0,
        ;
        assert((py - y) * w == x - px) by (nonlinear_arith)
            requires
                py * w + px == y * w + x,
        ;
    } else if py < y {
        assert((y - py) * w >= w) by (nonlinear_arith)
            requires
                py < y,
                w > 0,
        ;
        assert((y - py) * w == px - x) by (nonlinear_arith)
            requires
                py * w + px == y * w + x,
        ;
    }
}

/// Writing one word changes that pixel and no other.
proof fn lemma_frame_update(s: Seq<u32>, w: nat, h: nat, x: int, y: int, v: u32)
    requires
        s.len() == w * h,
        in_frame(w, h, x, y),
    ensures
        forall|px: int, py: int|
            in_frame(w, h, px, py) ==> #[trigger] frame_at(s.update(y * w + x, v), w, px, py) == (
            if px == x && py == y {
                v
            } else {
                frame_at(s, w, px, py)
            }),
{
    lemma_index_in_frame(x, y, w as int, h as int);
    assert forall|px: int, py: int| in_frame(w, h, px, py) implies #[trigger] frame_at(
        s.update(y * w + x, v),
        w,
        px,
        py,
    ) == (if px == x && py == y {
        v
    } else {
        frame_at(s, w, px, py)
    }) by {
        lemma_index_in_frame(px, py, w as int, h as int);
        if py * w + px == y * w + x {
            lemma_index_unique(x, y, px, py, w as int);
        }
    }
}

proof fn lemma_index_in_frame(x: int, y: int, w: int, h: int)
    requires
        0 <= x < w,
        0 <= y < h,
    ensures
        0 <= y * w + x < w * h,
{
    assert(0 <= y * w + x < w * h) by (nonlinear_arith)
        requires
            0 <= x < w,
            0 <= y < h,
    ;
}

} // verus!
