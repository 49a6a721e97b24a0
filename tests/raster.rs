use eclat::colour::{blend, Colour};
use eclat::mesh::{Mesh, MeshError};
use eclat::triangle::{Point, Triangle, SUBPIXEL};
use eclat::PixelBuffer;
use glam::Vec3;

fn fixed(v: f32) -> i32 {
    (v * SUBPIXEL as f32).round() as i32
}

fn pt(x: f32, y: f32) -> Point {
    Point::new(fixed(x), fixed(y))
}

fn word(c: Colour) -> u32 {
    u32::from(c)
}

#[test]
fn colour_packs_as_rgb_word() {
    assert_eq!(u32::from(Colour::new(0x12, 0x34, 0x56)), 0x0012_3456);
    assert_eq!(u32::from(Colour::white()), 0x00FF_FFFF);
    assert_eq!(u32::from(Colour::red()), 0x00FF_0000);
    assert_eq!(u32::from(Colour::green()), 0x0000_FF00);
    assert_eq!(u32::from(Colour::blue()), 0x0000_00FF);
    assert_eq!(u32::from(Colour::black()), 0);
}

#[test]
fn colour_unpacks_ignoring_top_byte() {
    assert_eq!(Colour::from(0xFF12_3456u32), Colour::new(0x12, 0x34, 0x56));
    assert_eq!(Colour::from_packed(0x00AB_CDEF), Colour::new(0xAB, 0xCD, 0xEF));
}

#[test]
fn colour_round_trip_sampled() {
    let mut vals: Vec<u8> = (0..=255u32).step_by(3).map(|v| v as u8).collect();
    vals.push(255);
    for &r in &vals {
        for &g in &vals {
            for &b in &vals {
                let c = Colour::new(r, g, b);
                assert_eq!(Colour::from(u32::from(c)), c);
            }
        }
    }
}

#[test]
fn blend_identity_and_zero() {
    let c = Colour::new(200, 17, 255);
    assert_eq!(blend(1, 1, c), c);
    assert_eq!(blend(7, 7, c), c);
    assert_eq!(blend(0, 1, c), Colour::black());
    assert_eq!(blend(0, 9, c), Colour::black());
}

#[test]
fn blend_rounds_to_nearest() {
    assert_eq!(blend(1, 2, Colour::new(255, 100, 3)), Colour::new(128, 50, 2));
    assert_eq!(blend(1, 3, Colour::new(10, 1, 2)), Colour::new(3, 0, 1));
}

#[test]
fn blend_is_monotonic() {
    let c = Colour::new(255, 128, 7);
    let mut prev = blend(0, 10, c);
    for n in 1..=10 {
        let next = blend(n, 10, c);
        assert!(next.r >= prev.r && next.g >= prev.g && next.b >= prev.b);
        prev = next;
    }
}

#[test]
fn barycentric_inside_point() {
    let t = Triangle::new(pt(0., 0.), pt(10., 0.), pt(0., 10.));
    let b = t.barycentric(fixed(2.) as i64, fixed(3.) as i64).unwrap();
    assert!(b.total > 0);
    assert_eq!(b.w1 + b.w2 + b.w3, b.total);
    for w in [b.w1, b.w2, b.w3] {
        assert!(w > 0 && w < b.total);
    }
    // (2, 3) = 0.5 * (0, 0) + 0.2 * (10, 0) + 0.3 * (0, 10)
    assert_eq!(b.w1 * 10, b.total * 5);
    assert_eq!(b.w2 * 10, b.total * 2);
    assert_eq!(b.w3 * 10, b.total * 3);
}

#[test]
fn barycentric_at_vertices() {
    let t = Triangle::new(pt(1.5, 2.25), pt(20.0, 4.0), pt(7.75, 30.5));
    let at = |p: Point| t.barycentric(p.x as i64, p.y as i64).unwrap();
    let b = at(t.p1);
    assert_eq!((b.w1, b.w2, b.w3), (b.total, 0, 0));
    let b = at(t.p2);
    assert_eq!((b.w1, b.w2, b.w3), (0, b.total, 0));
    let b = at(t.p3);
    assert_eq!((b.w1, b.w2, b.w3), (0, 0, b.total));
}

#[test]
fn barycentric_of_degenerate_triangle_is_none() {
    let t = Triangle::new(pt(0., 0.), pt(5., 5.), pt(10., 10.));
    assert!(t.is_degenerate());
    assert!(t.barycentric(0, 0).is_none());
}

#[test]
fn aabb_is_tight_pixel_box() {
    let t = Triangle::new(pt(10.2, 5.8), pt(20.1, 30.9), pt(15.0, 10.0));
    let bb = t.aabb();
    assert_eq!((bb.top_left.x, bb.top_left.y), (10, 5));
    assert_eq!((bb.bottom_right.x, bb.bottom_right.y), (21, 31));
}

#[test]
fn aabb_of_negative_coordinates() {
    let t = Triangle::new(pt(-3.5, -0.25), pt(2.0, 4.0), pt(0.0, 1.0));
    let bb = t.aabb();
    assert_eq!((bb.top_left.x, bb.top_left.y), (-4, -1));
    assert_eq!((bb.bottom_right.x, bb.bottom_right.y), (2, 4));
}

#[test]
fn clear_fills_every_pixel() {
    let mut buf = vec![7u32; 12];
    {
        let mut pb = PixelBuffer::new(&mut buf[..], 4, 3);
        pb.clear(Colour::new(1, 2, 3));
    }
    assert!(buf.iter().all(|&w| w == 0x0001_0203));
}

#[test]
fn set_pixel_in_and_out_of_bounds() {
    let mut buf = vec![0u32; 12];
    {
        let mut pb = PixelBuffer::new(&mut buf[..], 4, 3);
        pb.set_pixel(3, 2, Colour::white());
        pb.set_pixel(4, 0, Colour::white());
        pb.set_pixel(0, 3, Colour::white());
        pb.set_pixel(usize::MAX, usize::MAX, Colour::white());
    }
    let lit: Vec<usize> = (0..12).filter(|&i| buf[i] != 0).collect();
    assert_eq!(lit, vec![2 * 4 + 3]);
}

fn lit_pixels(buf: &[u32], w: usize) -> Vec<(usize, usize)> {
    (0..buf.len()).filter(|&i| buf[i] != 0).map(|i| (i % w, i / w)).collect()
}

#[test]
fn line_horizontal() {
    let mut buf = vec![0u32; 10 * 10];
    {
        let mut pb = PixelBuffer::new(&mut buf[..], 10, 10);
        pb.line(0, 0, 5, 0, Colour::white());
    }
    let expected: Vec<(usize, usize)> = (0..=5).map(|x| (x, 0)).collect();
    assert_eq!(lit_pixels(&buf, 10), expected);
}

#[test]
fn line_diagonal_reversed() {
    let mut buf = vec![0u32; 10 * 10];
    {
        let mut pb = PixelBuffer::new(&mut buf[..], 10, 10);
        pb.line(4, 4, 0, 0, Colour::red());
    }
    let mut got = lit_pixels(&buf, 10);
    got.sort();
    assert_eq!(got, vec![(0, 0), (1, 1), (2, 2), (3, 3), (4, 4)]);
    assert_eq!(buf[0], 0x00FF_0000);
}

#[test]
fn line_steep() {
    let mut buf = vec![0u32; 10 * 10];
    {
        let mut pb = PixelBuffer::new(&mut buf[..], 10, 10);
        pb.line(1, 0, 2, 4, Colour::green());
    }
    let mut got = lit_pixels(&buf, 10);
    got.sort_by_key(|&(x, y)| (y, x));
    assert_eq!(got.len(), 5);
    assert_eq!(got[0], (1, 0));
    assert_eq!(got[4], (2, 4));
    for (i, &(_, y)) in got.iter().enumerate() {
        assert_eq!(y, i);
    }
}

#[test]
fn line_leaving_frame_is_clipped() {
    let mut buf = vec![0u32; 4 * 4];
    {
        let mut pb = PixelBuffer::new(&mut buf[..], 4, 4);
        pb.line(0, 1, 9, 1, Colour::white());
    }
    assert_eq!(lit_pixels(&buf, 4), vec![(0, 1), (1, 1), (2, 1), (3, 1)]);
}

#[test]
fn triangle_debug_colours_at_vertices() {
    let mut buf = vec![0u32; 16 * 16];
    {
        let mut pb = PixelBuffer::new(&mut buf[..], 16, 16);
        pb.triangle(Triangle::new(pt(0., 0.), pt(10., 0.), pt(0., 10.)), None);
    }
    assert_eq!(buf[0], word(Colour::new(255, 0, 0)));
    assert_eq!(buf[10], word(Colour::new(0, 255, 0)));
    assert_eq!(buf[10 * 16], word(Colour::new(0, 0, 255)));
    // (5, 5) has weights (0, 1/2, 1/2)
    assert_eq!(buf[5 * 16 + 5], word(Colour::new(0, 127, 127)));
}

#[test]
fn triangle_interpolates_vertex_colours() {
    let mut buf = vec![0u32; 16 * 16];
    {
        let mut pb = PixelBuffer::new(&mut buf[..], 16, 16);
        let cs = [Colour::red(), Colour::green(), Colour::blue()];
        pb.triangle(Triangle::new(pt(0., 0.), pt(10., 0.), pt(0., 10.)), Some(cs));
    }
    assert_eq!(buf[0], word(Colour::red()));
    assert_eq!(buf[5], word(Colour::new(128, 128, 0)));
    assert_eq!(buf[2 * 16 + 3], word(Colour::new(128, 77, 51)));
}

#[test]
fn triangle_edge_fades_into_background() {
    let mut buf = vec![0u32; 520 * 520];
    {
        let mut pb = PixelBuffer::new(&mut buf[..], 520, 520);
        pb.triangle(Triangle::new(pt(0., 0.), pt(1000., 0.), pt(0., 1000.)), None);
    }
    // weights (-0.001, 0.5, 0.501): shade (0, 127, 127) at opacity 0.9
    assert_eq!(buf[501 * 520 + 500], word(Colour::new(0, 114, 114)));
    // weights (-0.015, 0.5, 0.515): beyond the falloff, untouched
    assert_eq!(buf[515 * 520 + 500], 0);
}

#[test]
fn degenerate_triangle_draws_nothing() {
    let mut buf = vec![0u32; 16 * 16];
    {
        let mut pb = PixelBuffer::new(&mut buf[..], 16, 16);
        pb.triangle(Triangle::new(pt(0., 0.), pt(5., 5.), pt(10., 10.)), None);
    }
    assert!(buf.iter().all(|&w| w == 0));
}

fn single_triangle_mesh(indices: Vec<usize>) -> Mesh {
    let vertices = vec![Vec3::new(0., 0., 0.), Vec3::new(0., 1., 0.), Vec3::new(1., 0., 0.)];
    let colours = vec![Colour::red(), Colour::green(), Colour::blue()];
    Mesh::new(vertices, indices, colours).unwrap()
}

fn projected() -> Vec<Point> {
    vec![pt(0., 0.), pt(0., 10.), pt(10., 0.)]
}

#[test]
fn mesh_front_facing_triangle_covers_exactly() {
    let mesh = single_triangle_mesh(vec![0, 1, 2]);
    let mut buf = vec![0u32; 20 * 20];
    {
        let mut pb = PixelBuffer::new(&mut buf[..], 20, 20);
        pb.clear(Colour::black());
        assert_eq!(pb.mesh(&mesh, &projected()), Ok(()));
    }
    for y in 0..20 {
        for x in 0..20 {
            let lit = buf[y * 20 + x] != 0;
            assert_eq!(lit, x + y <= 10, "pixel ({x}, {y})");
        }
    }
}

#[test]
fn mesh_back_facing_triangle_is_culled() {
    let front = single_triangle_mesh(vec![0, 1, 2]);
    let back = single_triangle_mesh(vec![0, 2, 1]);
    let mut buf = vec![0u32; 20 * 20];
    {
        let mut pb = PixelBuffer::new(&mut buf[..], 20, 20);
        assert_eq!(pb.mesh(&back, &projected()), Ok(()));
    }
    assert!(buf.iter().all(|&w| w == 0));
    {
        let mut pb = PixelBuffer::new(&mut buf[..], 20, 20);
        assert_eq!(pb.mesh(&front, &projected()), Ok(()));
    }
    assert!(buf.iter().any(|&w| w != 0));
}

#[test]
fn mesh_rejects_projection_of_wrong_length() {
    let mesh = single_triangle_mesh(vec![0, 1, 2]);
    let mut buf = vec![5u32; 4];
    {
        let mut pb = PixelBuffer::new(&mut buf[..], 2, 2);
        let r = pb.mesh(&mesh, &vec![pt(0., 0.)]);
        assert_eq!(r, Err(MeshError::ProjectedCountMismatch));
    }
    assert_eq!(buf, vec![5u32; 4]);
}

#[test]
fn mesh_construction_errors() {
    let v = || vec![Vec3::ZERO, Vec3::X, Vec3::Y];
    let c = || vec![Colour::red(), Colour::green(), Colour::blue()];
    assert_eq!(
        Mesh::new(v(), vec![0, 1, 2], vec![Colour::red()]).err(),
        Some(MeshError::ColourCountMismatch)
    );
    assert_eq!(Mesh::new(v(), vec![0, 1], c()).err(), Some(MeshError::IndexCountNotTriples));
    assert_eq!(
        Mesh::new(v(), vec![0, 1, 2, 2, 3, 9], c()).err(),
        Some(MeshError::IndexOutOfRange(4))
    );
    let m = Mesh::new(v(), vec![0, 1, 2, 2, 1, 0], c()).unwrap();
    assert_eq!(m.indices(), &vec![0, 1, 2, 2, 1, 0]);
    assert_eq!(m.vertices().len(), 3);
    assert_eq!(m.colours().len(), 3);
}

#[test]
fn rgb_bytes_unpack_each_pixel() {
    let mut buf = vec![0x00FF_8001u32, 0xAB01_0203];
    let pb = PixelBuffer::new(&mut buf[..], 2, 1);
    assert_eq!(pb.rgb_bytes(), vec![0xFF, 0x80, 0x01, 1, 2, 3]);
    assert_eq!((pb.width(), pb.height()), (2, 1));
}
