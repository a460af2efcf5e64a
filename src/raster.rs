use vstd::prelude::*;

verus! {

/// A row-major raster of `width * height` cells: cell `(x, y)` sits at
/// index `y * width + x` and holds what `pixel` gives for `(x, y)`. Empty
/// when either side is 0.
pub fn fill_raster<F: Fn(u32, u32) -> u32>(width: u32, height: u32, pixel: F) -> (r: Vec<u32>)
    requires
        width as nat * height as nat <= usize::MAX as nat,
        forall|x: u32, y: u32| x < width && y < height ==> #[trigger] pixel.requires((x, y)),
    ensures
        r@.len() == width as nat * height as nat,
        forall|x: u32, y: u32|
            x < width && y < height ==> #[trigger] pixel.ensures(
                (x, y),
                r@[y as int * width as int + x as int],
            ),
{
    let mut cells: Vec<u32> = Vec::new();
    let mut y: u32 = 0;
    while y < height
        invariant
            y <= height,
            width as nat * height as nat <= usize::MAX as nat,
            forall|x: u32, y: u32| x < width && y < height ==> #[trigger] pixel.requires((x, y)),
            cells@.len() == y as int * width as int,
            forall|px: u32, py: u32|
                px < width && py < y ==> #[trigger] pixel.ensures(
                    (px, py),
                    cells@[py as int * width as int + px as int],
                ),
        decreases height - y,
    {
        let mut x: u32 = 0;
        while x < width
            invariant
                x <= width,
                y < height,
                width as nat * height as nat <= usize::MAX as nat,
                forall|x: u32, y: u32| x < width && y < height ==> #[trigger] pixel.requires((x, y)),
                cells@.len() == y as int * width as int + x as int,
                forall|px: u32, py: u32|
                    (px < width && py < y) || (px < x && py == y) ==> #[trigger] pixel.ensures(
                        (px, py),
                        cells@[py as int * width as int + px as int],
                    ),
            decreases width - x,
        {
            assert(y as int * width as int + (x as int) < width as int * height as int)
                by (nonlinear_arith)
                requires
                    x < width,
                    y < height,
            ;
            let v = pixel(x, y);
            let ghost before = cells@;
            cells.push(v);
            assert forall|px: u32, py: u32|
                (px < width && py < y) || (px < x + 1 && py == y) implies #[trigger] pixel.ensures(
                (px, py),
                cells@[py as int * width as int + px as int],
            ) by {
                if py < y {
                    assert(py as int * width as int + (px as int) < y as int * width as int)
                        by (nonlinear_arith)
                        requires
                            px < width,
                            py < y,
                    ;
                    assert(cells@[py as int * width as int + px as int] == before[py as int
                        * width as int + px as int]);
                } else if px < x {
                    assert(cells@[py as int * width as int + px as int] == before[py as int
                        * width as int + px as int]);
                }
            }
            x = x + 1;
        }
        assert((y as int + 1) * width as int == y as int * width as int + width as int)
            by (nonlinear_arith);
        y = y + 1;
    }
    assert(height as int * width as int == width as nat * height as nat) by (nonlinear_arith);
    cells
}

} // verus!
