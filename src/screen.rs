use vstd::prelude::*;
use crate::gamestate::GameState;
use crate::objects::Rgba;
use crate::raycast::{cast_column, column_slice};
use crate::{HEIGHT, WIDTH};

verus! {

/// Length of the pixel buffer: four bytes per pixel.
pub open spec fn buffer_len() -> int {
    WIDTH * HEIGHT * 4
}

/// Byte of channel `ch` of the pixel at column `col`, row `row` in the
/// row-major buffer.
pub open spec fn pixel_index(col: int, row: int, ch: int) -> int {
    row * (WIDTH * 4) + col * 4 + ch
}

pub open spec fn pixel_in_range(col: int, row: int, ch: int) -> bool {
    0 <= col < WIDTH && 0 <= row < HEIGHT && 0 <= ch < 4
}

/// Channel `ch` of `c`, in the order red, green, blue, alpha.
pub open spec fn channel(c: Rgba, ch: int) -> u8 {
    if ch == 0 {
        c.r
    } else if ch == 1 {
        c.g
    } else if ch == 2 {
        c.b
    } else {
        c.a
    }
}

/// The byte a rendered frame of world `s` holds for channel `ch` of pixel
/// `(col, row)`: the shaded wall color inside the column's slice, zero
/// elsewhere.
pub open spec fn frame_byte(s: GameState, col: int, row: int, ch: int) -> u8 {
    match column_slice(s, col) {
        Some(sl) => if sl.start <= row < sl.end {
            channel(sl.color, ch)
        } else {
            0
        },
        None => 0,
    }
}

/// A row-major RGBA pixel buffer of `WIDTH * HEIGHT` pixels.
pub struct Screen {
    pub screen: Vec<u8>,
}

proof fn lemma_pixel_index(col: int, row: int, ch: int, col2: int, row2: int, ch2: int)
    requires
        pixel_in_range(col, row, ch),
        pixel_in_range(col2, row2, ch2),
    ensures
        0 <= pixel_index(col, row, ch) < buffer_len(),
        pixel_index(col, row, ch) == pixel_index(col2, row2, ch2) <==> (col == col2 && row == row2 && ch
            == ch2),
{
    assert(WIDTH == 1200 && HEIGHT == 900);
    assert(pixel_index(col, row, ch) == row * 4800 + col * 4 + ch);
    assert(pixel_index(col2, row2, ch2) == row2 * 4800 + col2 * 4 + ch2);
}

impl Screen {
    /// A buffer with every byte zero.
    pub fn new() -> (s: Self)
        ensures
            s.screen@.len() == buffer_len(),
            forall|i: int| 0 <= i < buffer_len() ==> s.screen@[i] == 0,
    {
        let n: usize = (WIDTH * HEIGHT * 4) as usize;
        let mut screen: Vec<u8> = Vec::with_capacity(n);
        let mut i: usize = 0;
        while i < n
            invariant
                n == buffer_len(),
                i <= n,
                screen@.len() == i,
                forall|j: int| 0 <= j < i ==> screen@[j] == 0,
            decreases n - i,
        {
            screen.push(0);
            i += 1;
        }
        Self { screen }
    }

    /// Paints rows `[start, end)` of column `x` in `color`; every other byte
    /// is left as it was.
    pub fn draw_verline(&mut self, x: i32, start: i32, end: i32, color: Rgba)
        requires
            old(self).screen@.len() == buffer_len(),
            0 <= x < WIDTH,
            0 <= start,
            end <= HEIGHT,
        ensures
            final(self).screen@.len() == buffer_len(),
            forall|col: int, row: int, ch: int|
                pixel_in_range(col, row, ch) ==> #[trigger] final(self).screen@[pixel_index(col, row, ch)]
                    == if col == x && start <= row < end {
                    channel(color, ch)
                } else {
                    old(self).screen@[pixel_index(col, row, ch)]
                },
    {
        let mut y: i32 = start;
        while y < end
            invariant
                self.screen@.len() == buffer_len(),
                0 <= x < WIDTH,
                0 <= start <= y,
                y <= end || y == start,
                end <= HEIGHT,
                forall|col: int, row: int, ch: int|
                    pixel_in_range(col, row, ch) ==> #[trigger] self.screen@[pixel_index(col, row, ch)]
                        == if col == x && start <= row < y {
                        channel(color, ch)
                    } else {
                        old(self).screen@[pixel_index(col, row, ch)]
                    },
            decreases end - y,
        {
            assert(0 <= y < 900 && WIDTH == 1200);
            assert(y * 4800 <= 899 * 4800) by (nonlinear_arith)
                requires 0 <= y < 900;
            let base: usize = (y as usize) * (WIDTH as usize * 4) + (x as usize) * 4;
            proof {
                assert forall|col: int, row: int, ch: int| pixel_in_range(col, row, ch) implies
                    (pixel_index(col, row, ch) == base + ch <==> (col == x && row == y)) && 0 <= base + ch < buffer_len() by {
                    lemma_pixel_index(col, row, ch, x as int, y as int, ch);
                }
            }
            self.screen.set(base, color.r);
            self.screen.set(base + 1, color.g);
            self.screen.set(base + 2, color.b);
            self.screen.set(base + 3, color.a);
            y += 1;
        }
    }

    /// Renders one frame of world `state`: the buffer is cleared, then each
    /// column shows the wall slice its ray strikes.
    pub fn render(&mut self, state: &GameState)
        requires
            state.wf(),
        ensures
            final(self).screen@.len() == buffer_len(),
            forall|col: int, row: int, ch: int|
                pixel_in_range(col, row, ch) ==> #[trigger] final(self).screen@[pixel_index(col, row, ch)]
                    == frame_byte(*state, col, row, ch),
    {
        let fresh = Screen::new();
        self.screen = fresh.screen;
        proof {
            assert forall|col: int, row: int, ch: int| pixel_in_range(col, row, ch) implies
                0 <= pixel_index(col, row, ch) < buffer_len() by {
                lemma_pixel_index(col, row, ch, col, row, ch);
            }
        }
        let mut x: u32 = 0;
        while x < WIDTH
            invariant
                state.wf(),
                x <= WIDTH,
                self.screen@.len() == buffer_len(),
                forall|col: int, row: int, ch: int|
                    pixel_in_range(col, row, ch) ==> #[trigger] self.screen@[pixel_index(col, row, ch)]
                        == if col < x {
                        frame_byte(*state, col, row, ch)
                    } else {
                        0
                    },
            decreases WIDTH - x,
        {
            match cast_column(state, x) {
                Some(sl) => {
                    self.draw_verline(x as i32, sl.start, sl.end, sl.color);
                },
                None => {},
            }
            x += 1;
        }
    }
}

} // verus!
