//! Generated pictures with known damage.

use vstd::prelude::*;

use crate::pixels::RgbImage;

verus! {

/// What a generated picture does.
#[derive(Clone, Copy, Debug, PartialEq, Eq, Structural)]
pub enum TestPatternMode {
    /// Nothing.
    Static,
    /// A line grows every fourth frame.
    Typing,
    /// Bands move.
    Scroll,
    /// Everything moves.
    Motion,
}

/// A source of generated pictures.
#[derive(Clone, Copy, Debug, PartialEq, Eq, Structural)]
pub struct TestPatternCapture {
    /// Width in pixels.
    pub width: u32,
    /// Height in pixels.
    pub height: u32,
    /// Pictures so far.
    pub tick: u32,
    /// What they do.
    pub mode: TestPatternMode,
}

/// The least of a number and the largest that fits.
pub open spec fn at_most_u32(value: int) -> int {
    if value > u32::MAX {
        u32::MAX as int
    } else {
        value
    }
}

/// Red, green and blue of a pixel.
pub open spec fn pattern_pixel(mode: TestPatternMode, tick: u32, x: u32, y: u32) -> Seq<u8> {
    match mode {
        TestPatternMode::Static => seq![
            (x % 251) as u8,
            (y % 241) as u8,
            ((x / 8 + y / 8) % 239) as u8,
        ],
        TestPatternMode::Typing => if 64 <= y < 88 && 64 <= x < at_most_u32(
            64 + at_most_u32(tick / 4 * 24),
        ) {
            seq![235u8, 235, 225]
        } else {
            seq![24u8, 28, 34]
        },
        TestPatternMode::Scroll => {
            let shifted = (y + at_most_u32(tick * 12)) % 0x1_0000_0000;
            let band = shifted / 48 % 4;
            seq![
                (40 + band * 35) as u8,
                ((x / 8 + band * 17) % 255) as u8,
                (90 + band * 25) as u8,
            ]
        },
        TestPatternMode::Motion => seq![
            ((x + tick * 17) % 255) as u8,
            ((y + tick * 29) % 255) as u8,
            ((x / 8 + y / 8 + tick * 11) % 255) as u8,
        ],
    }
}

/// Red, green and blue of a pixel.
pub fn test_pattern_pixel(mode: TestPatternMode, tick: u32, x: u32, y: u32) -> (rgb: [u8; 3])
    ensures
        rgb@ == pattern_pixel(mode, tick, x, y),
{
    let rgb: [u8; 3] = match mode {
        TestPatternMode::Static => [
            (x % 251) as u8,
            (y % 241) as u8,
            ((x / 8 + y / 8) % 239) as u8,
        ],
        TestPatternMode::Typing => {
            let typed: u64 = tick as u64 / 4 * 24;
            let typed: u64 = if typed > 0xffff_ffff {
                0xffff_ffff
            } else {
                typed
            };
            let end: u64 = if 64 + typed > 0xffff_ffff {
                0xffff_ffff
            } else {
                64 + typed
            };
            if y >= 64 && y < 88 && x >= 64 && (x as u64) < end {
                [235, 235, 225]
            } else {
                [24, 28, 34]
            }
        },
        TestPatternMode::Scroll => {
            let moved: u64 = tick as u64 * 12;
            let moved: u64 = if moved > 0xffff_ffff {
                0xffff_ffff
            } else {
                moved
            };
            let shifted: u64 = (y as u64 + moved) % 0x1_0000_0000;
            let band: u64 = shifted / 48 % 4;
            [
                (40 + band * 35) as u8,
                ((x as u64 / 8 + band * 17) % 255) as u8,
                (90 + band * 25) as u8,
            ]
        },
        TestPatternMode::Motion => {
            let (wide_x, wide_y, wide_tick): (u64, u64, u64) = (x as u64, y as u64, tick as u64);
            [
                ((wide_x + wide_tick * 17) % 255) as u8,
                ((wide_y + wide_tick * 29) % 255) as u8,
                ((wide_x / 8 + wide_y / 8 + wide_tick * 11) % 255) as u8,
            ]
        },
    };
    assert(rgb@ =~= pattern_pixel(mode, tick, x, y));
    rgb
}

/// The first pixels of a row.
pub open spec fn pattern_row(mode: TestPatternMode, tick: u32, y: int, columns: int) -> Seq<u8>
    decreases columns,
{
    if columns <= 0 {
        Seq::empty()
    } else {
        pattern_row(mode, tick, y, columns - 1) + pattern_pixel(
            mode,
            tick,
            (columns - 1) as u32,
            y as u32,
        )
    }
}

/// The first rows of a picture.
pub open spec fn pattern_rows(mode: TestPatternMode, tick: u32, width: u32, rows: int) -> Seq<u8>
    decreases rows,
{
    if rows <= 0 {
        Seq::empty()
    } else {
        pattern_rows(mode, tick, width, rows - 1) + pattern_row(mode, tick, rows - 1, width as int)
    }
}

proof fn lemma_pattern_row_len(mode: TestPatternMode, tick: u32, y: int, columns: int)
    requires
        columns >= 0,
    ensures
        pattern_row(mode, tick, y, columns).len() == 3 * columns,
    decreases columns,
{
    if columns > 0 {
        lemma_pattern_row_len(mode, tick, y, columns - 1);
    }
}

proof fn lemma_pattern_rows_len(mode: TestPatternMode, tick: u32, width: u32, rows: int)
    requires
        rows >= 0,
    ensures
        pattern_rows(mode, tick, width, rows).len() == width * rows * 3,
    decreases rows,
{
    if rows > 0 {
        lemma_pattern_rows_len(mode, tick, width, rows - 1);
        lemma_pattern_row_len(mode, tick, rows - 1, width as int);
        assert(width * (rows - 1) * 3 + 3 * width == width * rows * 3) by (nonlinear_arith);
    } else {
        assert(width * 0 * 3 == 0) by (nonlinear_arith);
    }
}

impl TestPatternCapture {
    /// A source before its first picture.
    pub fn new(width: u32, height: u32, mode: TestPatternMode) -> (capture: Self)
        ensures
            capture == (TestPatternCapture { width, height, tick: 0, mode }),
    {
        TestPatternCapture { width, height, tick: 0, mode }
    }

    /// The number of the next picture.
    pub open spec fn next_tick(self) -> u32 {
        if self.tick == u32::MAX {
            0
        } else {
            (self.tick + 1) as u32
        }
    }

    /// The picture of a number.
    pub open spec fn picture(self, tick: u32) -> Seq<u8> {
        pattern_rows(self.mode, tick, self.width, self.height as int)
    }

    /// Whether the picture of a number counts as changed.
    pub open spec fn changes_at(self, tick: u32) -> bool {
        match self.mode {
            TestPatternMode::Static => tick == 1,
            TestPatternMode::Typing => tick == 1 || tick % 4 == 0,
            TestPatternMode::Scroll => true,
            TestPatternMode::Motion => true,
        }
    }

    /// Makes the next picture.
    pub fn next_rgb(&mut self) -> (image: RgbImage)
        requires
            old(self).width * old(self).height * 3 <= usize::MAX,
        ensures
            *final(self) == (TestPatternCapture { tick: old(self).next_tick(), ..*old(self) }),
            image.wf(),
            image.width == old(self).width,
            image.height == old(self).height,
            image.pixels@ == old(self).picture(old(self).next_tick()),
    {
        self.tick = self.tick.wrapping_add(1);
        let (mode, tick, width, height) = (self.mode, self.tick, self.width, self.height);
        let mut pixels: Vec<u8> = Vec::new();
        let mut y: u32 = 0;
        while y < height
            invariant
                y <= height,
                pixels@ == pattern_rows(mode, tick, width, y as int),
            decreases height - y,
        {
            let ghost before = pixels@;
            let mut x: u32 = 0;
            assert(before + pattern_row(mode, tick, y as int, 0) =~= before);
            while x < width
                invariant
                    x <= width,
                    pixels@ == before + pattern_row(mode, tick, y as int, x as int),
                decreases width - x,
            {
                let ghost done = pixels@;
                let rgb = test_pattern_pixel(mode, tick, x, y);
                pixels.push(rgb[0]);
                pixels.push(rgb[1]);
                pixels.push(rgb[2]);
                assert(pixels@ =~= done + rgb@);
                assert(pixels@ =~= before + pattern_row(mode, tick, y as int, x + 1));
                x += 1;
            }
            y += 1;
        }
        proof {
            lemma_pattern_rows_len(mode, tick, width, height as int);
        }
        RgbImage { width, height, pixels }
    }

    /// Whether the last picture counts as changed.
    pub fn frame_changed(&self) -> (changed: bool)
        ensures
            changed == self.changes_at(self.tick),
    {
        match self.mode {
            TestPatternMode::Static => self.tick == 1,
            TestPatternMode::Typing => self.tick == 1 || self.tick % 4 == 0,
            TestPatternMode::Scroll => true,
            TestPatternMode::Motion => true,
        }
    }
}

/// Whether the cursor shows at a position of the sequence: twenty of every thirty.
pub fn test_pattern_cursor_visible(sequence: u64) -> (visible: bool)
    ensures
        visible == (sequence % 30 < 20),
{
    sequence % 30 < 20
}

/// A picture that does not count as changed is the one before it.
pub proof fn unchanged_patterns_are_identical(capture: TestPatternCapture)
    requires
        capture.tick < u32::MAX,
        !capture.changes_at(capture.next_tick()),
    ensures
        capture.picture(capture.next_tick()) == capture.picture(capture.tick),
{
    lemma_same_rows(
        capture.mode,
        capture.tick,
        capture.next_tick(),
        capture.width,
        capture.height as int,
    );
}

proof fn lemma_same_rows(mode: TestPatternMode, a: u32, b: u32, width: u32, rows: int)
    requires
        forall|x: u32, y: u32| #[trigger]
            pattern_pixel(mode, a, x, y) == pattern_pixel(mode, b, x, y),
    ensures
        pattern_rows(mode, a, width, rows) == pattern_rows(mode, b, width, rows),
    decreases rows,
{
    if rows > 0 {
        lemma_same_rows(mode, a, b, width, rows - 1);
        lemma_same_row(mode, a, b, rows - 1, width as int);
    }
}

proof fn lemma_same_row(mode: TestPatternMode, a: u32, b: u32, y: int, columns: int)
    requires
        forall|x: u32, y: u32| #[trigger]
            pattern_pixel(mode, a, x, y) == pattern_pixel(mode, b, x, y),
    ensures
        pattern_row(mode, a, y, columns) == pattern_row(mode, b, y, columns),
    decreases columns,
{
    if columns > 0 {
        lemma_same_row(mode, a, b, y, columns - 1);
    }
}

} // verus!
