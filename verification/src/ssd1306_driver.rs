//! The frame buffer of the SSD1306 dot display: drawing pixels and cutting
//! the buffer into the chunks that a refresh sends over I2C.
use vstd::prelude::*;

verus! {

/// Bytes in a frame buffer: one byte per eight pixels of a column, plus one.
pub const FRAME_BUFFER_LEN: usize = 1025;
/// Chunks that a refresh sends.
pub const REFRESH_CHUNKS: usize = 64;
/// Bytes in one refresh chunk: the data marker and sixteen bytes of the buffer.
pub const CHUNK_LEN: usize = 17;

/// The I2C device shows unusual behaviour.
#[derive(Debug, PartialEq, Eq, Structural)]
pub struct Ssd1306DriverError;

impl Ssd1306DriverError {
    /// The error's message.
    pub fn message(&self) -> (m: &'static str)
        ensures
            m@ == "I2C Device shows unusual behaviour"@,
    {
        "I2C Device shows unusual behaviour"
    }
}

/// A display's size and the bytes of its pixels.
pub struct FrameBuffer {
    width: i32,
    height: i32,
    frame_buffer: [u8; 1025],
}

/// The byte that holds pixel `(x, y)` on a display `width` pixels wide: bytes
/// run along a row of eight-pixel pages.
pub open spec fn pixel_byte(width: int, x: int, y: int) -> int {
    x + (y / 8) * width
}

/// The mask of pixel row `y` within its byte.
pub open spec fn pixel_mask(y: int) -> u8 {
    1u8 << ((y % 8) as u8)
}

/// The pixel `(x, y)` is set in `bytes`.
pub open spec fn pixel_is_on(bytes: Seq<u8>, width: int, x: int, y: int) -> bool {
    bytes[pixel_byte(width, x, y)] & pixel_mask(y) != 0
}

/// The `chunk`-th packet of a refresh: the data marker `0x40`, then byte
/// `16 * chunk + 16` and then bytes `16 * chunk + 1` to `16 * chunk + 15`.
pub open spec fn refresh_chunk(bytes: Seq<u8>, chunk: int) -> Seq<u8> {
    Seq::new(
        CHUNK_LEN as nat,
        |j: int|
            if j == 0 {
                0x40u8
            } else if j == 1 {
                bytes[16 * chunk + 16]
            } else {
                bytes[16 * chunk + j - 1]
            },
    )
}

impl FrameBuffer {
    /// The pixel bytes.
    pub closed spec fn bytes(&self) -> Seq<u8> {
        self.frame_buffer@
    }

    /// A frame buffer always holds `FRAME_BUFFER_LEN` bytes.
    pub proof fn lemma_bytes_len(&self)
        ensures
            self.bytes().len() == FRAME_BUFFER_LEN,
    {
    }

    /// The display's width.
    pub closed spec fn spec_width(&self) -> int {
        self.width as int
    }

    /// The display's height.
    pub closed spec fn spec_height(&self) -> int {
        self.height as int
    }

    /// A blank frame buffer for a display of `width` by `height` pixels.
    pub fn new(width: i32, height: i32) -> (fb: FrameBuffer)
        ensures
            fb.spec_width() == width,
            fb.spec_height() == height,
            fb.bytes() == Seq::new(FRAME_BUFFER_LEN as nat, |i: int| 0u8),
    {
        let fb = FrameBuffer { width, height, frame_buffer: [0; 1025] };
        proof {
            assert(fb.bytes() =~= Seq::new(FRAME_BUFFER_LEN as nat, |i: int| 0u8));
        }
        fb
    }

    /// The display's width.
    pub fn width(&self) -> (w: i32)
        ensures
            w == self.spec_width(),
    {
        self.width
    }

    /// The display's height.
    pub fn height(&self) -> (h: i32)
        ensures
            h == self.spec_height(),
    {
        self.height
    }

    /// Sets pixel `(x, y)`; a pixel outside the display is ignored. The pixel
    /// is set whatever `_on` says.
    pub fn draw_pixel(&mut self, x: i32, y: i32, _on: bool)
        requires
            0 <= x < old(self).spec_width() && 0 <= y < old(self).spec_height() ==> pixel_byte(
                old(self).spec_width(),
                x as int,
                y as int,
            ) < FRAME_BUFFER_LEN,
        ensures
            final(self).spec_width() == old(self).spec_width(),
            final(self).spec_height() == old(self).spec_height(),
            final(self).bytes() == if 0 <= x < old(self).spec_width() && 0 <= y < old(
                self,
            ).spec_height() {
                let i = pixel_byte(old(self).spec_width(), x as int, y as int);
                old(self).bytes().update(i, old(self).bytes()[i] | pixel_mask(y as int))
            } else {
                old(self).bytes()
            },
    {
        if (x < 0) || (x >= self.width) || (y < 0) || (y >= self.height) {
        } else {
            proof {
                assert((y / 8) * self.width >= 0) by (nonlinear_arith)
                    requires
                        y >= 0,
                        self.width > 0,
                ;
            }
            let i = (x + (y / 8) * self.width) as usize;
            let shift = (y % 8) as u8;
            self.frame_buffer[i] = self.frame_buffer[i] | (1u8 << shift);
            proof {
                assert(self.bytes() =~= old(self).bytes().update(i as int, old(self).bytes()[i as int] | pixel_mask(y as int)));
            }
        }
    }

    /// Does nothing: the frame buffer is not printed.
    pub fn print_fb(&mut self)
        ensures
            *final(self) == *old(self),
    {
    }

    /// The packets that a refresh sends after its header, in order (see `refresh_chunk`).
    pub fn refresh_packets(&self) -> (packets: Vec<[u8; 17]>)
        ensures
            packets.len() == REFRESH_CHUNKS,
            forall|c: int| 0 <= c < REFRESH_CHUNKS ==> #[trigger] packets@[c]@ == refresh_chunk(self.bytes(), c),
    {
        let mut packets: Vec<[u8; 17]> = Vec::new();
        let mut pixels: [u8; 17] = [0; 17];
        pixels[0] = 0x40;
        let mut q: usize = 0;
        while q < 1024
            invariant
                q == 16 * packets.len(),
                q <= 1024,
                pixels[0] == 0x40u8,
                forall|c: int| 0 <= c < packets.len() ==> #[trigger] packets@[c]@ == refresh_chunk(self.bytes(), c),
            decreases 1024 - q,
        {
            let ghost c = packets.len() as int;
            for w in 0..16
                invariant
                    q == 16 * c + w,
                    q + 16 - w <= 1024,
                    pixels[0] == 0x40u8,
                    forall|j: int| 1 <= j <= w && j < 16 ==> #[trigger] pixels@[j + 1] == self.bytes()[16 * c + j],
                    w == 16 ==> pixels@[1] == self.bytes()[16 * c + 16],
            {
                q += 1;
                pixels[(q % 16) + 1] = self.frame_buffer[q];
            }
            proof {
                assert forall|j: int| 2 <= j < 17 implies pixels@[j] == refresh_chunk(self.bytes(), c)[j] by {
                    assert(pixels@[(j - 1) + 1] == self.bytes()[16 * c + (j - 1)]);
                }
                assert(pixels@ =~= refresh_chunk(self.bytes(), c));
            }
            packets.push(pixels);
        }
        packets
    }
}

/// The mask of pixel row `y` is the single bit `y % 8`: 1, 2, 4, ..., 128 for
/// the rows of a page from top to bottom, so distinct rows of a page have
/// distinct masks.
pub proof fn lemma_pixel_mask_is_row_bit(y: int, z: int)
    requires
        0 <= y,
        0 <= z,
    ensures
        pixel_mask(y) == seq![1u8, 2u8, 4u8, 8u8, 16u8, 32u8, 64u8, 128u8][y % 8],
        y % 8 != z % 8 ==> pixel_mask(y) != pixel_mask(z),
{
    lemma_row_bit(y);
    lemma_row_bit(z);
}

proof fn lemma_row_bit(y: int)
    requires
        0 <= y,
    ensures
        pixel_mask(y) == seq![1u8, 2u8, 4u8, 8u8, 16u8, 32u8, 64u8, 128u8][y % 8],
{
    let r = y % 8;
    let s = r as u8;
    assert(0 <= r < 8);
    assert(s < 8 ==> (1u8 << s) == (if s == 0 { 1u8 } else if s == 1 { 2u8 } else if s == 2 { 4u8 } else if s == 3 { 8u8 } else if s == 4 { 16u8 } else if s == 5 { 32u8 } else if s == 6 { 64u8 } else { 128u8 })) by (bit_vector);
}

/// Drawing pixel row `y` into a byte sets bit `y % 8` of it and leaves its
/// other seven bits as they were.
pub proof fn lemma_draw_sets_only_row_bit(old: u8, y: int)
    requires
        0 <= y,
    ensures
        forall|b: u8|
            b < 8 ==> #[trigger] ((old | pixel_mask(y)) >> b) & 1u8 == if b as int == y % 8 {
                1u8
            } else {
                (old >> b) & 1u8
            },
{
    let s = (y % 8) as u8;
    assert(s as int == y % 8);
    assert forall|b: u8| b < 8 implies #[trigger] ((old | pixel_mask(y)) >> b) & 1u8 == if b as int == y % 8 {
        1u8
    } else {
        (old >> b) & 1u8
    } by {
        assert(((old | (1u8 << s)) >> b) & 1u8 == if b == s { 1u8 } else { (old >> b) & 1u8 }) by (bit_vector)
            requires
                s < 8,
                b < 8,
        ;
    }
}

/// Drawing a pixel inside the display sets it, and drawing it again changes nothing.
pub proof fn lemma_drawn_pixel_is_on(bytes: Seq<u8>, width: int, x: int, y: int)
    requires
        0 <= x < width,
        0 <= y,
        0 <= pixel_byte(width, x, y) < bytes.len(),
    ensures
        pixel_is_on(
            bytes.update(pixel_byte(width, x, y), bytes[pixel_byte(width, x, y)] | pixel_mask(y)),
            width,
            x,
            y,
        ),
        ({
            let once = bytes.update(pixel_byte(width, x, y), bytes[pixel_byte(width, x, y)] | pixel_mask(y));
            once.update(pixel_byte(width, x, y), once[pixel_byte(width, x, y)] | pixel_mask(y)) == once
        }),
{
    let i = pixel_byte(width, x, y);
    let b = bytes[i];
    let s = (y % 8) as u8;
    assert(s < 8);
    assert((b | (1u8 << s)) & (1u8 << s) != 0 && ((b | (1u8 << s)) | (1u8 << s)) == (b | (1u8 << s))) by (bit_vector)
        requires
            s < 8,
    ;
    let once = bytes.update(i, b | pixel_mask(y));
    assert(once.update(i, once[i] | pixel_mask(y)) =~= once);
}

}
