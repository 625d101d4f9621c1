//! The framebuffer geometry and configuration layer of the graphics library.
//!
//! The kernel exposes the framebuffer through a device file and a plain-text
//! configuration file of ten whitespace-separated numbers. Reading and
//! mapping those is the embedding program's work; what lives here is the
//! parsing of the configuration text, the pixel-format packing, and the
//! address arithmetic of the mapped buffer.

use vstd::prelude::*;

verus! {

#[derive(Debug, Clone, PartialEq, Eq, Structural)]
pub enum GraphicsError {
    Unknown,
}

impl Default for GraphicsError {
    fn default() -> (r: GraphicsError)
        ensures
            r == GraphicsError::Unknown,
    {
        GraphicsError::Unknown
    }
}

impl GraphicsError {
    /// A short description, in place of a formatter-based rendering.
    pub fn describe(&self) -> (r: &'static str)
        ensures
            r@ == "Unknown graphics error"@,
    {
        "Unknown graphics error"
    }
}

/// A rectangle of pixels, used to mark dirty regions for flushing.
#[derive(PartialEq, Eq, Clone, Copy, Debug, Structural)]
pub struct BoundingBox {
    pub x: usize,
    pub y: usize,
    pub width: usize,
    pub height: usize,
}

impl BoundingBox {
    /// A box from a drawing rectangle's corner and extent; the corner must
    /// not lie off-screen in the negative direction.
    pub fn from_rect(top_left_x: i32, top_left_y: i32, width: u32, height: u32) -> (r: BoundingBox)
        requires
            0 <= top_left_x,
            0 <= top_left_y,
        ensures
            r.x == top_left_x,
            r.y == top_left_y,
            r.width == width,
            r.height == height,
    {
        BoundingBox {
            x: top_left_x as usize,
            y: top_left_y as usize,
            width: width as usize,
            height: height as usize,
        }
    }
}

/// A span of mapped framebuffer memory: its base address and byte length.
/// Mapping it is the embedder's work; here it is geometry only.
#[derive(PartialEq, Eq, Debug, Clone, Copy, Structural)]
pub struct RawBitMap {
    pub addr: usize,
    pub size: usize,
}

impl RawBitMap {
    pub fn addr(&self) -> (r: usize)
        ensures
            r == self.addr,
    {
        self.addr
    }

    pub fn size(&self) -> (r: usize)
        ensures
            r == self.size,
    {
        self.size
    }
}

/// Whether a byte counts as whitespace between configuration numbers.
pub open spec fn is_ws(b: u8) -> bool {
    b == 32 || b == 9 || b == 10 || b == 13
}

/// Index of the first whitespace byte at or after `from`, or the length.
pub open spec fn find_ws(s: Seq<u8>, from: int) -> int
    decreases s.len() - from,
{
    if from < 0 || from >= s.len() {
        s.len() as int
    } else if is_ws(s[from]) {
        from
    } else {
        find_ws(s, from + 1)
    }
}

pub proof fn lemma_find_ws_bounds(s: Seq<u8>, from: int)
    requires
        0 <= from <= s.len(),
    ensures
        from <= find_ws(s, from) <= s.len(),
        find_ws(s, from) < s.len() ==> is_ws(s[find_ws(s, from)]),
        forall|k: int| from <= k < find_ws(s, from) ==> !is_ws(s[k]),
    decreases s.len() - from,
{
    if from < s.len() && !is_ws(s[from]) {
        lemma_find_ws_bounds(s, from + 1);
    }
}

pub proof fn lemma_find_ws_at(s: Seq<u8>, from: int, m: int)
    requires
        0 <= from <= m <= s.len(),
        forall|k: int| from <= k < m ==> !is_ws(s[k]),
        m == s.len() || is_ws(s[m]),
    ensures
        find_ws(s, from) == m,
    decreases m - from,
{
    if from < m {
        lemma_find_ws_at(s, from + 1, m);
    }
}

/// The whitespace-separated words of the configuration text, in order;
/// runs of whitespace carry no empty words.
pub open spec fn ws_tokens(s: Seq<u8>) -> Seq<Seq<u8>>
    decreases s.len(),
    via ws_tokens_decreases
{
    if s.len() == 0 {
        Seq::<Seq<u8>>::empty()
    } else if is_ws(s[0]) {
        ws_tokens(s.drop_first())
    } else {
        let j = find_ws(s, 0);
        seq![s.take(j)] + ws_tokens(s.skip(j))
    }
}

#[via_fn]
proof fn ws_tokens_decreases(s: Seq<u8>) {
    if s.len() > 0 && !is_ws(s[0]) {
        lemma_find_ws_bounds(s, 0);
    }
}

/// Splits a text into its whitespace-separated words.
fn tokenize(bytes: &Vec<u8>) -> (r: Vec<Vec<u8>>)
    ensures
        r.deep_view() == ws_tokens(bytes@),
{
    let s = bytes;
    let ghost sq = bytes@;
    let mut out: Vec<Vec<u8>> = Vec::new();
    let mut cur: Vec<u8> = Vec::new();
    let mut i: usize = 0;
    let ghost mut c: int = 0;
    proof {
        assert(sq.skip(0) =~= sq);
        assert(ws_tokens(sq) =~~= out.deep_view() + ws_tokens(sq.skip(0)));
    }
    while i < s.len()
        invariant
            sq == s@,
            0 <= i <= sq.len(),
            cur@.len() == 0 ==> ws_tokens(sq) == out.deep_view() + ws_tokens(sq.skip(i as int)),
            cur@.len() > 0 ==> {
                &&& 0 <= c < i
                &&& cur@ == sq.subrange(c, i as int)
                &&& (forall|k: int| c <= k < i ==> !is_ws(sq[k]))
                &&& ws_tokens(sq) == out.deep_view() + ws_tokens(sq.skip(c))
            },
        decreases sq.len() - i,
    {
        let b = s[i];
        if b == 32 || b == 9 || b == 10 || b == 13 {
            if cur.len() > 0 {
                // the current word ends here
                proof {
                    let tail = sq.skip(c);
                    lemma_find_ws_at(tail, 0, i - c);
                    assert(!is_ws(tail[0]));
                    assert(tail.take(i - c) =~= sq.subrange(c, i as int));
                    assert(tail.skip(i - c) =~= sq.skip(i as int));
                    assert(ws_tokens(tail) == seq![cur@] + ws_tokens(sq.skip(i as int)));
                }
                let ghost out0 = out.deep_view();
                let ghost piece = cur@;
                out.push(cur);
                cur = Vec::new();
                proof {
                    assert(out.deep_view() =~~= out0.push(piece));
                    assert(out0.push(piece) =~~= out0 + seq![piece]);
                    assert(ws_tokens(sq) =~~= out.deep_view() + ws_tokens(sq.skip(i as int)));
                }
            }
            proof {
                let tail = sq.skip(i as int);
                assert(tail[0] == sq[i as int]);
                assert(tail.drop_first() =~= sq.skip(i + 1));
                assert(ws_tokens(sq.skip(i as int)) == ws_tokens(sq.skip(i + 1)));
            }
        } else {
            if cur.len() == 0 {
                proof {
                    c = i as int;
                }
            }
            cur.push(b);
            proof {
                assert(cur@ =~= sq.subrange(c, i + 1));
            }
        }
        i = i + 1;
    }
    if cur.len() > 0 {
        proof {
            let tail = sq.skip(c);
            lemma_find_ws_at(tail, 0, sq.len() - c);
            assert(!is_ws(tail[0]));
            assert(tail.take(sq.len() - c) =~= tail);
            assert(tail.skip(sq.len() - c) =~= Seq::<u8>::empty());
            assert(cur@ == tail);
            assert(ws_tokens(tail) == seq![cur@] + ws_tokens(Seq::<u8>::empty()));
        }
        let ghost out0 = out.deep_view();
        let ghost piece = cur@;
        out.push(cur);
        proof {
            assert(out.deep_view() =~~= out0.push(piece));
            assert(out0.push(piece) =~~= out0 + seq![piece]);
            assert(ws_tokens(sq) =~~= out.deep_view());
        }
    } else {
        proof {
            assert(sq.skip(sq.len() as int) =~= Seq::<u8>::empty());
            assert(ws_tokens(sq) =~~= out.deep_view());
        }
    }
    out
}

pub open spec fn is_digit(b: u8) -> bool {
    48 <= b <= 57
}

pub open spec fn all_digits(t: Seq<u8>) -> bool {
    forall|k: int| 0 <= k < t.len() ==> is_digit(#[trigger] t[k])
}

/// The number a run of decimal digits denotes.
pub open spec fn dec_val(t: Seq<u8>) -> int
    decreases t.len(),
{
    if t.len() == 0 {
        0
    } else {
        dec_val(t.drop_last()) * 10 + (t.last() - 48)
    }
}

/// A word stands for a number within `max`: nonempty, digits only, in range.
pub open spec fn token_fits(t: Seq<u8>, max: int) -> bool {
    &&& t.len() >= 1
    &&& all_digits(t)
    &&& dec_val(t) <= max
}

/// Parses a word as a decimal number no larger than `max`.
fn parse_dec(t: &Vec<u8>, max: u64) -> (r: Option<u64>)
    ensures
        r is Some <==> token_fits(t@, max as int),
        r matches Some(v) ==> v == dec_val(t@),
{
    if t.len() == 0 {
        return None;
    }
    let mut acc: u64 = 0;
    let mut i: usize = 0;
    while i < t.len()
        invariant
            0 <= i <= t@.len(),
            acc == dec_val(t@.take(i as int)),
            acc <= max,
            forall|k: int| 0 <= k < i ==> is_digit(#[trigger] t@[k]),
        decreases t@.len() - i,
    {
        let b = t[i];
        if b < 48 || b > 57 {
            return None;
        }
        let d = (b - 48) as u64;
        proof {
            assert(t@.take(i + 1).drop_last() =~= t@.take(i as int));
            assert(t@.take(i + 1).last() == t@[i as int]);
            assert(dec_val(t@.take(i + 1)) == acc * 10 + d);
        }
        if d > max {
            proof {
                assert(acc * 10 + d > max) by (nonlinear_arith)
                    requires
                        d > max,
                        acc >= 0,
                ;
                lemma_dec_exceeds(t@, i + 1, max as int);
            }
            return None;
        }
        if acc > (max - d) / 10 {
            // the prefix alone already exceeds the bound, so the whole word
            // does too, whatever follows
            proof {
                assert(acc * 10 + d > max) by (nonlinear_arith)
                    requires
                        acc > (max - d) / 10,
                        d <= 9,
                        d <= max,
                        acc >= 0,
                        max >= 0,
                ;
                lemma_dec_exceeds(t@, i + 1, max as int);
            }
            return None;
        }
        proof {
            assert(acc * 10 + d <= max) by (nonlinear_arith)
                requires
                    acc <= (max - d) / 10,
                    d <= 9,
                    d <= max,
                    acc >= 0,
                    max >= 0,
            ;
        }
        acc = acc * 10 + d;
        i = i + 1;
    }
    proof {
        assert(t@.take(t@.len() as int) =~= t@);
    }
    Some(acc)
}

/// Once a digit prefix exceeds the bound, no continuation of it fits.
proof fn lemma_dec_exceeds(t: Seq<u8>, i: int, max: int)
    requires
        0 <= i <= t.len(),
        dec_val(t.take(i)) > max,
        max >= 0,
    ensures
        all_digits(t) ==> dec_val(t) > max,
    decreases t.len() - i,
{
    if i < t.len() {
        if all_digits(t) {
            assert(t.take(i + 1).drop_last() =~= t.take(i));
            assert(t.take(i + 1).last() == t[i]);
            assert(is_digit(t[i]));
            assert(dec_val(t.take(i + 1)) == dec_val(t.take(i)) * 10 + (t[i] - 48));
            assert(dec_val(t.take(i + 1)) > max) by (nonlinear_arith)
                requires
                    dec_val(t.take(i)) > max,
                    max >= 0,
                    dec_val(t.take(i + 1)) == dec_val(t.take(i)) * 10 + (t[i] - 48),
                    t[i] >= 48,
            ;
            lemma_dec_exceeds(t, i + 1, max);
        }
    } else {
        assert(t.take(i) =~= t);
    }
}

/// The kernel's graphics configuration: pixel-format masks and the screen
/// dimensions, as the ten numbers of its configuration text.
#[derive(Default, Clone, Copy, Debug, PartialEq, Eq, Structural)]
pub struct GFXConfig {
    pub red_mask_shift: u8,
    pub red_mask_size: u8,
    pub green_mask_shift: u8,
    pub green_mask_size: u8,
    pub blue_mask_shift: u8,
    pub blue_mask_size: u8,
    pub bpp: u16,
    pub width: u32,
    pub height: u32,
    pub pitch: u32,
}

/// What parsing the configuration text yields: the first ten words read as
/// the six mask numbers, the bits per pixel, and the three dimensions.
pub open spec fn spec_parse_config(s: Seq<u8>) -> Option<GFXConfig> {
    let ts = ws_tokens(s);
    if ts.len() >= 10 && token_fits(ts[0], 255) && token_fits(ts[1], 255) && token_fits(ts[2], 255)
        && token_fits(ts[3], 255) && token_fits(ts[4], 255) && token_fits(ts[5], 255)
        && token_fits(ts[6], 65535) && token_fits(ts[7], 4294967295) && token_fits(
        ts[8],
        4294967295,
    ) && token_fits(ts[9], 4294967295) {
        Some(
            GFXConfig {
                red_mask_shift: dec_val(ts[0]) as u8,
                red_mask_size: dec_val(ts[1]) as u8,
                green_mask_shift: dec_val(ts[2]) as u8,
                green_mask_size: dec_val(ts[3]) as u8,
                blue_mask_shift: dec_val(ts[4]) as u8,
                blue_mask_size: dec_val(ts[5]) as u8,
                bpp: dec_val(ts[6]) as u16,
                width: dec_val(ts[7]) as u32,
                height: dec_val(ts[8]) as u32,
                pitch: dec_val(ts[9]) as u32,
            },
        )
    } else {
        None
    }
}

impl GFXConfig {
    /// Parses the configuration text the kernel serves: ten
    /// whitespace-separated numbers. Rejects texts with fewer than ten
    /// numbers or numbers out of range, instead of failing the process.
    pub fn parse(input: &Vec<u8>) -> (r: Option<GFXConfig>)
        ensures
            r == spec_parse_config(input@),
    {
        let ts = tokenize(input);
        let ghost sts = ws_tokens(input@);
        if ts.len() < 10 {
            return None;
        }
        proof {
            assert forall|k: int| 0 <= k < 10 implies sts[k] == ts@[k]@ by {
                assert(sts[k] == ts@[k].deep_view());
                assert(ts@[k].deep_view() =~= ts@[k]@);
            }
        }
        let red_mask_shift = match parse_dec(&ts[0], 255) {
            Some(v) => v,
            None => {
                return None;
            },
        };
        let red_mask_size = match parse_dec(&ts[1], 255) {
            Some(v) => v,
            None => {
                return None;
            },
        };
        let green_mask_shift = match parse_dec(&ts[2], 255) {
            Some(v) => v,
            None => {
                return None;
            },
        };
        let green_mask_size = match parse_dec(&ts[3], 255) {
            Some(v) => v,
            None => {
                return None;
            },
        };
        let blue_mask_shift = match parse_dec(&ts[4], 255) {
            Some(v) => v,
            None => {
                return None;
            },
        };
        let blue_mask_size = match parse_dec(&ts[5], 255) {
            Some(v) => v,
            None => {
                return None;
            },
        };
        let bpp = match parse_dec(&ts[6], 65535) {
            Some(v) => v,
            None => {
                return None;
            },
        };
        let width = match parse_dec(&ts[7], 4294967295) {
            Some(v) => v,
            None => {
                return None;
            },
        };
        let height = match parse_dec(&ts[8], 4294967295) {
            Some(v) => v,
            None => {
                return None;
            },
        };
        let pitch = match parse_dec(&ts[9], 4294967295) {
            Some(v) => v,
            None => {
                return None;
            },
        };
        Some(
            GFXConfig {
                red_mask_shift: red_mask_shift as u8,
                red_mask_size: red_mask_size as u8,
                green_mask_shift: green_mask_shift as u8,
                green_mask_size: green_mask_size as u8,
                blue_mask_shift: blue_mask_shift as u8,
                blue_mask_size: blue_mask_size as u8,
                bpp: bpp as u16,
                width: width as u32,
                height: height as u32,
                pitch: pitch as u32,
            },
        )
    }
}

/// Screen extent and row stride of a mapped framebuffer.
#[derive(Debug, Clone, PartialEq, Eq, Copy, Structural)]
pub struct FrameBufferDimensions {
    pub height: u32,
    pub width: u32,
    pub pitch: u32,
}

/// The pixel format of a mapped framebuffer: where each colour channel sits
/// inside a pixel word, and how wide a pixel is.
#[derive(Debug, Clone, PartialEq, Eq, Structural)]
pub struct FrameBufferConfig {
    pub red_mask_shift: u8,
    pub red_mask_size: u8,
    pub green_mask_shift: u8,
    pub green_mask_size: u8,
    pub blue_mask_shift: u8,
    pub blue_mask_size: u8,
    pub bpp: u16,
}

impl FrameBufferConfig {
    /// Packs a colour into one pixel word: each channel masked to its width
    /// and shifted to its place.
    pub fn get_rgb_pixel(&self, red: u8, green: u8, blue: u8) -> (r: u32)
        requires
            self.red_mask_size < 32,
            self.green_mask_size < 32,
            self.blue_mask_size < 32,
            self.red_mask_shift < 32,
            self.green_mask_shift < 32,
            self.blue_mask_shift < 32,
        ensures
            r == (((red as u32) & (((1u32 << self.red_mask_size) - 1) as u32))
                << self.red_mask_shift) | (((green as u32) & (((1u32 << self.green_mask_size)
                - 1) as u32)) << self.green_mask_shift) | (((blue as u32) & (((1u32
                << self.blue_mask_size) - 1) as u32)) << self.blue_mask_shift),
    {
        let rs = self.red_mask_size;
        let gs = self.green_mask_size;
        let bs = self.blue_mask_size;
        proof {
            assert(1u32 << rs >= 1) by (bit_vector)
                requires
                    rs < 32,
            ;
            assert(1u32 << gs >= 1) by (bit_vector)
                requires
                    gs < 32,
            ;
            assert(1u32 << bs >= 1) by (bit_vector)
                requires
                    bs < 32,
            ;
        }
        let red_bits = ((red as u32) & ((1u32 << rs) - 1)) << self.red_mask_shift;
        let green_bits = ((green as u32) & ((1u32 << gs) - 1)) << self.green_mask_shift;
        let blue_bits = ((blue as u32) & ((1u32 << bs) - 1)) << self.blue_mask_shift;
        red_bits | green_bits | blue_bits
    }
}

/// A framebuffer mapped from anonymous memory, to be flushed to the device.
#[derive(Debug, PartialEq, Eq, Clone, Structural)]
pub struct RawFrameBuffer {
    pub buf: RawBitMap,
    pub dim: FrameBufferDimensions,
    pub config: FrameBufferConfig,
}

/// The kernel's own framebuffer, mapped directly: writes are immediately
/// visible, so flushing is a no-op.
#[derive(Debug, PartialEq, Eq, Clone, Structural)]
pub struct KernelFBWrapper {
    pub addr: usize,
    pub dim: FrameBufferDimensions,
    pub config: FrameBufferConfig,
}

/// Byte offset of the pixel at `(x, y)` from the buffer base.
pub open spec fn spec_pixel_offset(dim: FrameBufferDimensions, bpp: u16, x: u32, y: u32) -> int {
    y * dim.pitch + x * (bpp / 8)
}

impl RawFrameBuffer {
    pub fn addr(&self) -> (r: usize)
        ensures
            r == self.buf.addr,
    {
        self.buf.addr()
    }

    pub fn pixel_offset(&self, x: u32, y: u32) -> (r: u32)
        requires
            spec_pixel_offset(self.dim, self.config.bpp, x, y) <= u32::MAX,
        ensures
            r == spec_pixel_offset(self.dim, self.config.bpp, x, y),
    {
        y * self.dim.pitch + x * ((self.config.bpp / 8) as u32)
    }
}

impl KernelFBWrapper {
    pub fn addr(&self) -> (r: usize)
        ensures
            r == self.addr,
    {
        self.addr
    }

    /// Byte length of the mapped buffer: one pitch per row.
    pub fn size(&self) -> (r: usize)
        requires
            self.dim.pitch * self.dim.height <= u32::MAX,
        ensures
            r == self.dim.pitch * self.dim.height,
    {
        (self.dim.pitch * self.dim.height) as usize
    }

    pub fn pixel_offset(&self, x: u32, y: u32) -> (r: u32)
        requires
            spec_pixel_offset(self.dim, self.config.bpp, x, y) <= u32::MAX,
        ensures
            r == spec_pixel_offset(self.dim, self.config.bpp, x, y),
    {
        y * self.dim.pitch + x * ((self.config.bpp / 8) as u32)
    }
}

/// Dirty rectangles collected for one batched flush to the kernel.
#[derive(Debug, PartialEq, Eq, Clone)]
pub struct BatchedFlushes {
    pub inner: Vec<BoundingBox>,
}

impl BatchedFlushes {
    pub fn new() -> (r: BatchedFlushes)
        ensures
            r.inner@ =~= Seq::<BoundingBox>::empty(),
    {
        BatchedFlushes { inner: Vec::new() }
    }

    pub fn len(&self) -> (r: usize)
        ensures
            r == self.inner@.len(),
    {
        self.inner.len()
    }

    pub fn is_empty(&self) -> (r: bool)
        ensures
            r == (self.inner@.len() == 0),
    {
        self.inner.is_empty()
    }

    pub fn push(&mut self, flush: BoundingBox)
        ensures
            final(self).inner@ == old(self).inner@.push(flush),
    {
        self.inner.push(flush);
    }

    /// Ends one batched flush with the device write's outcome: on success
    /// the flushed rectangles are dropped; on failure every rectangle stays
    /// queued, so nothing is lost and the caller can flush again.
    pub fn flush_done(&mut self, write_ok: bool) -> (r: Result<(), GraphicsError>)
        ensures
            write_ok ==> (r == Ok::<(), GraphicsError>(()) && final(self).inner@.len() == 0),
            !write_ok ==> (r == Err::<(), GraphicsError>(GraphicsError::Unknown)
                && final(self).inner@ == old(self).inner@),
    {
        if write_ok {
            self.inner.clear();
            Ok(())
        } else {
            Err(GraphicsError::Unknown)
        }
    }
}

impl Default for BatchedFlushes {
    fn default() -> (r: BatchedFlushes)
        ensures
            r.inner@ =~= Seq::<BoundingBox>::empty(),
    {
        BatchedFlushes::new()
    }
}

} // verus!
