//! A text console drawn into a linear framebuffer with an 8x8 bitmap font.
use vstd::prelude::*;
use crate::color::{color_of, Color};
use font8x8::UnicodeFonts;
use vstd::string::*;

verus! {

/// Byte order of a framebuffer pixel.
#[derive(Clone, Copy, Debug, PartialEq, Eq, Structural)]
pub enum PixelFormat {
    RGB,
    BGR,
    U8,
}

/// Geometry of a framebuffer.
#[derive(Clone, Copy, Debug, PartialEq, Eq, Structural)]
pub struct FrameBufferInfo {
    pub byte_len: usize,
    pub horizontal_resolution: usize,
    pub vertical_resolution: usize,
    pub pixel_format: PixelFormat,
    pub bytes_per_pixel: usize,
    pub stride: usize,
}

/// Severity of a log record.
#[derive(Clone, Copy, Debug, PartialEq, Eq, Structural)]
pub enum Level {
    Error,
    Warn,
    Info,
    Debug,
    Trace,
}

/// The colour a record's level is written in.
pub open spec fn level_color_spec(level: Level) -> Color {
    match level {
        Level::Trace => color_of(0x76_26_71),
        Level::Debug => color_of(0x39_b5_4a),
        Level::Info => color_of(0xff_ff_ff),
        Level::Warn => color_of(0xff_c7_06),
        Level::Error => color_of(0xff_00_00),
    }
}

pub fn level_color(level: Level) -> (c: Color)
    ensures
        c == level_color_spec(level),
{
    match level {
        Level::Trace => Color::from(0x76_26_71u32),
        Level::Debug => Color::from(0x39_b5_4au32),
        Level::Info => Color::from(0xff_ff_ffu32),
        Level::Warn => Color::from(0xff_c7_06u32),
        Level::Error => Color::from(0xff_00_00u32),
    }
}

/// A level's name, left-aligned in five columns.
pub open spec fn level_label_spec(level: Level) -> Seq<char> {
    match level {
        Level::Trace => "TRACE"@,
        Level::Debug => "DEBUG"@,
        Level::Info => "INFO "@,
        Level::Warn => "WARN "@,
        Level::Error => "ERROR"@,
    }
}

pub fn level_label(level: Level) -> (r: &'static str)
    ensures
        r@ == level_label_spec(level),
{
    match level {
        Level::Trace => "TRACE",
        Level::Debug => "DEBUG",
        Level::Info => "INFO ",
        Level::Warn => "WARN ",
        Level::Error => "ERROR",
    }
}

/// Glyph rows of a character in the basic (ASCII) font.
pub uninterp spec fn basic_glyph_of(c: char) -> Seq<u8>;

/// Relies on font8x8's `BASIC_FONTS.get`: the table holds exactly the
/// characters U+0000 to U+007F, each as eight row bytes.
#[verifier::external_body]
fn basic_glyph(c: char) -> (r: Option<[u8; 8]>)
    ensures
        (c as u32) < 128 ==> r is Some && r->Some_0@ == basic_glyph_of(c),
        (c as u32) >= 128 ==> r is None,
{
    font8x8::BASIC_FONTS.get(c)
}

/// Relies on font8x8's `BLOCK_UNICODE[8]`, U+2588 FULL BLOCK: every bit set.
#[verifier::external_body]
fn full_block_glyph() -> (r: [u8; 8])
    ensures
        r@ == seq![0xffu8, 0xff, 0xff, 0xff, 0xff, 0xff, 0xff, 0xff],
{
    font8x8::BLOCK_UNICODE[8].byte_array()
}

/// The glyph drawn for `c`: its basic-font glyph, or a full block when the
/// font has none.
pub open spec fn glyph_of(c: char) -> Seq<u8> {
    if (c as u32) < 128 {
        basic_glyph_of(c)
    } else {
        seq![0xffu8, 0xff, 0xff, 0xff, 0xff, 0xff, 0xff, 0xff]
    }
}

pub open spec fn two_pow(x: nat) -> nat
    decreases x,
{
    if x == 0 {
        1
    } else {
        2 * two_pow((x - 1) as nat)
    }
}

/// Bit `x` of `b`, counted from the least significant.
pub open spec fn bit_set(b: u8, x: nat) -> bool {
    (b as nat / two_pow(x)) % 2 == 1
}

/// The four bytes a pixel of `color` takes in `format`.
pub open spec fn pixel_bytes(format: PixelFormat, color: Color) -> Seq<u8> {
    match format {
        PixelFormat::BGR => seq![color.b, color.g, color.r, 0u8],
        _ => seq![color.r, color.g, color.b, 0u8],
    }
}

/// `buf` with pixel `p` (four bytes at `4 * p`) set to `px`.
pub open spec fn set_pixel(buf: Seq<u8>, p: int, px: Seq<u8>) -> Seq<u8> {
    Seq::new(buf.len(), |j: int| if 4 * p <= j < 4 * p + 4 { px[j - 4 * p] } else { buf[j] })
}

/// The first `x` pixels of one glyph row drawn from pixel `base` on.
pub open spec fn paint_row(buf: Seq<u8>, bits: u8, base: int, x: nat, px: Seq<u8>) -> Seq<u8>
    decreases x,
{
    if x == 0 {
        buf
    } else {
        let b = paint_row(buf, bits, base, (x - 1) as nat, px);
        if bit_set(bits, (x - 1) as nat) {
            set_pixel(b, base + x - 1, px)
        } else {
            b
        }
    }
}

/// The first `y` rows of `glyph` drawn with its top left corner at
/// column `col`, line `row`.
pub open spec fn paint_glyph(
    buf: Seq<u8>,
    glyph: Seq<u8>,
    col: int,
    row: int,
    stride: int,
    y: nat,
    px: Seq<u8>,
) -> Seq<u8>
    decreases y,
{
    if y == 0 {
        buf
    } else {
        paint_row(
            paint_glyph(buf, glyph, col, row, stride, (y - 1) as nat, px),
            glyph[y - 1],
            (row + y - 1) * stride + col,
            8,
            px,
        )
    }
}

/// `buf` with its first `n` bytes zeroed.
pub open spec fn cleared(buf: Seq<u8>, n: int) -> Seq<u8> {
    Seq::new(buf.len(), |j: int| if j < n { 0u8 } else { buf[j] })
}

/// The console as a value: framebuffer bytes, cursor and colour.
pub struct LoggerView {
    pub buffer: Seq<u8>,
    pub col: int,
    pub row: int,
    pub color: Color,
}

/// Moves to the start of the next text line, clearing the screen and
/// starting over at the top when the bottom is reached.
pub open spec fn new_line_spec(v: LoggerView, info: FrameBufferInfo) -> LoggerView {
    if v.row + 12 >= info.vertical_resolution - 8 {
        LoggerView { buffer: cleared(v.buffer, info.byte_len as int), col: 0, row: 0, ..v }
    } else {
        LoggerView { col: 0, row: v.row + 12, ..v }
    }
}

/// What writing one character does to the console.
pub open spec fn write_char_spec(v: LoggerView, info: FrameBufferInfo, c: char) -> LoggerView {
    if c == '\n' {
        new_line_spec(v, info)
    } else {
        let w = if v.col >= info.horizontal_resolution {
            new_line_spec(v, info)
        } else {
            v
        };
        LoggerView {
            buffer: paint_glyph(
                w.buffer,
                glyph_of(c),
                w.col,
                w.row,
                info.stride as int,
                8,
                pixel_bytes(info.pixel_format, w.color),
            ),
            col: w.col + 8,
            ..w
        }
    }
}

/// What writing a string does to the console, one character after another.
pub open spec fn write_str_spec(v: LoggerView, info: FrameBufferInfo, s: Seq<char>) -> LoggerView
    decreases s.len(),
{
    if s.len() == 0 {
        v
    } else {
        write_str_spec(write_char_spec(v, info, s[0]), info, s.drop_first())
    }
}

/// Framebuffer geometry the console can draw into without leaving the buffer.
pub open spec fn info_fits(info: FrameBufferInfo, len: nat) -> bool {
    &&& 8 <= info.stride
    &&& info.horizontal_resolution <= info.stride
    &&& 8 < info.vertical_resolution
    &&& info.vertical_resolution * info.stride * 4 <= len
    &&& info.byte_len <= len
}

/// The boot console.
pub struct Logger {
    buffer: Vec<u8>,
    info: FrameBufferInfo,
    color: Color,
    col: usize,
    row: usize,
}

impl Logger {
    pub closed spec fn view(&self) -> LoggerView {
        LoggerView {
            buffer: self.buffer@,
            col: self.col as int,
            row: self.row as int,
            color: self.color,
        }
    }

    pub closed spec fn info_view(&self) -> FrameBufferInfo {
        self.info
    }

    pub closed spec fn wf(&self) -> bool {
        &&& info_fits(self.info, self.buffer@.len())
        &&& self.row + 8 < self.info.vertical_resolution
        &&& self.col <= self.info.stride + 8
    }

    /// A console over `buffer`, cleared, writing white from the top left.
    pub fn new(buffer: Vec<u8>, info: FrameBufferInfo) -> (r: Self)
        requires
            info_fits(info, buffer@.len()),
        ensures
            r.wf(),
            r.info_view() == info,
            r.view() == (LoggerView {
                buffer: cleared(buffer@, info.byte_len as int),
                col: 0,
                row: 0,
                color: Color { r: 255, g: 255, b: 255 },
            }),
    {
        let mut res = Logger { buffer, info, color: Color::new(255, 255, 255), col: 0, row: 0 };
        res.clear_screen();
        res
    }

    /// The framebuffer bytes.
    pub fn buffer(&self) -> (r: &Vec<u8>)
        ensures
            r@ == self.view().buffer,
    {
        &self.buffer
    }

    /// Column and line of the cursor, in pixels.
    pub fn cursor(&self) -> (r: (usize, usize))
        ensures
            r.0 == self.view().col,
            r.1 == self.view().row,
    {
        (self.col, self.row)
    }

    pub fn set_color(&mut self, color: Color)
        requires
            old(self).wf(),
        ensures
            final(self).wf(),
            final(self).info_view() == old(self).info_view(),
            final(self).view() == (LoggerView { color, ..old(self).view() }),
    {
        self.color = color;
    }

    fn clear_screen(&mut self)
        requires
            info_fits(old(self).info, old(self).buffer@.len()),
        ensures
            final(self).info == old(self).info,
            final(self).color == old(self).color,
            final(self).col == old(self).col,
            final(self).row == old(self).row,
            final(self).buffer@ == cleared(old(self).buffer@, old(self).info.byte_len as int),
    {
        let n = self.info.byte_len;
        let mut i: usize = 0;
        while i < n
            invariant
                i <= n,
                n == self.info.byte_len,
                self.info == old(self).info,
                self.color == old(self).color,
                self.col == old(self).col,
                self.row == old(self).row,
                n <= self.buffer@.len(),
                self.buffer@ =~= Seq::new(
                    old(self).buffer@.len(),
                    |j: int| if j < i { 0u8 } else { old(self).buffer@[j] },
                ),
            decreases n - i,
        {
            self.buffer.set(i, 0);
            i = i + 1;
        }
        assert(self.buffer@ =~= cleared(old(self).buffer@, n as int));
    }

    fn new_line(&mut self)
        requires
            old(self).wf(),
        ensures
            final(self).wf(),
            final(self).info == old(self).info,
            final(self).view() == new_line_spec(old(self).view(), old(self).info),
    {
        let len = self.buffer.len();
        proof {
            let v = self.info.vertical_resolution as int;
            let st = self.info.stride as int;
            assert(v * 32 <= v * st * 4) by (nonlinear_arith)
                requires
                    st >= 8,
                    v >= 0,
            ;
        }
        self.col = 0;
        self.row = self.row + 12;
        if self.row >= self.info.vertical_resolution - 8 {
            self.clear_screen();
            self.row = 0;
        }
    }

    fn write_pixel(&mut self, x: usize, y: usize)
        requires
            info_fits(old(self).info, old(self).buffer@.len()),
            old(self).info.pixel_format != PixelFormat::U8,
            (y * old(self).info.stride + x) * 4 + 4 <= old(self).buffer@.len(),
        ensures
            final(self).info == old(self).info,
            final(self).color == old(self).color,
            final(self).col == old(self).col,
            final(self).row == old(self).row,
            final(self).buffer@ == set_pixel(
                old(self).buffer@,
                y * old(self).info.stride + x,
                pixel_bytes(old(self).info.pixel_format, old(self).color),
            ),
    {
        let color: [u8; 4] = match self.info.pixel_format {
            PixelFormat::BGR => [self.color.b, self.color.g, self.color.r, 0u8],
            _ => [self.color.r, self.color.g, self.color.b, 0u8],
        };
        let ghost px = pixel_bytes(self.info.pixel_format, self.color);
        assert(color@ =~= px);
        let len = self.buffer.len();
        let off = (y * self.info.stride + x) * 4;
        let mut k: usize = 0;
        while k < 4
            invariant
                k <= 4,
                off + 4 <= self.buffer@.len(),
                off == (y * self.info.stride + x) * 4,
                self.info == old(self).info,
                self.color == old(self).color,
                self.col == old(self).col,
                self.row == old(self).row,
                color@ == px,
                self.buffer@ =~= Seq::new(
                    old(self).buffer@.len(),
                    |j: int| if off <= j < off + k { px[j - off] } else { old(self).buffer@[j] },
                ),
            decreases 4 - k,
        {
            self.buffer.set(off + k, color[k]);
            k = k + 1;
        }
        assert(self.buffer@ =~= set_pixel(old(self).buffer@, y * self.info.stride + x, px));
    }

    /// Draws `c` at the cursor and advances it; a newline moves to the next
    /// text line, and a character past the right edge wraps first.
    pub fn write_char(&mut self, c: char)
        requires
            old(self).wf(),
            c == '\n' || old(self).info_view().pixel_format != PixelFormat::U8,
        ensures
            final(self).wf(),
            final(self).info_view() == old(self).info_view(),
            final(self).view() == write_char_spec(old(self).view(), old(self).info_view(), c),
    {
        if c == '\n' {
            self.new_line();
            return;
        }
        if self.col >= self.info.horizontal_resolution {
            self.new_line();
        }
        let glyph: [u8; 8] = match basic_glyph(c) {
            Some(g) => g,
            None => full_block_glyph(),
        };
        assert(glyph@ == glyph_of(c));
        let len = self.buffer.len();
        proof {
            let v = self.info.vertical_resolution as int;
            let st = self.info.stride as int;
            assert(v * st * 4 >= 36 * st) by (nonlinear_arith)
                requires
                    v >= 9,
                    st >= 0,
            ;
        }
        let ghost w = self.view();
        let ghost px = pixel_bytes(self.info.pixel_format, self.color);
        let ghost stride = self.info.stride as int;
        let mut y: usize = 0;
        while y < 8
            invariant
                self.wf(),
                self.info == old(self).info,
                self.color == w.color,
                self.col == w.col,
                self.row == w.row,
                self.col < self.info.stride,
                y <= 8,
                glyph@ == glyph_of(c),
                self.info.pixel_format != PixelFormat::U8,
                len == self.buffer@.len(),
                px == pixel_bytes(self.info.pixel_format, self.color),
                stride == self.info.stride,
                self.buffer@ == paint_glyph(w.buffer, glyph@, w.col, w.row, stride, y as nat, px),
            decreases 8 - y,
        {
            let bits = glyph[y];
            let ghost start = self.buffer@;
            let mut x: usize = 0;
            let mut mask: u32 = 1;
            while x < 8
                invariant
                    self.wf(),
                    self.info == old(self).info,
                    self.color == w.color,
                    self.col == w.col,
                    self.row == w.row,
                    self.col < self.info.stride,
                    y < 8,
                    x <= 8,
                    mask == two_pow(x as nat),
                    self.info.pixel_format != PixelFormat::U8,
                    len == self.buffer@.len(),
                    px == pixel_bytes(self.info.pixel_format, self.color),
                    stride == self.info.stride,
                    self.buffer@ == paint_row(start, bits, (w.row + y) * stride + w.col, x as nat, px),
                decreases 8 - x,
            {
                proof {
                    lemma_two_pow_small(x as nat);
                }
                if (bits as u32 / mask) % 2 == 1 {
                    proof {
                        lemma_pixel_in_bounds(
                            self.row as int,
                            y as int,
                            self.col as int,
                            x as int,
                            stride,
                            self.info.vertical_resolution as int,
                            self.info.horizontal_resolution as int,
                            self.buffer@.len() as int,
                        );
                    }
                    self.write_pixel(self.col + x, self.row + y);
                }
                mask = mask * 2;
                x = x + 1;
            }
            y = y + 1;
        }
        self.col = self.col + 8;
    }

    /// Writes each character of `s` in turn.
    pub fn write_str(&mut self, s: &str)
        requires
            old(self).wf(),
            old(self).info_view().pixel_format != PixelFormat::U8,
        ensures
            final(self).wf(),
            final(self).info_view() == old(self).info_view(),
            final(self).view() == write_str_spec(old(self).view(), old(self).info_view(), s@),
    {
        let n = s.unicode_len();
        let mut i: usize = 0;
        assert(s@.skip(0) =~= s@);
        while i < n
            invariant
                self.wf(),
                self.info == old(self).info,
                self.info.pixel_format != PixelFormat::U8,
                n == s@.len(),
                i <= n,
                write_str_spec(old(self).view(), self.info, s@) == write_str_spec(
                    self.view(),
                    self.info,
                    s@.skip(i as int),
                ),
            decreases n - i,
        {
            let c = s.get_char(i);
            assert(s@.skip(i as int).drop_first() =~= s@.skip(i + 1));
            self.write_char(c);
            i = i + 1;
        }
    }

    /// Writes one record: the level's name in the level's colour, then
    /// ` - `, the message and a newline in white.
    pub fn log(&mut self, level: Level, message: &str)
        requires
            old(self).wf(),
            old(self).info_view().pixel_format != PixelFormat::U8,
        ensures
            final(self).wf(),
            final(self).info_view() == old(self).info_view(),
            final(self).view() == ({
                let info = old(self).info_view();
                let a = write_str_spec(
                    LoggerView { color: level_color_spec(level), ..old(self).view() },
                    info,
                    level_label_spec(level),
                );
                let b = LoggerView { color: color_of(0xff_ff_ff), ..a };
                write_str_spec(
                    write_str_spec(write_str_spec(b, info, " - "@), info, message@),
                    info,
                    "\n"@,
                )
            }),
    {
        self.set_color(level_color(level));
        self.write_str(level_label(level));
        self.set_color(Color::from(0xff_ff_ffu32));
        self.write_str(" - ");
        self.write_str(message);
        self.write_str("\n");
    }
}

/// Powers of two below the eighth fit in a byte's bit positions.
proof fn lemma_two_pow_small(x: nat)
    requires
        x < 8,
    ensures
        1 <= two_pow(x) <= 128,
        two_pow(x + 1) == 2 * two_pow(x),
{
    reveal_with_fuel(two_pow, 9);
    assert(x == 0 || x == 1 || x == 2 || x == 3 || x == 4 || x == 5 || x == 6 || x == 7);
}

/// A glyph pixel drawn at the cursor stays inside the framebuffer.
proof fn lemma_pixel_in_bounds(
    row: int,
    y: int,
    col: int,
    x: int,
    stride: int,
    vres: int,
    hres: int,
    len: int,
)
    requires
        0 <= row,
        0 <= y < 8,
        0 <= col < stride,
        0 <= x < 8,
        8 <= stride,
        row + 8 < vres,
        vres * stride * 4 <= len,
    ensures
        ((row + y) * stride + (col + x)) * 4 + 4 <= len,
        (row + y) * stride + (col + x) == (row + y) * stride + col + x,
{
    assert((row + y) * stride <= (vres - 2) * stride) by (nonlinear_arith)
        requires
            row + y <= vres - 2,
            stride >= 0,
    ;
    assert((vres - 2) * stride + 2 * stride == vres * stride) by (nonlinear_arith);
    assert(vres * stride * 4 == 4 * (vres * stride)) by (nonlinear_arith);
}

} // verus!
