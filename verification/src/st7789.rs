//! The display: a panel of 240 by 135 pixels that is drawn without a frame
//! buffer. A window is opened in the controller's memory and its pixels are
//! streamed into it, row by row.

use crate::errors::St7789Error;
use crate::words;
use crate::words::bit_of;
use vstd::prelude::*;

verus! {

/// The width of the panel.
pub const WIDTH: u16 = 240;

/// The height of the panel.
pub const HEIGHT: u16 = 135;

/// The column of the controller's memory where the panel begins.
pub const XOFF: u16 = 40;

/// The row of the controller's memory where the panel begins.
pub const YOFF: u16 = 53;

/// The side of a text cell.
pub const CELL: u16 = 16;

/// How many cells a line has.
pub const TEXT_COLS: u8 = 15;

/// How many lines there are.
pub const TEXT_ROWS: u8 = 8;

/// The most characters that one call draws.
pub const TEXT_MAX: usize = 48;

/// Leave sleep.
pub const CMD_SLPOUT: u8 = 0x11;

/// Use the whole panel.
pub const CMD_NORON: u8 = 0x13;

/// Invert the colours, as the panel is wired for.
pub const CMD_INVON: u8 = 0x21;

/// Switch the panel on.
pub const CMD_DISPON: u8 = 0x29;

/// Set the columns of the window.
pub const CMD_CASET: u8 = 0x2a;

/// Set the rows of the window.
pub const CMD_RASET: u8 = 0x2b;

/// Stream pixels into the window.
pub const CMD_RAMWR: u8 = 0x2c;

/// Set the orientation.
pub const CMD_MADCTL: u8 = 0x36;

/// Set the colour format.
pub const CMD_COLMOD: u8 = 0x3a;

/// Landscape.
pub const MADCTL_LANDSCAPE: u8 = 0x60;

/// Sixteen bits for a pixel.
pub const COLMOD_RGB565: u8 = 0x55;

/// A command and its data, which are sent so many times over.
pub struct Frame {
    /// The command.
    pub cmd: u8,
    /// The data.
    pub data: Vec<u8>,
    /// How often the data are sent.
    pub times: u32,
}

/// A command and its data as the contracts see them.
#[verifier::ext_equal]
pub struct Sent {
    /// The command.
    pub cmd: u8,
    /// The data.
    pub data: Seq<u8>,
    /// How often the data are sent.
    pub times: nat,
}

impl Frame {
    /// What it sends.
    pub open spec fn view(&self) -> Sent {
        Sent { cmd: self.cmd, data: self.data@, times: self.times as nat }
    }
}

/// What some frames send.
pub open spec fn views(v: Seq<Frame>) -> Seq<Sent> {
    Seq::new(v.len(), |i: int| v[i]@)
}

/// A command without data.
pub open spec fn bare(cmd: u8) -> Sent {
    Sent { cmd, data: Seq::empty(), times: 1 }
}

/// The two ends of a range, the most significant bytes first.
pub open spec fn ends(a: int, b: int) -> Seq<u8> {
    seq![(a / 256) as u8, (a % 256) as u8, (b / 256) as u8, (b % 256) as u8]
}

/// The frames that stream data into a rectangle of the panel.
pub open spec fn drawing(x: int, y: int, w: int, h: int, data: Seq<u8>, times: nat) -> Seq<Sent> {
    seq![
        Sent { cmd: CMD_CASET, data: ends(x + XOFF, x + w - 1 + XOFF), times: 1 },
        Sent { cmd: CMD_RASET, data: ends(y + YOFF, y + h - 1 + YOFF), times: 1 },
        Sent { cmd: CMD_RAMWR, data, times },
    ]
}

fn push_ends(a: u16, b: u16) -> (v: Vec<u8>)
    ensures
        v@ == ends(a as int, b as int),
{
    let mut v: Vec<u8> = Vec::new();
    v.push((a / 256) as u8);
    v.push((a % 256) as u8);
    v.push((b / 256) as u8);
    v.push((b % 256) as u8);
    assert(v@ =~= ends(a as int, b as int));
    v
}

/// The frames that stream data into a rectangle that lies on the panel.
pub fn window(x: u16, y: u16, w: u16, h: u16, data: Vec<u8>, times: u32) -> (v: Vec<Frame>)
    requires
        w > 0,
        h > 0,
        x + w <= WIDTH,
        y + h <= HEIGHT,
    ensures
        views(v@) == drawing(x as int, y as int, w as int, h as int, data@, times as nat),
{
    let ghost bytes = data@;
    let mut v: Vec<Frame> = Vec::new();
    v.push(Frame { cmd: CMD_CASET, data: push_ends(x + XOFF, x + w - 1 + XOFF), times: 1 });
    v.push(Frame { cmd: CMD_RASET, data: push_ends(y + YOFF, y + h - 1 + YOFF), times: 1 });
    v.push(Frame { cmd: CMD_RAMWR, data, times });
    assert(views(v@) =~= drawing(x as int, y as int, w as int, h as int, bytes, times as nat));
    v
}

/// A pixel, the most significant byte first.
pub open spec fn pixel(color: u16) -> Seq<u8> {
    seq![(color / 256) as u8, (color % 256) as u8]
}

/// The smaller of two numbers.
pub open spec fn least(a: int, b: int) -> int {
    if a <= b {
        a
    } else {
        b
    }
}

/// The frames that fill the part of a rectangle that lies on the panel.
pub open spec fn filling(x: int, y: int, w: int, h: int, color: u16) -> Seq<Sent> {
    if x >= WIDTH || y >= HEIGHT || w == 0 || h == 0 {
        Seq::empty()
    } else {
        let cw = least(w, WIDTH - x);
        let ch = least(h, HEIGHT - y);
        drawing(x, y, cw, ch, pixel(color), (cw * ch) as nat)
    }
}

/// Fill the part of a rectangle that lies on the panel.
pub fn fill_rect(x: u16, y: u16, w: u16, h: u16, color: u16) -> (v: Vec<Frame>)
    ensures
        views(v@) == filling(x as int, y as int, w as int, h as int, color),
{
    if x >= WIDTH || y >= HEIGHT || w == 0 || h == 0 {
        let v: Vec<Frame> = Vec::new();
        assert(views(v@) =~= Seq::<Sent>::empty());
        return v;
    }
    let cw: u16 = if w <= WIDTH - x {
        w
    } else {
        WIDTH - x
    };
    let ch: u16 = if h <= HEIGHT - y {
        h
    } else {
        HEIGHT - y
    };
    let mut data: Vec<u8> = Vec::new();
    data.push((color / 256) as u8);
    data.push((color % 256) as u8);
    assert(data@ =~= pixel(color));
    assert(0 <= cw * ch <= 240 * 135) by (nonlinear_arith)
        requires
            cw <= 240,
            ch <= 135,
    ;
    window(x, y, cw, ch, data, cw as u32 * ch as u32)
}

/// Fill the panel.
pub fn fill(color: u16) -> (v: Vec<Frame>)
    ensures
        views(v@) == filling(0, 0, WIDTH as int, HEIGHT as int, color),
{
    fill_rect(0, 0, WIDTH, HEIGHT, color)
}

/// Fill a rectangle. One that begins off the panel is refused; one that
/// reaches beyond it is cut.
pub fn rect(x: u16, y: u16, w: u16, h: u16, color: u16) -> (r: Result<Vec<Frame>, St7789Error>)
    ensures
        r is Ok <==> x < WIDTH && y < HEIGHT,
        r matches Ok(v) ==> views(v@) == filling(x as int, y as int, w as int, h as int, color),
        r matches Err(e) ==> e == St7789Error::BadArg,
{
    if x >= WIDTH || y >= HEIGHT {
        return Err(St7789Error::BadArg);
    }
    Ok(fill_rect(x, y, w, h, color))
}

/// The colour of bar `i`: white, yellow, cyan, green, magenta, red, blue,
/// black.
pub open spec fn bar(i: int) -> u16 {
    if i == 0 {
        0xffff
    } else if i == 1 {
        0xffe0
    } else if i == 2 {
        0x07ff
    } else if i == 3 {
        0x07e0
    } else if i == 4 {
        0xf81f
    } else if i == 5 {
        0xf800
    } else if i == 6 {
        0x001f
    } else {
        0x0000
    }
}

/// The frames of the first `n` bars.
pub open spec fn bars_upto(n: nat) -> Seq<Sent>
    decreases n,
{
    if n == 0 {
        Seq::empty()
    } else {
        bars_upto((n - 1) as nat) + filling(
            (n - 1) * 30,
            0,
            30,
            HEIGHT as int,
            bar(n - 1),
        )
    }
}

fn append_frames(v: &mut Vec<Frame>, more: Vec<Frame>)
    ensures
        views(final(v)@) == views(old(v)@) + views(more@),
{
    let ghost before = v@;
    let ghost added = more@;
    let mut more = more;
    v.append(&mut more);
    assert(views(v@) =~= views(before) + views(added));
}

/// Draw the eight colour bars.
pub fn bars() -> (v: Vec<Frame>)
    ensures
        views(v@) == bars_upto(8),
{
    let colors: [u16; 8] = [0xffff, 0xffe0, 0x07ff, 0x07e0, 0xf81f, 0xf800, 0x001f, 0x0000];
    let mut v: Vec<Frame> = Vec::new();
    assert(views(v@) =~= bars_upto(0));
    let mut i: usize = 0;
    while i < 8
        invariant
            i <= 8,
            colors@ == seq![0xffffu16, 0xffe0, 0x07ff, 0x07e0, 0xf81f, 0xf800, 0x001f, 0x0000],
            views(v@) == bars_upto(i as nat),
        decreases 8 - i,
    {
        assert(colors@[i as int] == bar(i as int));
        let more: Vec<Frame> = fill_rect(i as u16 * 30, 0, 30, HEIGHT, colors[i]);
        append_frames(&mut v, more);
        i = i + 1;
    }
    v
}

/// The rows of a character's glyph, from the top; the lowest bit of each is
/// its left-most dot. They are those of the legacy font of `font8x8`.
pub uninterp spec fn font_rows(ch: u8) -> Seq<u8>;

/// Look a glyph up in `font8x8::legacy::BASIC_LEGACY` with the slice's `get`.
/// The table has a glyph for each code below 128 and for no other, and what
/// it holds for a code is what [`font_rows`] names.
#[verifier::external_body]
fn font_glyph(ch: u8) -> (r: Option<[u8; 8]>)
    ensures
        r is Some <==> ch < 128,
        r matches Some(g) ==> g@ == font_rows(ch),
{
    font8x8::legacy::BASIC_LEGACY.get(ch as usize).copied()
}

/// The rows that are drawn for a character: nothing beyond the font.
pub open spec fn glyph_rows(ch: u8) -> Seq<u8> {
    if ch < 128 {
        font_rows(ch)
    } else {
        crate::text::zeros(8)
    }
}

/// The colour of dot (`px`, `py`) of a cell: each dot of the glyph is two
/// pixels wide and two high, on black.
pub open spec fn dot(rows: Seq<u8>, color: u16, px: int, py: int) -> u16 {
    if words::bit(rows[py / 2], px / 2) {
        color
    } else {
        0
    }
}

/// The pixels of a cell, row by row.
pub open spec fn cell_pixels(rows: Seq<u8>, color: u16) -> Seq<u8> {
    Seq::new(512, |k: int| pixel(dot(rows, color, k / 2 % 16, k / 2 / 16))[k % 2])
}

/// The frames that draw a glyph in the cell at a column and a line.
pub open spec fn glyph_drawing(col: int, row: int, rows: Seq<u8>, color: u16) -> Seq<Sent> {
    drawing(col * CELL, row * CELL, CELL as int, CELL as int, cell_pixels(rows, color), 1)
}

/// Draw a glyph of eight rows in a cell.
pub fn glyph(col: u8, row: u8, rows: [u8; 8], color: u16) -> (v: Vec<Frame>)
    requires
        col < TEXT_COLS,
        row < TEXT_ROWS,
    ensures
        views(v@) == glyph_drawing(col as int, row as int, rows@, color),
{
    let mut data: Vec<u8> = Vec::new();
    let mut k: usize = 0;
    while k < 256
        invariant
            k <= 256,
            data@ == cell_pixels(rows@, color).take(2 * k as int),
        decreases 256 - k,
    {
        let on: bool = bit_of(rows[k / 16 / 2], k % 16 / 2);
        let c: u16 = if on {
            color
        } else {
            0
        };
        proof {
            let p = cell_pixels(rows@, color);
            assert(p[2 * k as int] == pixel(c)[0]);
            assert(p[2 * k + 1] == pixel(c)[1]) by {
                assert((2 * k + 1) / 2 == k);
            }
        }
        data.push((c / 256) as u8);
        data.push((c % 256) as u8);
        k = k + 1;
        assert(data@ =~= cell_pixels(rows@, color).take(2 * k as int));
    }
    assert(cell_pixels(rows@, color).take(512) =~= cell_pixels(rows@, color));
    window(col as u16 * CELL, row as u16 * CELL, CELL, CELL, data, 1)
}

/// The frames that draw the first `n` characters from cell `p` on, the cells
/// counted along the lines.
pub open spec fn text_drawing(p: int, chars: Seq<u8>, color: u16, n: nat) -> Seq<Sent>
    decreases n,
{
    if n == 0 {
        Seq::empty()
    } else {
        let q = p + n - 1;
        text_drawing(p, chars, color, (n - 1) as nat) + glyph_drawing(
            q % 15,
            q / 15,
            glyph_rows(chars[n - 1]),
            color,
        )
    }
}

/// How many characters are drawn from cell `p` on: no more than fit.
pub open spec fn drawn(p: int, n: nat) -> nat {
    least(least(n as int, TEXT_MAX as int), 120 - p) as nat
}

fn rows_of(ch: u8) -> (r: [u8; 8])
    ensures
        r@ == glyph_rows(ch),
{
    match font_glyph(ch) {
        Some(g) => g,
        None => {
            let z = [0u8;8];
            assert(z@ =~= crate::text::zeros(8));
            z
        },
    }
}

/// Draw characters from a cell on, over the ends of lines, until the last
/// cell. A cell off the panel is refused.
pub fn text(col: u8, row: u8, color: u16, chars: &[u8]) -> (r: Result<Vec<Frame>, St7789Error>)
    ensures
        r is Ok <==> col < TEXT_COLS && row < TEXT_ROWS,
        r matches Ok(v) ==> views(v@) == text_drawing(
            row * 15 + col,
            chars@,
            color,
            drawn(row * 15 + col, chars@.len()),
        ),
        r matches Err(e) ==> e == St7789Error::BadArg,
{
    if col >= TEXT_COLS || row >= TEXT_ROWS {
        return Err(St7789Error::BadArg);
    }
    let n: usize = if chars.len() < TEXT_MAX {
        chars.len()
    } else {
        TEXT_MAX
    };
    let ghost p = row * 15 + col;
    let mut c: u8 = col;
    let mut r: u8 = row;
    let mut v: Vec<Frame> = Vec::new();
    assert(views(v@) =~= Seq::<Sent>::empty());
    let mut i: usize = 0;
    while i < n && r < TEXT_ROWS
        invariant
            i <= n <= chars@.len(),
            c < TEXT_COLS,
            r <= TEXT_ROWS,
            r == TEXT_ROWS ==> c == 0,
            r * 15 + c == p + i,
            views(v@) == text_drawing(p, chars@, color, i as nat),
        decreases n - i,
    {
        let rows: [u8; 8] = rows_of(chars[i]);
        let more: Vec<Frame> = glyph(c, r, rows, color);
        append_frames(&mut v, more);
        proof {
            let q = p + i;
            assert(q % 15 == c && q / 15 == r);
        }
        i = i + 1;
        c = c + 1;
        if c >= TEXT_COLS {
            c = 0;
            r = r + 1;
        }
    }
    Ok(v)
}

/// A step of the panel's start.
pub enum Start {
    /// Set the reset line.
    Reset(bool),
    /// Wait for some milliseconds.
    Wait(u32),
    /// Send a frame.
    Send(Frame),
    /// Switch the backlight.
    Backlight(bool),
}

/// A step of the panel's start as the contracts see it.
#[verifier::ext_equal]
pub enum Started {
    /// Set the reset line.
    Reset(bool),
    /// Wait for some milliseconds.
    Wait(u32),
    /// Send a frame.
    Send(Sent),
    /// Switch the backlight.
    Backlight(bool),
}

impl Start {
    /// What it does.
    pub open spec fn view(&self) -> Started {
        match self {
            Start::Reset(b) => Started::Reset(*b),
            Start::Wait(ms) => Started::Wait(*ms),
            Start::Send(f) => Started::Send(f@),
            Start::Backlight(b) => Started::Backlight(*b),
        }
    }
}

/// What some steps do.
pub open spec fn starts(v: Seq<Start>) -> Seq<Started> {
    Seq::new(v.len(), |i: int| v[i]@)
}

/// The steps before the panel is cleared.
pub open spec fn wake_up() -> Seq<Started> {
    seq![
        Started::Reset(false),
        Started::Wait(1),
        Started::Reset(true),
        Started::Wait(120),
        Started::Send(bare(CMD_SLPOUT)),
        Started::Wait(120),
        Started::Send(Sent { cmd: CMD_COLMOD, data: seq![COLMOD_RGB565], times: 1 }),
        Started::Send(Sent { cmd: CMD_MADCTL, data: seq![MADCTL_LANDSCAPE], times: 1 }),
        Started::Send(bare(CMD_INVON)),
        Started::Send(bare(CMD_NORON)),
        Started::Send(bare(CMD_DISPON)),
        Started::Wait(20),
    ]
}

/// The frames as steps.
pub open spec fn sends(s: Seq<Sent>) -> Seq<Started> {
    Seq::new(s.len(), |i: int| Started::Send(s[i]))
}

fn send_bare(v: &mut Vec<Start>, cmd: u8)
    ensures
        starts(final(v)@) == starts(old(v)@).push(Started::Send(bare(cmd))),
{
    let f = Frame { cmd, data: Vec::new(), times: 1 };
    assert(f@ =~= bare(cmd));
    v.push(Start::Send(f));
    assert(starts(v@) =~= starts(old(v)@).push(Started::Send(bare(cmd))));
}

fn send_one(v: &mut Vec<Start>, cmd: u8, b: u8)
    ensures
        starts(final(v)@) == starts(old(v)@).push(
            Started::Send(Sent { cmd, data: seq![b], times: 1 }),
        ),
{
    let mut data: Vec<u8> = Vec::new();
    data.push(b);
    let f = Frame { cmd, data, times: 1 };
    assert(f@ =~= Sent { cmd, data: seq![b], times: 1 });
    v.push(Start::Send(f));
    assert(starts(v@) =~= starts(old(v)@).push(
        Started::Send(Sent { cmd, data: seq![b], times: 1 }),
    ));
}

fn push_step(v: &mut Vec<Start>, s: Start)
    ensures
        starts(final(v)@) == starts(old(v)@).push(s@),
{
    v.push(s);
    assert(starts(v@) =~= starts(old(v)@).push(s@));
}

/// Start the panel: it is cleared before the backlight comes on.
pub fn panel_init() -> (v: Vec<Start>)
    ensures
        starts(v@) == (wake_up() + sends(filling(0, 0, WIDTH as int, HEIGHT as int, 0))).push(
            Started::Backlight(true),
        ),
{
    let mut v: Vec<Start> = Vec::new();
    push_step(&mut v, Start::Reset(false));
    push_step(&mut v, Start::Wait(1));
    push_step(&mut v, Start::Reset(true));
    push_step(&mut v, Start::Wait(120));
    send_bare(&mut v, CMD_SLPOUT);
    push_step(&mut v, Start::Wait(120));
    send_one(&mut v, CMD_COLMOD, COLMOD_RGB565);
    send_one(&mut v, CMD_MADCTL, MADCTL_LANDSCAPE);
    send_bare(&mut v, CMD_INVON);
    send_bare(&mut v, CMD_NORON);
    send_bare(&mut v, CMD_DISPON);
    push_step(&mut v, Start::Wait(20));
    assert(starts(v@) =~= wake_up());
    let mut fs: Vec<Frame> = fill_rect(0, 0, WIDTH, HEIGHT, 0);
    let ghost all = views(fs@);
    assert(all.len() == 3);
    let raster: Option<Frame> = fs.pop();
    let rows: Option<Frame> = fs.pop();
    let cols: Option<Frame> = fs.pop();
    match (cols, rows, raster) {
        (Some(c), Some(r), Some(p)) => {
            assert(c@ == all[0] && r@ == all[1] && p@ == all[2]);
            push_step(&mut v, Start::Send(c));
            push_step(&mut v, Start::Send(r));
            push_step(&mut v, Start::Send(p));
        },
        _ => {
            assert(false);
        },
    }
    push_step(&mut v, Start::Backlight(true));
    assert(starts(v@) =~= (wake_up() + sends(all)).push(Started::Backlight(true)));
    v
}

/// The colour that a stream of pixels leaves at a point, when it goes row by
/// row into the window between two corners; none where it leaves the point
/// alone.
pub open spec fn streamed(
    x0: int,
    y0: int,
    x1: int,
    y1: int,
    data: Seq<u8>,
    times: nat,
    x: int,
    y: int,
) -> Option<u16> {
    let n = data.len() as int;
    let k = (y - y0) * (x1 - x0 + 1) + (x - x0);
    if x0 <= x <= x1 && y0 <= y <= y1 && 2 * k + 1 < n * times {
        Some((data[2 * k % n] * 256 + data[(2 * k + 1) % n]) as u16)
    } else {
        None
    }
}

/// The colour that a drawing leaves at a point of the panel: its first two
/// frames say which window its pixels go into.
pub open spec fn painted(s: Seq<Sent>, x: int, y: int) -> Option<u16> {
    streamed(
        s[0].data[0] * 256 + s[0].data[1] - XOFF,
        s[1].data[0] * 256 + s[1].data[1] - YOFF,
        s[0].data[2] * 256 + s[0].data[3] - XOFF,
        s[1].data[2] * 256 + s[1].data[3] - YOFF,
        s[2].data,
        s[2].times,
        x,
        y,
    )
}

proof fn window_reads_back(x: int, y: int, w: int, h: int, data: Seq<u8>, times: nat)
    requires
        0 <= x,
        0 <= y,
        0 < w,
        0 < h,
        x + w <= WIDTH,
        y + h <= HEIGHT,
    ensures
        forall|px: int, py: int|
            #[trigger] painted(drawing(x, y, w, h, data, times), px, py) == streamed(
                x,
                y,
                x + w - 1,
                y + h - 1,
                data,
                times,
                px,
                py,
            ),
{
    let s = drawing(x, y, w, h, data, times);
    assert(s[0].data[0] * 256 + s[0].data[1] == x + XOFF);
    assert(s[0].data[2] * 256 + s[0].data[3] == x + w - 1 + XOFF);
    assert(s[1].data[0] * 256 + s[1].data[1] == y + YOFF);
    assert(s[1].data[2] * 256 + s[1].data[3] == y + h - 1 + YOFF);
}

/// A fill paints the part of its rectangle that lies on the panel, all of it
/// and nothing else.
pub proof fn fills_paint_their_rectangle(
    x: int,
    y: int,
    w: int,
    h: int,
    color: u16,
    px: int,
    py: int,
)
    requires
        0 <= x < WIDTH,
        0 <= y < HEIGHT,
        0 < w,
        0 < h,
        0 <= px < WIDTH,
        0 <= py < HEIGHT,
    ensures
        painted(filling(x, y, w, h, color), px, py) == if x <= px < x + w && y <= py < y + h {
            Some(color)
        } else {
            None
        },
{
    let cw = least(w, WIDTH - x);
    let ch = least(h, HEIGHT - y);
    assert(cw * ch >= 0) by (nonlinear_arith)
        requires
            cw > 0,
            ch > 0,
    ;
    window_reads_back(x, y, cw, ch, pixel(color), (cw * ch) as nat);
    fill_streamed(x, y, cw, ch, color, px, py);
}

proof fn fill_streamed(x: int, y: int, w: int, h: int, color: u16, px: int, py: int)
    requires
        0 < w,
        0 < h,
        w * h >= 0,
    ensures
        streamed(x, y, x + w - 1, y + h - 1, pixel(color), (w * h) as nat, px, py) == if x <= px < x
            + w && y <= py < y + h {
            Some(color)
        } else {
            None
        },
{
    let k = (py - y) * (x + w - 1 - x + 1) + (px - x);
    assert(x + w - 1 - x + 1 == w);
    if x <= px < x + w && y <= py < y + h {
        assert(0 <= k < w * h) by (nonlinear_arith)
            requires
                k == (py - y) * (x + w - 1 - x + 1) + (px - x),
                0 <= py - y < h,
                0 <= px - x < w,
        ;
        assert(2 * k % 2 == 0 && (2 * k + 1) % 2 == 1);
        assert(pixel(color).len() * ((w * h) as nat) == 2 * (w * h));
        assert(pixel(color)[0] * 256 + pixel(color)[1] == color);
    }
}

/// A glyph paints its cell, dot by dot, and nothing else.
pub proof fn glyphs_paint_their_cell(
    col: int,
    row: int,
    rows: Seq<u8>,
    color: u16,
    px: int,
    py: int,
)
    requires
        0 <= col < TEXT_COLS,
        0 <= row < TEXT_ROWS,
        0 <= px < WIDTH,
        0 <= py < HEIGHT,
    ensures
        painted(glyph_drawing(col, row, rows, color), px, py) == if px / 16 == col && py / 16
            == row {
            Some(dot(rows, color, px % 16, py % 16))
        } else {
            None
        },
{
    let x0 = col * 16;
    let y0 = row * 16;
    window_reads_back(x0, y0, 16, 16, cell_pixels(rows, color), 1);
    cell_streamed(rows, color, x0, y0, px, py);
    assert(px / 16 == col <==> x0 <= px <= x0 + 15);
    assert(py / 16 == row <==> y0 <= py <= y0 + 15);
    if x0 <= px <= x0 + 15 {
        assert(px - x0 == px % 16);
    }
    if y0 <= py <= y0 + 15 {
        assert(py - y0 == py % 16);
    }
}

proof fn cell_streamed(rows: Seq<u8>, color: u16, x0: int, y0: int, px: int, py: int)
    ensures
        streamed(x0, y0, x0 + 15, y0 + 15, cell_pixels(rows, color), 1, px, py) == if x0 <= px
            <= x0 + 15 && y0 <= py <= y0 + 15 {
            Some(dot(rows, color, px - x0, py - y0))
        } else {
            None
        },
{
    let data = cell_pixels(rows, color);
    let k = (py - y0) * 16 + (px - x0);
    if x0 <= px <= x0 + 15 && y0 <= py <= y0 + 15 {
        cell_pixel(rows, color, px - x0, py - y0);
        assert(0 <= k < 256);
        assert(2 * k % 512 == 2 * k && (2 * k + 1) % 512 == 2 * k + 1);
        assert(data.len() * 1 == 512);
    }
}

proof fn cell_pixel(rows: Seq<u8>, color: u16, a: int, b: int)
    requires
        0 <= a < 16,
        0 <= b < 16,
    ensures
        cell_pixels(rows, color)[2 * (b * 16 + a)] * 256 + cell_pixels(rows, color)[2 * (b * 16 + a)
            + 1] == dot(rows, color, a, b),
{
    let k = b * 16 + a;
    let c = dot(rows, color, a, b);
    assert(2 * k / 2 == k && (2 * k + 1) / 2 == k);
    assert(k % 16 == a && k / 16 == b);
    assert(cell_pixels(rows, color)[2 * k] == pixel(c)[0]);
    assert(cell_pixels(rows, color)[2 * k + 1] == pixel(c)[1]);
}

/// The bars cover the panel: bar `i` paints its thirty columns from top to
/// bottom.
pub proof fn bars_cover_the_panel(px: int, py: int)
    requires
        0 <= px < WIDTH,
        0 <= py < HEIGHT,
    ensures
        painted(filling(px / 30 * 30, 0, 30, HEIGHT as int, bar(px / 30)), px, py) == Some(
            bar(px / 30),
        ),
{
    fills_paint_their_rectangle(px / 30 * 30, 0, 30, HEIGHT as int, bar(px / 30), px, py);
}

/// A character's cell is drawn for it and for no other: the frames of character `k`
/// are the three that begin at `3 * k`, for the cell that lies `k` cells further on.
pub proof fn characters_have_their_cells(p: int, chars: Seq<u8>, color: u16, n: nat, k: int)
    requires
        0 <= k < n <= chars.len(),
    ensures
        text_drawing(p, chars, color, n).len() == 3 * n,
        text_drawing(p, chars, color, n).subrange(3 * k, 3 * k + 3) == glyph_drawing(
            (p + k) % 15,
            (p + k) / 15,
            glyph_rows(chars[k]),
            color,
        ),
    decreases n,
{
    let m = (n - 1) as nat;
    let all = text_drawing(p, chars, color, n);
    if m == 0 {
        assert(text_drawing(p, chars, color, 0) =~= Seq::empty());
        assert(all.subrange(0, 3) =~= glyph_drawing(p % 15, p / 15, glyph_rows(chars[0]), color));
    } else if k < m {
        characters_have_their_cells(p, chars, color, m, k);
        assert(all.subrange(3 * k, 3 * k + 3) =~= text_drawing(p, chars, color, m).subrange(
            3 * k,
            3 * k + 3,
        ));
    } else {
        characters_have_their_cells(p, chars, color, m, 0);
        assert(all.subrange(3 * k, 3 * k + 3) =~= glyph_drawing(
            (p + k) % 15,
            (p + k) / 15,
            glyph_rows(chars[k]),
            color,
        ));
    }
}

/// A glyph's rows are drawn from the lowest bit on: the leftmost dot is the lowest
/// bit, and moving the bits down moves the dots to the left by one.
pub proof fn glyphs_begin_with_the_lowest_bit(
    rows: Seq<u8>,
    moved: Seq<u8>,
    color: u16,
    px: int,
    py: int,
)
    requires
        rows.len() == 8,
        moved.len() == 8,
        0 <= px < 14,
        0 <= py < 16,
        moved[py / 2] == rows[py / 2] / 2,
    ensures
        dot(rows, color, 0, py) == if rows[py / 2] % 2 == 1 {
            color
        } else {
            0
        },
        dot(moved, color, px, py) == dot(rows, color, px + 2, py),
        dot(moved, color, 14, py) == 0,
{
    words::bits_are_binary_digits(rows[py / 2], px / 2);
    assert((px + 2) / 2 == px / 2 + 1);
}

/// The bars run through the colours that the three lamps can give, from all on to
/// all off: blue changes with every bar, red with every second and green once.
pub proof fn bars_run_from_white_to_black(i: int)
    requires
        0 <= i < 8,
    ensures
        bar(i) / 0x800 == if i / 2 % 2 == 0 {
            0x1fu16
        } else {
            0
        },
        bar(i) / 0x20 % 0x40 == if i / 4 % 2 == 0 {
            0x3fu16
        } else {
            0
        },
        bar(i) % 0x20 == if i % 2 == 0 {
            0x1fu16
        } else {
            0
        },
{
}

} // verus!
