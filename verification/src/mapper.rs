//! The coordinate mapper: an aspect-preserving transform from device pixel
//! space to host screen space.
//!
//! All quantities are integers and the transform is computed exactly over the
//! rationals; only the final coordinate is cut to an integer, by truncation
//! toward zero.

use vstd::prelude::*;

verus! {

/// Position and size of the host window, in host-screen units.
#[derive(Clone, Copy, Debug, PartialEq, Eq, Structural)]
pub struct WindowGeometry {
    pub x: i32,
    pub y: i32,
    pub width: i32,
    pub height: i32,
}

/// Size of the device's native rendering surface, in device pixels.
#[derive(Clone, Copy, Debug, PartialEq, Eq, Structural)]
pub struct DeviceFrameSize {
    pub width: u32,
    pub height: u32,
}

/// Layout of the host window decoration. `top_inset` is the height, in
/// host-screen units, of the toolbar above the rendered device content. It is
/// a calibration value of the host environment, not a universal constant.
#[derive(Clone, Copy, Debug, PartialEq, Eq, Structural)]
pub struct Chrome {
    pub top_inset: u32,
}

/// A point in device pixel space.
#[derive(Clone, Copy, Debug, PartialEq, Eq, Structural)]
pub struct DevicePoint {
    pub x: i32,
    pub y: i32,
}

/// A point in host screen space.
#[derive(Clone, Copy, Debug, PartialEq, Eq, Structural)]
pub struct ScreenPoint {
    pub x: i64,
    pub y: i64,
}

impl View for ScreenPoint {
    type V = (int, int);

    open spec fn view(&self) -> (int, int) {
        (self.x as int, self.y as int)
    }
}

/// Why a device point could not be mapped.
#[derive(Clone, Copy, Debug, PartialEq, Eq, Structural)]
pub enum MapError {
    /// The frame has zero width or zero height.
    InvalidFrameSize,
    /// The scale factor is not positive: the window leaves no room for the
    /// device content.
    DegenerateGeometry,
}

/// Toolbar height assumed when the caller has no calibrated value.
pub const DEFAULT_TOP_INSET: u32 = 44;

/// Height of the window area below the chrome.
pub open spec fn content_height(g: WindowGeometry, c: Chrome) -> int {
    g.height - c.top_inset
}

/// Whether the horizontal ratio `width / frame.width` is the smaller of the
/// two axis ratios (ties go to the horizontal one).
pub open spec fn width_limits(g: WindowGeometry, f: DeviceFrameSize, c: Chrome) -> bool {
    g.width * f.height <= content_height(g, c) * f.width
}

/// Numerator of the scale factor `min(width / frame.width, content_height / frame.height)`.
pub open spec fn scale_num(g: WindowGeometry, f: DeviceFrameSize, c: Chrome) -> int {
    if width_limits(g, f, c) {
        g.width as int
    } else {
        content_height(g, c)
    }
}

/// Denominator of the scale factor.
pub open spec fn scale_den(g: WindowGeometry, f: DeviceFrameSize, c: Chrome) -> int {
    if width_limits(g, f, c) {
        f.width as int
    } else {
        f.height as int
    }
}

/// The rational `n / d` cut to an integer by dropping its fractional part.
pub open spec fn div_toward_zero(n: int, d: int) -> int
    recommends
        d > 0,
{
    if n >= 0 {
        n / d
    } else {
        -((-n) / d)
    }
}

/// Numerator, over `2 * scale_den`, of the exact horizontal screen coordinate
/// `g.x + (g.width - f.width * scale) / 2 + p.x * scale`.
pub open spec fn screen_x_num(p: DevicePoint, g: WindowGeometry, f: DeviceFrameSize, c: Chrome) -> int {
    let n = scale_num(g, f, c);
    let d = scale_den(g, f, c);
    2 * d * g.x + (g.width * d - f.width * n) + 2 * p.x * n
}

/// Numerator, over `2 * scale_den`, of the exact vertical screen coordinate
/// `g.y + top_inset + (content_height - f.height * scale) / 2 + p.y * scale`.
pub open spec fn screen_y_num(p: DevicePoint, g: WindowGeometry, f: DeviceFrameSize, c: Chrome) -> int {
    let n = scale_num(g, f, c);
    let d = scale_den(g, f, c);
    2 * d * (g.y + c.top_inset) + (content_height(g, c) * d - f.height * n) + 2 * p.y * n
}

/// What `to_screen` returns.
pub open spec fn to_screen_spec(
    p: DevicePoint,
    g: WindowGeometry,
    f: DeviceFrameSize,
    c: Chrome,
) -> Result<(int, int), MapError> {
    if f.width == 0 || f.height == 0 {
        Err(MapError::InvalidFrameSize)
    } else if scale_num(g, f, c) <= 0 {
        Err(MapError::DegenerateGeometry)
    } else {
        Ok(
            (
                div_toward_zero(screen_x_num(p, g, f, c), 2 * scale_den(g, f, c)),
                div_toward_zero(screen_y_num(p, g, f, c), 2 * scale_den(g, f, c)),
            ),
        )
    }
}

proof fn lemma_product_bound(a: int, b: int, ma: int, mb: int)
    by (nonlinear_arith)
    requires
        -ma <= a <= ma,
        0 <= b <= mb,
    ensures
        -(ma * mb) <= a * b <= ma * mb,
{
}

proof fn lemma_quotient_bound(n: int, d: int, b: int)
    by (nonlinear_arith)
    requires
        d > 0,
        b >= 0,
        0 <= n <= d * b,
    ensures
        0 <= n / d <= b,
{
}

/// Cuts `n / d` to an integer, toward zero.
fn quotient_toward_zero(n: i128, d: i128) -> (q: i64)
    requires
        0 < d <= 0x2_0000_0000,
        -(d * 0x7fff_ffff_ffff_ffff) <= n <= d * 0x7fff_ffff_ffff_ffff,
    ensures
        q == div_toward_zero(n as int, d as int),
{
    proof {
        lemma_product_bound(0x7fff_ffff_ffff_ffff, d as int, 0x7fff_ffff_ffff_ffff, 0x2_0000_0000);
    }
    if n >= 0 {
        proof {
            lemma_quotient_bound(n as int, d as int, 0x7fff_ffff_ffff_ffff);
        }
        (n / d) as i64
    } else {
        proof {
            lemma_quotient_bound(-(n as int), d as int, 0x7fff_ffff_ffff_ffff);
        }
        let m: i128 = -n;
        let q: i128 = m / d;
        (-q) as i64
    }
}

/// Maps a device-space point to the host-screen point where it is drawn.
///
/// The device frame is fitted into the window area below the chrome with one
/// scale factor for both axes and centred on both axes. The exact rational
/// coordinate is cut to an integer toward zero. No clamping is applied: a
/// device point outside the frame maps to a screen point outside the rendered
/// content.
pub fn to_screen(
    p: DevicePoint,
    g: &WindowGeometry,
    f: &DeviceFrameSize,
    c: &Chrome,
) -> (r: Result<ScreenPoint, MapError>)
    ensures
        match r {
            Ok(s) => to_screen_spec(p, *g, *f, *c) == Ok::<(int, int), MapError>(s@),
            Err(e) => to_screen_spec(p, *g, *f, *c) == Err::<(int, int), MapError>(e),
        },
{
    if f.width == 0 || f.height == 0 {
        return Err(MapError::InvalidFrameSize);
    }
    let gw: i128 = g.width as i128;
    let ch: i128 = g.height as i128 - c.top_inset as i128;
    let fw: i128 = f.width as i128;
    let fh: i128 = f.height as i128;
    proof {
        lemma_product_bound(gw as int, fh as int, 0x8000_0000, 0xffff_ffff);
        lemma_product_bound(ch as int, fw as int, 0x1_8000_0000, 0xffff_ffff);
    }
    let by_width: bool = gw * fh <= ch * fw;
    let n: i128 = if by_width { gw } else { ch };
    let d: i128 = if by_width { fw } else { fh };
    if n <= 0 {
        return Err(MapError::DegenerateGeometry);
    }
    assert(n == scale_num(*g, *f, *c) && d == scale_den(*g, *f, *c));
    let top: i128 = g.y as i128 + c.top_inset as i128;
    proof {
        lemma_product_bound(g.x as int, d as int, 0x8000_0000, 0xffff_ffff);
        lemma_product_bound(top as int, d as int, 0x1_8000_0000, 0xffff_ffff);
        lemma_product_bound(gw as int, d as int, 0x8000_0000, 0xffff_ffff);
        lemma_product_bound(ch as int, d as int, 0x1_8000_0000, 0xffff_ffff);
        lemma_product_bound(n as int, fw as int, 0x8000_0000, 0xffff_ffff);
        lemma_product_bound(n as int, fh as int, 0x8000_0000, 0xffff_ffff);
        lemma_product_bound(p.x as int, n as int, 0x8000_0000, 0x7fff_ffff);
        lemma_product_bound(p.y as int, n as int, 0x8000_0000, 0x7fff_ffff);
    }
    let slack_x: i128 = gw * d - fw * n;
    let slack_y: i128 = ch * d - fh * n;
    assert(gw > 0 && ch > 0) by (nonlinear_arith)
        requires
            n > 0,
            fw > 0,
            fh > 0,
            (gw * fh <= ch * fw && n == gw) || (gw * fh > ch * fw && n == ch),
    ;
    assert(0 <= slack_x <= gw * d && 0 <= slack_y <= ch * d) by (nonlinear_arith)
        requires
            slack_x == gw * d - fw * n,
            slack_y == ch * d - fh * n,
            n > 0,
            fw > 0,
            fh > 0,
            gw > 0,
            ch > 0,
            (gw * fh <= ch * fw && n == gw && d == fw) || (gw * fh > ch * fw && n == ch && d == fh),
    ;
    let x_num: i128 = 2 * (d * g.x as i128) + slack_x + 2 * (p.x as i128 * n);
    let y_num: i128 = 2 * (d * top) + slack_y + 2 * (p.y as i128 * n);
    let den: i128 = 2 * d;
    assert(x_num == screen_x_num(p, *g, *f, *c) && y_num == screen_y_num(p, *g, *f, *c))
        by (nonlinear_arith)
        requires
            x_num == 2 * (d * g.x) + (gw * d - fw * n) + 2 * (p.x * n),
            y_num == 2 * (d * top) + (ch * d - fh * n) + 2 * (p.y * n),
            n == scale_num(*g, *f, *c),
            d == scale_den(*g, *f, *c),
            gw == g.width,
            fw == f.width,
            fh == f.height,
            ch == content_height(*g, *c),
            top == g.y + c.top_inset,
    ;
    assert(-(den * 0x7fff_ffff_ffff_ffff) <= x_num <= den * 0x7fff_ffff_ffff_ffff
        && -(den * 0x7fff_ffff_ffff_ffff) <= y_num <= den * 0x7fff_ffff_ffff_ffff)
        by (nonlinear_arith)
        requires
            den == 2 * d,
            d >= 1,
            x_num == 2 * (d * g.x) + slack_x + 2 * (p.x * n),
            y_num == 2 * (d * top) + slack_y + 2 * (p.y * n),
            0 <= slack_x <= gw * d,
            0 <= slack_y <= ch * d,
            0 < gw <= 0x7fff_ffff,
            0 < ch <= 0x7fff_ffff,
            -0x8000_0000 <= g.x <= 0x7fff_ffff,
            -0x8000_0000 <= top <= 0x1_7fff_fffe,
            -(0x8000_0000 * 0x7fff_ffff) <= p.x * n <= 0x8000_0000 * 0x7fff_ffff,
            -(0x8000_0000 * 0x7fff_ffff) <= p.y * n <= 0x8000_0000 * 0x7fff_ffff,
    ;
    let x: i64 = quotient_toward_zero(x_num, den);
    let y: i64 = quotient_toward_zero(y_num, den);
    Ok(ScreenPoint { x, y })
}

/// Numerator, over `scale_den`, of the width at which the frame is drawn.
pub open spec fn rendered_width_num(g: WindowGeometry, f: DeviceFrameSize, c: Chrome) -> int {
    f.width * scale_num(g, f, c)
}

/// Numerator, over `scale_den`, of the height at which the frame is drawn.
pub open spec fn rendered_height_num(g: WindowGeometry, f: DeviceFrameSize, c: Chrome) -> int {
    f.height * scale_num(g, f, c)
}

/// The scale factor is the smaller of the two axis ratios: it is one of
/// `g.width / f.width` and `content_height / f.height`, and no larger than
/// either. So the frame is drawn inside the content area and touches it on at
/// least one axis.
pub proof fn lemma_scale_is_smaller_ratio(g: WindowGeometry, f: DeviceFrameSize, c: Chrome)
    requires
        f.width > 0,
        f.height > 0,
    ensures
        scale_den(g, f, c) > 0,
        scale_num(g, f, c) * f.width <= g.width * scale_den(g, f, c),
        scale_num(g, f, c) * f.height <= content_height(g, c) * scale_den(g, f, c),
        (scale_num(g, f, c) == g.width && scale_den(g, f, c) == f.width) || (scale_num(g, f, c)
            == content_height(g, c) && scale_den(g, f, c) == f.height),
        rendered_width_num(g, f, c) <= g.width * scale_den(g, f, c),
        rendered_height_num(g, f, c) <= content_height(g, c) * scale_den(g, f, c),
{
    let w = g.width as int;
    let ch = content_height(g, c);
    let fw = f.width as int;
    let fh = f.height as int;
    assert(w * fh == fh * w && ch * fw == fw * ch && w * fw == fw * w && ch * fh == fh * ch)
        by (nonlinear_arith);
}

/// One scale factor serves both axes: the drawn width is to the frame width
/// as the drawn height is to the frame height, and moving a device point by
/// `(dx, dy)` moves its exact screen position by `dx` and `dy` times the same
/// factor.
pub proof fn lemma_uniform_scale(
    p: DevicePoint,
    q: DevicePoint,
    g: WindowGeometry,
    f: DeviceFrameSize,
    c: Chrome,
)
    ensures
        rendered_width_num(g, f, c) * f.height == rendered_height_num(g, f, c) * f.width,
        screen_x_num(q, g, f, c) - screen_x_num(p, g, f, c) == 2 * (q.x - p.x) * scale_num(g, f, c),
        screen_y_num(q, g, f, c) - screen_y_num(p, g, f, c) == 2 * (q.y - p.y) * scale_num(g, f, c),
{
    let n = scale_num(g, f, c);
    let fw = f.width as int;
    let fh = f.height as int;
    assert((fw * n) * fh == (fh * n) * fw) by (nonlinear_arith);
    assert(2 * q.x * n - 2 * p.x * n == 2 * (q.x - p.x) * n) by (nonlinear_arith);
    assert(2 * q.y * n - 2 * p.y * n == 2 * (q.y - p.y) * n) by (nonlinear_arith);
}

/// A rational between two integers is cut to an integer between them.
proof fn lemma_cut_between(n: int, d: int, a: int, b: int)
    by (nonlinear_arith)
    requires
        d > 0,
        a * d <= n <= b * d,
    ensures
        a <= div_toward_zero(n, d) <= b,
{
}

/// Every point of the device frame is drawn inside the window, below the
/// chrome, provided the chrome leaves the window some height.
pub proof fn lemma_frame_maps_into_content(
    p: DevicePoint,
    g: WindowGeometry,
    f: DeviceFrameSize,
    c: Chrome,
)
    requires
        f.width > 0,
        f.height > 0,
        g.width > 0,
        g.height > c.top_inset,
        0 <= p.x <= f.width,
        0 <= p.y <= f.height,
    ensures
        to_screen_spec(p, g, f, c) is Ok,
        g.x <= to_screen_spec(p, g, f, c).unwrap().0 <= g.x + g.width,
        g.y + c.top_inset <= to_screen_spec(p, g, f, c).unwrap().1 <= g.y + g.height,
{
    lemma_scale_is_smaller_ratio(g, f, c);
    let n = scale_num(g, f, c);
    let d = scale_den(g, f, c);
    let w = g.width as int;
    let ch = content_height(g, c);
    let fw = f.width as int;
    let fh = f.height as int;
    let px = p.x as int;
    let py = p.y as int;
    let gx = g.x as int;
    let top = g.y + c.top_inset;
    assert(0 <= px * n <= fw * n && 0 <= py * n <= fh * n) by (nonlinear_arith)
        requires
            n > 0,
            0 <= px <= fw,
            0 <= py <= fh,
    ;
    assert(n * fw == fw * n && n * fh == fh * n) by (nonlinear_arith);
    assert(gx * (2 * d) == 2 * d * gx && (gx + w) * (2 * d) == 2 * d * gx + 2 * (w * d) && top * (2
        * d) == 2 * d * top && (top + ch) * (2 * d) == 2 * d * top + 2 * (ch * d)) by (nonlinear_arith);
    assert(2 * px * n == 2 * (px * n) && 2 * py * n == 2 * (py * n)) by (nonlinear_arith);
    lemma_cut_between(screen_x_num(p, g, f, c), 2 * d, gx, gx + w);
    lemma_cut_between(screen_y_num(p, g, f, c), 2 * d, top, top + ch);
}

/// The device origin is drawn inside the window, below the chrome, provided
/// the chrome leaves the window some height.
pub proof fn lemma_origin_maps_into_content(g: WindowGeometry, f: DeviceFrameSize, c: Chrome)
    requires
        f.width > 0,
        f.height > 0,
        g.width > 0,
        g.height > c.top_inset,
    ensures
        to_screen_spec(DevicePoint { x: 0, y: 0 }, g, f, c) is Ok,
        g.x <= to_screen_spec(DevicePoint { x: 0, y: 0 }, g, f, c).unwrap().0 <= g.x + g.width,
        g.y + c.top_inset <= to_screen_spec(DevicePoint { x: 0, y: 0 }, g, f, c).unwrap().1 <= g.y
            + g.height,
{
    lemma_frame_maps_into_content(DevicePoint { x: 0, y: 0 }, g, f, c);
}

/// A frame without width or height is refused, whatever the other inputs.
pub proof fn lemma_empty_frame_is_refused(
    p: DevicePoint,
    g: WindowGeometry,
    f: DeviceFrameSize,
    c: Chrome,
)
    requires
        f.width == 0 || f.height == 0,
    ensures
        to_screen_spec(p, g, f, c) == Err::<(int, int), MapError>(MapError::InvalidFrameSize),
{
}

} // verus!
