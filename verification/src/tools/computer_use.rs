//! The tool that looks at the screen and uses mouse and keyboard.
use crate::base64::{base64_text, encode_base64};
use crate::images::{
    encode_jpeg, encode_png, fitted_size, jpeg_bytes, png_bytes, resize_image, Raster,
};
use crate::json::{json_items, json_string, parse_items, parse_string};
use crate::request::{
    are_parts, part_of, parts_of, read_parts, ImageSize, LanguageModelImage,
    LanguageModelToolResultContent, PartView,
};
use crate::text::{
    ascii_lower, ascii_lower_str, contains, contains_str, debug_quoted, debug_str, dec, dec_int,
    dec_int_str, dec_str, eq_ignore_case, eq_ignore_case_str, join, join_strs, opt_text, parse_u64,
    parsed_unsigned, str_eq, to_chars, trim, trim_str, views,
};
use crate::tools::full_access::FULL_ACCESS_DISABLED;
use vstd::prelude::*;

verus! {

pub const COMPUTER_USE_NAME: &'static str = "computer_use";

/// The longest edge of an image that a model is sent.
pub const SCREENSHOT_MAX_EDGE: u32 = 1568;

pub const SCREENSHOT_JPEG_QUALITY: u8 = 85;

pub const STALE_SCALE: &'static str =
    "No fresh screenshot scale is available. Call action=screenshot first in this session, then pass image-pixel coordinates.";

/// What is asked of the tool. Coordinates are pixels of the latest image of the screen.
#[derive(Debug)]
pub struct ComputerUseToolInput {
    /// `screenshot`, `mouse_move`, `click`, `type` or `key`.
    pub action: String,
    pub x: Option<i32>,
    pub y: Option<i32>,
    pub text: Option<String>,
    pub button: Option<String>,
    pub monitor: Option<String>,
}

/// How an image of a monitor lies on the desktop.
#[derive(Clone, Copy, Debug, PartialEq, Eq, Structural)]
pub struct ScreenshotScale {
    pub image_w: i32,
    pub image_h: i32,
    pub capture_w: i32,
    pub capture_h: i32,
    /// The upper left corner of the monitor on the desktop.
    pub origin_x: i32,
    pub origin_y: i32,
}

/// A position on an axis of so many pixels, on another axis: the first and the last pixel stay
/// that, and everything is rounded and kept on the axis.
pub open spec fn mapped(pos: int, src_size: int, dst_size: int) -> int {
    if dst_size <= 1 {
        0
    } else if src_size <= 1 {
        kept_on(pos, dst_size)
    } else {
        kept_on((pos * (dst_size - 1) + (src_size - 1) / 2) / (src_size - 1), dst_size)
    }
}

/// A position, kept on an axis.
pub open spec fn kept_on(pos: int, size: int) -> int {
    if pos < 0 {
        0
    } else if pos > size - 1 {
        size - 1
    } else {
        pos
    }
}

/// A position on an axis of `src_size` pixels, on one of `dst_size`.
pub fn map_axis(pos: i32, src_size: i32, dst_size: i32) -> (r: i32)
    ensures
        r == mapped(pos as int, src_size as int, dst_size as int),
{
    if dst_size <= 1 {
        return 0;
    }
    if src_size <= 1 {
        return if pos < 0 {
            0
        } else if pos > dst_size - 1 {
            dst_size - 1
        } else {
            pos
        };
    }
    if pos < 0 {
        proof {
            lemma_before_axis(pos as int, src_size as int, dst_size as int);
        }
        return 0;
    }
    let src_max: u64 = (src_size - 1) as u64;
    let dst_max: u64 = (dst_size - 1) as u64;
    let p: u64 = pos as u64;
    assert(0 <= p * dst_max <= 0x8000_0000 * 0x8000_0000) by (nonlinear_arith)
        requires
            p <= 0x8000_0000,
            dst_max <= 0x8000_0000,
    ;
    let at: u64 = (p * dst_max + src_max / 2) / src_max;
    assert((pos as int) * (dst_size - 1) == p * dst_max);
    assert(at == (pos * (dst_size - 1) + (src_size - 1) / 2) / (src_size - 1));
    if at > dst_max {
        dst_size - 1
    } else {
        at as i32
    }
}

proof fn lemma_before_axis(pos: int, src_size: int, dst_size: int)
    requires
        pos < 0,
        src_size > 1,
        dst_size > 1,
    ensures
        mapped(pos, src_size, dst_size) == 0,
{
    let d = src_size - 1;
    let n = pos * (dst_size - 1) + d / 2;
    assert(pos * (dst_size - 1) <= -1) by (nonlinear_arith)
        requires
            pos < 0,
            dst_size > 1,
    ;
    assert(n < d);
    assert(n / d <= 0) by (nonlinear_arith)
        requires
            n < d,
            d > 0,
    ;
}

/// A position stays on the axis, the first and the last pixel stay that, and the order of
/// positions is kept.
pub proof fn lemma_mapping_keeps_axis(a: int, b: int, src_size: int, dst_size: int)
    requires
        src_size > 1,
        dst_size > 1,
        a <= b,
    ensures
        0 <= mapped(a, src_size, dst_size) < dst_size,
        mapped(0, src_size, dst_size) == 0,
        mapped(src_size - 1, src_size, dst_size) == dst_size - 1,
        mapped(a, src_size, dst_size) <= mapped(b, src_size, dst_size),
{
    let s = src_size - 1;
    let d = dst_size - 1;
    assert((0 * d + s / 2) / s == 0) by (nonlinear_arith)
        requires
            s > 0,
    ;
    assert((s * d + s / 2) / s == d) by (nonlinear_arith)
        requires
            s > 0,
            d > 0,
    ;
    let x = a * d + s / 2;
    let y = b * d + s / 2;
    assert(a * d <= b * d) by (nonlinear_arith)
        requires
            a <= b,
            d > 0,
    ;
    vstd::arithmetic::div_mod::lemma_div_is_ordered(x, y, s);
}

impl ScreenshotScale {
    /// Whether every pixel of the monitor has a place on the desktop.
    pub open spec fn wf(self) -> bool {
        &&& self.capture_w >= 1 ==> self.origin_x + self.capture_w - 1 <= i32::MAX
        &&& self.capture_h >= 1 ==> self.origin_y + self.capture_h - 1 <= i32::MAX
    }

    /// Where a pixel of the image lies on the desktop.
    pub open spec fn place(self, x: int, y: int) -> (int, int) {
        (
            self.origin_x + mapped(x, self.image_w as int, self.capture_w as int),
            self.origin_y + mapped(y, self.image_h as int, self.capture_h as int),
        )
    }

    pub fn map_image_to_virtual(&self, x: i32, y: i32) -> (r: (i32, i32))
        requires
            self.wf(),
        ensures
            (r.0 as int, r.1 as int) == self.place(x as int, y as int),
    {
        let local_x: i32 = map_axis(x, self.image_w, self.capture_w);
        let local_y: i32 = map_axis(y, self.image_h, self.capture_h);
        proof {
            lemma_on_axis(x as int, self.image_w as int, self.capture_w as int);
            lemma_on_axis(y as int, self.image_h as int, self.capture_h as int);
        }
        (self.origin_x + local_x, self.origin_y + local_y)
    }
}

proof fn lemma_on_axis(pos: int, src_size: int, dst_size: int)
    ensures
        0 <= mapped(pos, src_size, dst_size),
        dst_size >= 1 ==> mapped(pos, src_size, dst_size) <= dst_size - 1,
        dst_size < 1 ==> mapped(pos, src_size, dst_size) == 0,
{
}

// ---------------------------------------------------------------------------
// Actions
// ---------------------------------------------------------------------------

#[derive(Clone, Copy, Debug, PartialEq, Eq, Structural)]
pub enum MouseButton {
    Left,
    Right,
    Middle,
}

#[derive(Clone, Copy, Debug, PartialEq, Eq, Structural)]
pub enum KeyName {
    Return,
    Escape,
    Tab,
    Space,
    Backspace,
    Delete,
    UpArrow,
    DownArrow,
    LeftArrow,
    RightArrow,
    Unicode(char),
}

/// The key with this name, in any case.
pub open spec fn key_named(name: Seq<char>) -> Option<KeyName> {
    let n = ascii_lower(name);
    if n == "enter"@ || n == "return"@ {
        Some(KeyName::Return)
    } else if n == "escape"@ || n == "esc"@ {
        Some(KeyName::Escape)
    } else if n == "tab"@ {
        Some(KeyName::Tab)
    } else if n == "space"@ {
        Some(KeyName::Space)
    } else if n == "backspace"@ {
        Some(KeyName::Backspace)
    } else if n == "delete"@ {
        Some(KeyName::Delete)
    } else if n == "up"@ {
        Some(KeyName::UpArrow)
    } else if n == "down"@ {
        Some(KeyName::DownArrow)
    } else if n == "left"@ {
        Some(KeyName::LeftArrow)
    } else if n == "right"@ {
        Some(KeyName::RightArrow)
    } else if n.len() == 1 {
        Some(KeyName::Unicode(n[0]))
    } else {
        None
    }
}

pub fn parse_key(name: &str) -> (r: Result<KeyName, String>)
    ensures
        match key_named(name@) {
            Some(k) => r == Ok::<KeyName, String>(k),
            None => r matches Err(e) && e@ == "Unsupported key name."@,
        },
{
    let lower = ascii_lower_str(name);
    let n = lower.as_str();
    if str_eq(n, "enter") || str_eq(n, "return") {
        Ok(KeyName::Return)
    } else if str_eq(n, "escape") || str_eq(n, "esc") {
        Ok(KeyName::Escape)
    } else if str_eq(n, "tab") {
        Ok(KeyName::Tab)
    } else if str_eq(n, "space") {
        Ok(KeyName::Space)
    } else if str_eq(n, "backspace") {
        Ok(KeyName::Backspace)
    } else if str_eq(n, "delete") {
        Ok(KeyName::Delete)
    } else if str_eq(n, "up") {
        Ok(KeyName::UpArrow)
    } else if str_eq(n, "down") {
        Ok(KeyName::DownArrow)
    } else if str_eq(n, "left") {
        Ok(KeyName::LeftArrow)
    } else if str_eq(n, "right") {
        Ok(KeyName::RightArrow)
    } else {
        let v = to_chars(n);
        if v.len() == 1 {
            Ok(KeyName::Unicode(v[0]))
        } else {
            Err("Unsupported key name.".to_string())
        }
    }
}

/// The button with this name, in any case; the left one where none is named.
pub open spec fn button_named(name: Option<String>) -> Option<MouseButton> {
    let n = match name {
        Some(n) => ascii_lower(n@),
        None => ascii_lower("left"@),
    };
    if n == "left"@ {
        Some(MouseButton::Left)
    } else if n == "right"@ {
        Some(MouseButton::Right)
    } else if n == "middle"@ {
        Some(MouseButton::Middle)
    } else {
        None
    }
}

pub const UNSUPPORTED_BUTTON: &'static str = "Unsupported button. Use left, right, or middle.";

fn parse_button(name: &Option<String>) -> (r: Result<MouseButton, String>)
    ensures
        match button_named(*name) {
            Some(b) => r == Ok::<MouseButton, String>(b),
            None => r matches Err(e) && e@ == UNSUPPORTED_BUTTON@,
        },
{
    let lower = match name {
        Some(n) => ascii_lower_str(n.as_str()),
        None => ascii_lower_str("left"),
    };
    let n = lower.as_str();
    if str_eq(n, "left") {
        Ok(MouseButton::Left)
    } else if str_eq(n, "right") {
        Ok(MouseButton::Right)
    } else if str_eq(n, "middle") {
        Ok(MouseButton::Middle)
    } else {
        Err(UNSUPPORTED_BUTTON.to_string())
    }
}

/// What is done with the computer.
#[derive(Debug)]
pub enum ComputerAction {
    Screenshot { monitor: Option<String> },
    /// Moves the pointer to a place on the desktop, given as a pixel of the image.
    MoveMouse { x: i32, y: i32, screen_x: i32, screen_y: i32 },
    /// Moves the pointer first, if a place is given, and then clicks, if there is such a button.
    Click { move_to: Option<(i32, i32)>, button: Result<MouseButton, String> },
    Type { text: String },
    Key { name: String, key: KeyName },
}

/// What the tool knows from one call to the next: how the latest image lies on the desktop, as
/// long as nothing has been done since that may have changed what is to be seen.
#[derive(Debug)]
pub struct ComputerUseTool {
    pub last_scale: Option<ScreenshotScale>,
}

impl ComputerUseTool {
    pub open spec fn wf(&self) -> bool {
        self.last_scale matches Some(s) ==> s.wf()
    }

    /// Whether `r` is what is done, or why nothing is.
    pub open spec fn is_plan(
        &self,
        r: Result<ComputerAction, String>,
        input: ComputerUseToolInput,
    ) -> bool {
        let action = ascii_lower(input.action@);
        if action == "screenshot"@ {
            r matches Ok(ComputerAction::Screenshot { monitor }) && opt_text(monitor) == opt_text(
                input.monitor,
            )
        } else if action == "mouse_move"@ {
            match (input.x, input.y) {
                (None, _) => r matches Err(e) && e@ == "mouse_move requires x"@,
                (Some(_), None) => r matches Err(e) && e@ == "mouse_move requires y"@,
                (Some(px), Some(py)) => match self.last_scale {
                    None => r matches Err(e) && e@ == STALE_SCALE@,
                    Some(s) => r matches Ok(
                        ComputerAction::MoveMouse { x, y, screen_x, screen_y },
                    ) && x == px && y == py && (screen_x as int, screen_y as int) == s.place(
                        px as int,
                        py as int,
                    ),
                },
            }
        } else if action == "click"@ {
            if input.x is Some && input.y is Some && self.last_scale is None {
                r matches Err(e) && e@ == STALE_SCALE@
            } else {
                &&& r matches Ok(ComputerAction::Click { move_to, button })
                &&& match (input.x, input.y) {
                    (Some(px), Some(py)) => move_to matches Some(p) && (
                        p.0 as int,
                        p.1 as int,
                    ) == self.last_scale->0.place(px as int, py as int),
                    _ => move_to is None,
                }
                &&& match button_named(input.button) {
                    Some(b) => button == Ok::<MouseButton, String>(b),
                    None => button matches Err(e) && e@ == UNSUPPORTED_BUTTON@,
                }
            }
        } else if action == "type"@ {
            match input.text {
                None => r matches Err(e) && e@ == "type requires text"@,
                Some(t) => r matches Ok(ComputerAction::Type { text }) && text@ == t@,
            }
        } else if action == "key"@ {
            match input.text {
                None => r matches Err(e) && e@ == "key requires a key name in text"@,
                Some(t) => match key_named(t@) {
                    Some(k) => r matches Ok(ComputerAction::Key { name, key }) && name@ == t@
                        && key == k,
                    None => r matches Err(e) && e@ == "Unsupported key name."@,
                },
            }
        } else {
            r matches Err(e) && e@
                == "Unsupported action. Use screenshot, mouse_move, click, type, or key."@
        }
    }

    pub fn new() -> (r: Self)
        ensures
            r.last_scale is None,
            r.wf(),
    {
        ComputerUseTool { last_scale: None }
    }

    /// Decides what is done.
    pub fn plan(&self, input: &ComputerUseToolInput) -> (r: Result<ComputerAction, String>)
        requires
            self.wf(),
        ensures
            self.is_plan(r, *input),
    {
        let lower = ascii_lower_str(input.action.as_str());
        let action = lower.as_str();
        if str_eq(action, "screenshot") {
            return Ok(
                ComputerAction::Screenshot {
                    monitor: match &input.monitor {
                        Some(m) => Some(m.clone()),
                        None => None,
                    },
                },
            );
        }
        if str_eq(action, "mouse_move") {
            let x: i32 = match input.x {
                Some(x) => x,
                None => {
                    return Err("mouse_move requires x".to_string());
                },
            };
            let y: i32 = match input.y {
                Some(y) => y,
                None => {
                    return Err("mouse_move requires y".to_string());
                },
            };
            return match self.last_scale {
                Some(s) => {
                    let (screen_x, screen_y) = s.map_image_to_virtual(x, y);
                    Ok(ComputerAction::MoveMouse { x, y, screen_x, screen_y })
                },
                None => Err(STALE_SCALE.to_string()),
            };
        }
        if str_eq(action, "click") {
            let move_to: Option<(i32, i32)> = match (input.x, input.y) {
                (Some(x), Some(y)) => match self.last_scale {
                    Some(s) => Some(s.map_image_to_virtual(x, y)),
                    None => {
                        return Err(STALE_SCALE.to_string());
                    },
                },
                _ => None,
            };
            return Ok(ComputerAction::Click { move_to, button: parse_button(&input.button) });
        }
        if str_eq(action, "type") {
            return match &input.text {
                Some(t) => Ok(ComputerAction::Type { text: t.clone() }),
                None => Err("type requires text".to_string()),
            };
        }
        if str_eq(action, "key") {
            return match &input.text {
                Some(t) => match parse_key(t.as_str()) {
                    Ok(key) => Ok(ComputerAction::Key { name: t.clone(), key }),
                    Err(e) => Err(e),
                },
                None => Err("key requires a key name in text".to_string()),
            };
        }
        Err("Unsupported action. Use screenshot, mouse_move, click, type, or key.".to_string())
    }

    /// Takes note of a new image.
    pub fn captured(&mut self, scale: ScreenshotScale)
        requires
            scale.wf(),
        ensures
            final(self).last_scale == Some(scale),
            final(self).wf(),
    {
        self.last_scale = Some(scale);
    }
}

/// After a click, typing or a key nothing can be aimed at until a new image was taken.
pub proof fn lemma_aiming_needs_fresh_image(
    tool: ComputerUseTool,
    r: Result<ComputerAction, String>,
    input: ComputerUseToolInput,
)
    requires
        tool.last_scale is None,
        tool.is_plan(r, input),
        input.x is Some,
        input.y is Some,
        ascii_lower(input.action@) == "mouse_move"@ || ascii_lower(input.action@) == "click"@,
    ensures
        r is Err,
{
    reveal_strlit("screenshot");
    reveal_strlit("mouse_move");
    reveal_strlit("click");
    assert("screenshot"@[0] != "mouse_move"@[0]);
    assert("screenshot"@.len() != "click"@.len());
    assert("mouse_move"@.len() != "click"@.len());
}

// ---------------------------------------------------------------------------
// Monitors
// ---------------------------------------------------------------------------

/// What is known of a monitor.
#[derive(Debug)]
pub struct MonitorInfo {
    pub name: Option<String>,
    pub is_primary: bool,
    pub x: i32,
    pub y: i32,
    pub width: u32,
    pub height: u32,
}

pub open spec fn monitor_name(m: MonitorInfo) -> Seq<char> {
    match m.name {
        Some(n) => n@,
        None => "unknown"@,
    }
}

/// A monitor as it stands in the list.
pub open spec fn monitor_line(m: MonitorInfo, index: int) -> Seq<char> {
    "- ["@ + dec(index as nat) + "] "@ + monitor_name(m) + (if m.is_primary {
        " (primary)"@
    } else {
        ""@
    }) + " origin=("@ + dec_int(m.x as int) + ","@ + dec_int(m.y as int) + ") size="@ + dec(
        m.width as nat,
    ) + "x"@ + dec(m.height as nat)
}

pub open spec fn monitor_lines(monitors: Seq<MonitorInfo>) -> Seq<Seq<char>> {
    Seq::new(monitors.len(), |i: int| monitor_line(monitors[i], i))
}

pub open spec fn catalog(monitors: Seq<MonitorInfo>) -> Seq<char> {
    join(monitor_lines(monitors), "\n"@)
}

/// The monitors, one a line.
pub fn format_monitor_catalog(monitors: &Vec<MonitorInfo>) -> (r: String)
    ensures
        r@ == catalog(monitors@),
{
    let ghost all = monitor_lines(monitors@);
    let mut lines: Vec<String> = Vec::new();
    let n: usize = monitors.len();
    let mut i: usize = 0;
    assert(views(lines@) =~= all.take(0));
    while i < n
        invariant
            i <= n,
            n == monitors@.len(),
            all == monitor_lines(monitors@),
            views(lines@) == all.take(i as int),
        decreases n - i,
    {
        let ghost before = views(lines@);
        let m = &monitors[i];
        let mut l = "- [".to_string();
        l.append(dec_str(i as u64).as_str());
        l.append("] ");
        match &m.name {
            Some(name) => l.append(name.as_str()),
            None => l.append("unknown"),
        }
        l.append(
            if m.is_primary {
                " (primary)"
            } else {
                ""
            },
        );
        l.append(" origin=(");
        l.append(dec_int_str(m.x as i64).as_str());
        l.append(",");
        l.append(dec_int_str(m.y as i64).as_str());
        l.append(") size=");
        l.append(dec_str(m.width as u64).as_str());
        l.append("x");
        l.append(dec_str(m.height as u64).as_str());
        let ghost line = l@;
        lines.push(l);
        assert(views(lines@) =~= before.push(line));
        assert(all.take(i + 1) =~= before.push(all[i as int]));
        i = i + 1;
    }
    assert(all.take(n as int) =~= all);
    join_strs(&lines, "\n")
}

/// The first primary monitor, at `i` or behind it.
pub open spec fn primary_from(monitors: Seq<MonitorInfo>, i: int) -> Option<int>
    decreases monitors.len() - i,
{
    if i < 0 || i >= monitors.len() {
        None
    } else if monitors[i].is_primary {
        Some(i)
    } else {
        primary_from(monitors, i + 1)
    }
}

/// Whether the name of a monitor holds a text that is in lower case.
pub open spec fn name_holds(m: MonitorInfo, needle: Seq<char>) -> bool {
    m.name matches Some(n) && contains(ascii_lower(n@), needle)
}

/// The monitors whose names hold a text.
pub open spec fn holding(monitors: Seq<MonitorInfo>, needle: Seq<char>) -> Seq<int>
    decreases monitors.len(),
{
    if monitors.len() == 0 {
        Seq::empty()
    } else if name_holds(monitors.last(), needle) {
        holding(monitors.drop_last(), needle).push(monitors.len() - 1)
    } else {
        holding(monitors.drop_last(), needle)
    }
}

/// Which monitor is meant, or why none is.
pub open spec fn monitor_of(monitors: Seq<MonitorInfo>, selector: Option<Seq<char>>) -> Result<
    int,
    Seq<char>,
> {
    let s = match selector {
        Some(s) => trim(s),
        None => Seq::empty(),
    };
    if s.len() == 0 {
        match primary_from(monitors, 0) {
            Some(i) => Ok(i),
            None => if monitors.len() > 0 {
                Ok(0)
            } else {
                Err("No monitors were found."@)
            },
        }
    } else if eq_ignore_case(s, "primary"@) {
        match primary_from(monitors, 0) {
            Some(i) => Ok(i),
            None => Err("No primary monitor was found."@),
        }
    } else {
        match parsed_unsigned(s, usize::MAX as nat) {
            Some(i) => if i < monitors.len() {
                Ok(i as int)
            } else {
                Err(
                    "Monitor index "@ + dec(i) + " is out of range (0.."@ + dec(
                        if monitors.len() > 0 {
                            (monitors.len() - 1) as nat
                        } else {
                            0
                        },
                    ) + ")."@,
                )
            },
            None => {
                let found = holding(monitors, ascii_lower(s));
                if found.len() == 1 {
                    Ok(found[0])
                } else if found.len() == 0 {
                    Err(
                        "No monitor name contains "@ + debug_quoted(s) + ". Available:\n"@
                            + catalog(monitors),
                    )
                } else {
                    Err(
                        "Multiple monitors match "@ + debug_quoted(s)
                            + ". Use an index instead. Available:\n"@ + catalog(monitors),
                    )
                }
            },
        }
    }
}

fn find_primary(monitors: &Vec<MonitorInfo>) -> (r: Option<usize>)
    ensures
        match r {
            Some(i) => i < monitors@.len() && primary_from(monitors@, 0) == Some(i as int),
            None => primary_from(monitors@, 0) is None,
        },
{
    let mut i: usize = 0;
    while i < monitors.len()
        invariant
            i <= monitors@.len(),
            primary_from(monitors@, i as int) == primary_from(monitors@, 0),
        decreases monitors@.len() - i,
    {
        if monitors[i].is_primary {
            return Some(i);
        }
        i = i + 1;
    }
    None
}

fn find_holding(monitors: &Vec<MonitorInfo>, needle: &str) -> (r: Vec<usize>)
    ensures
        r@.len() == holding(monitors@, needle@).len(),
        forall|i: int|
            0 <= i < r@.len() ==> #[trigger] r@[i] < monitors@.len() && r@[i] == holding(
                monitors@,
                needle@,
            )[i],
{
    let mut r: Vec<usize> = Vec::new();
    let mut i: usize = 0;
    assert(monitors@.take(0) =~= Seq::<MonitorInfo>::empty());
    while i < monitors.len()
        invariant
            i <= monitors@.len(),
            r@.len() == holding(monitors@.take(i as int), needle@).len(),
            forall|j: int|
                0 <= j < r@.len() ==> #[trigger] r@[j] < i && r@[j] == holding(
                    monitors@.take(i as int),
                    needle@,
                )[j],
        decreases monitors@.len() - i,
    {
        assert(monitors@.take(i + 1).drop_last() =~= monitors@.take(i as int));
        let holds = match &monitors[i].name {
            Some(n) => contains_str(ascii_lower_str(n.as_str()).as_str(), needle),
            None => false,
        };
        if holds {
            r.push(i);
        }
        i = i + 1;
    }
    assert(monitors@.take(monitors@.len() as int) =~= monitors@);
    r
}

/// Which monitor is meant: the primary one, one with a number, or the one whose name holds a text.
pub fn select_monitor(monitors: &Vec<MonitorInfo>, selector: Option<&str>) -> (r: Result<
    usize,
    String,
>)
    ensures
        match monitor_of(
            monitors@,
            match selector {
                Some(s) => Some(s@),
                None => None,
            },
        ) {
            Ok(i) => r matches Ok(k) && k == i && k < monitors@.len(),
            Err(e) => r matches Err(m) && m@ == e,
        },
{
    let selected = match selector {
        Some(s) => trim_str(s),
        None => {
            let s = String::new();
            assert(s@ =~= Seq::<char>::empty());
            s
        },
    };
    let s = selected.as_str();
    if s.is_empty() {
        return match find_primary(monitors) {
            Some(i) => Ok(i),
            None => if monitors.len() > 0 {
                Ok(0)
            } else {
                Err("No monitors were found.".to_string())
            },
        };
    }
    if eq_ignore_case_str(s, "primary") {
        return match find_primary(monitors) {
            Some(i) => Ok(i),
            None => Err("No primary monitor was found.".to_string()),
        };
    }
    let number: Option<u64> = parse_u64(s);
    match number {
        Some(n) => {
            if n <= usize::MAX as u64 {
                let count: usize = monitors.len();
                if n < count as u64 {
                    return Ok(n as usize);
                }
                let last: usize = if count > 0 {
                    count - 1
                } else {
                    0
                };
                let mut m = "Monitor index ".to_string();
                m.append(dec_str(n).as_str());
                m.append(" is out of range (0..");
                m.append(dec_str(last as u64).as_str());
                m.append(").");
                return Err(m);
            }
        },
        None => {},
    }
    let found = find_holding(monitors, ascii_lower_str(s).as_str());
    if found.len() == 1 {
        return Ok(found[0]);
    }
    let mut m = if found.len() == 0 {
        "No monitor name contains ".to_string()
    } else {
        "Multiple monitors match ".to_string()
    };
    m.append(debug_str(s).as_str());
    if found.len() == 0 {
        m.append(". Available:\n");
    } else {
        m.append(". Use an index instead. Available:\n");
    }
    m.append(format_monitor_catalog(monitors).as_str());
    Err(m)
}

/// How an image was taken. How much smaller it is than the screen is written out.
#[derive(Debug)]
pub struct CaptureFacts {
    pub name: String,
    pub scale: ScreenshotScale,
    pub scale_x: String,
    pub scale_y: String,
}

/// What a model is told of an image of the screen.
pub fn screenshot_metadata(facts: &CaptureFacts, monitors: &Vec<MonitorInfo>) -> (r: String)
    ensures
        r@ == "screenshot: monitor="@ + debug_quoted(facts.name@) + " origin=("@ + dec_int(
            facts.scale.origin_x as int,
        ) + ","@ + dec_int(facts.scale.origin_y as int) + ") image="@ + dec_int(
            facts.scale.image_w as int,
        ) + "x"@ + dec_int(facts.scale.image_h as int) + " capture="@ + dec_int(
            facts.scale.capture_w as int,
        ) + "x"@ + dec_int(facts.scale.capture_h as int) + " scale_x="@ + facts.scale_x@
            + " scale_y="@ + facts.scale_y@
            + "\nCoordinates in mouse_move/click must be in IMAGE pixels; LEAD maps them onto this monitor's virtual-desktop position.\nAfter click/type/key, take a new screenshot before the next targeted mouse action.\nAvailable monitors:\n"@
            + catalog(monitors@),
{
    let mut r = "screenshot: monitor=".to_string();
    r.append(debug_str(facts.name.as_str()).as_str());
    r.append(" origin=(");
    r.append(dec_int_str(facts.scale.origin_x as i64).as_str());
    r.append(",");
    r.append(dec_int_str(facts.scale.origin_y as i64).as_str());
    r.append(") image=");
    r.append(dec_int_str(facts.scale.image_w as i64).as_str());
    r.append("x");
    r.append(dec_int_str(facts.scale.image_h as i64).as_str());
    r.append(" capture=");
    r.append(dec_int_str(facts.scale.capture_w as i64).as_str());
    r.append("x");
    r.append(dec_int_str(facts.scale.capture_h as i64).as_str());
    r.append(" scale_x=");
    r.append(facts.scale_x.as_str());
    r.append(" scale_y=");
    r.append(facts.scale_y.as_str());
    r.append(
        "\nCoordinates in mouse_move/click must be in IMAGE pixels; LEAD maps them onto this monitor's virtual-desktop position.\nAfter click/type/key, take a new screenshot before the next targeted mouse action.\nAvailable monitors:\n",
    );
    r.append(format_monitor_catalog(monitors).as_str());
    r
}

// ---------------------------------------------------------------------------
// Images
// ---------------------------------------------------------------------------

/// Whether an image is too large for a model.
pub open spec fn is_too_large(width: u32, height: u32) -> bool {
    width > SCREENSHOT_MAX_EDGE || height > SCREENSHOT_MAX_EDGE
}

pub fn needs_scaling(width: u32, height: u32) -> (r: bool)
    ensures
        r == is_too_large(width, height),
{
    width > SCREENSHOT_MAX_EDGE || height > SCREENSHOT_MAX_EDGE
}

/// Whether `r` is how a model is sent an image: as a JPEG, or else as a PNG.
pub open spec fn is_encoded(r: Result<LanguageModelImage, String>, image: Raster) -> bool {
    match jpeg_bytes(image.width, image.height, image.rgba@, SCREENSHOT_JPEG_QUALITY) {
        Ok(bytes) => {
            &&& r matches Ok(i)
            &&& i.source@ == base64_text(bytes)
            &&& i.size.width == image.width as i32
            &&& i.size.height == image.height as i32
            &&& i.mime_type@ == "image/jpeg"@
        },
        Err(_) => match png_bytes(image.width, image.height, image.rgba@) {
            Ok(bytes) => {
                &&& r matches Ok(i)
                &&& i.source@ == base64_text(bytes)
                &&& i.size.width == image.width as i32
                &&& i.size.height == image.height as i32
                &&& i.mime_type@ == "image/png"@
            },
            Err(e) => r matches Err(m) && m@ == e,
        },
    }
}

/// Encodes an image that is small enough.
pub fn encode_image(image: &Raster) -> (r: Result<LanguageModelImage, String>)
    requires
        image.wf(),
    ensures
        is_encoded(r, *image),
{
    let size = ImageSize {
        width: #[verifier::truncate] (image.width as i32),
        height: #[verifier::truncate] (image.height as i32),
    };
    match encode_jpeg(image, SCREENSHOT_JPEG_QUALITY) {
        Ok(bytes) => Ok(
            LanguageModelImage {
                source: encode_base64(bytes.as_slice()),
                size,
                mime_type: "image/jpeg".to_string(),
            },
        ),
        Err(_) => match encode_png(image) {
            Ok(bytes) => Ok(
                LanguageModelImage {
                    source: encode_base64(bytes.as_slice()),
                    size,
                    mime_type: "image/png".to_string(),
                },
            ),
            Err(e) => Err(e),
        },
    }
}

/// Whether an image has the size that another has once it is made to fit.
pub open spec fn is_fitted(scaled: Raster, image: Raster, width: u32, height: u32) -> bool {
    &&& (scaled.width, scaled.height) == fitted_size(image.width, image.height, width, height)
    &&& 1 <= scaled.width <= width
    &&& 1 <= scaled.height <= height
    &&& scaled.width == width || scaled.height == height
}

/// Encodes an image of the screen for a model. One that is too large is first made to fit
/// `scaled_width` and `scaled_height`.
pub fn encode_screenshot_for_model(image: Raster, scaled_width: u32, scaled_height: u32) -> (r:
    Result<LanguageModelImage, String>)
    requires
        image.wf(),
        is_too_large(image.width, image.height) ==> image.width > 0 && image.height > 0
            && scaled_width > 0 && scaled_height > 0,
    ensures
        if is_too_large(image.width, image.height) {
            exists|scaled: Raster| #[trigger]
                is_encoded(r, scaled) && scaled.wf() && is_fitted(
                    scaled,
                    image,
                    scaled_width,
                    scaled_height,
                )
        } else {
            is_encoded(r, image)
        },
{
    if needs_scaling(image.width, image.height) {
        let scaled = resize_image(&image, scaled_width, scaled_height);
        let r = encode_image(&scaled);
        assert(is_encoded(r, scaled));
        r
    } else {
        encode_image(&image)
    }
}

/// What the tool gives: the parts of a result, or a text.
#[derive(Debug)]
pub enum ComputerUseToolOutput {
    Parts(Vec<LanguageModelToolResultContent>),
    Text(String),
}

impl ComputerUseToolOutput {
    /// The parts that a model is sent.
    pub fn into_parts(self) -> (r: Vec<LanguageModelToolResultContent>)
        ensures
            match self {
                ComputerUseToolOutput::Parts(parts) => r == parts,
                ComputerUseToolOutput::Text(text) => r@ == seq![
                    LanguageModelToolResultContent::Text(text),
                ],
            },
    {
        match self {
            ComputerUseToolOutput::Parts(parts) => parts,
            ComputerUseToolOutput::Text(text) => vec![LanguageModelToolResultContent::Text(text)],
        }
    }

    /// Reads a stored result: several parts, a text, or the single part that was stored before
    /// there could be several.
    pub fn from_json(value: &str) -> (r: Result<Self, String>)
        ensures
            match r {
                Ok(ComputerUseToolOutput::Parts(parts)) => stored_output(value@) matches Some(
                    StoredOutput::Parts(p),
                ) && are_parts(parts@, p),
                Ok(ComputerUseToolOutput::Text(text)) => stored_output(value@) == Some(
                    StoredOutput::Text(text@),
                ),
                Err(e) => stored_output(value@) is None && e@ == UNSUPPORTED_OUTPUT@,
            },
    {
        if let Some(items) = parse_items(value) {
            if let Ok(parts) = read_parts(&items) {
                return Ok(ComputerUseToolOutput::Parts(parts));
            }
        }
        if let Some(text) = parse_string(value) {
            return Ok(ComputerUseToolOutput::Text(text));
        }
        match LanguageModelToolResultContent::from_value(value) {
            Ok(part) => {
                let parts: Vec<LanguageModelToolResultContent> = vec![part];
                Ok(ComputerUseToolOutput::Parts(parts))
            },
            Err(_) => Err(UNSUPPORTED_OUTPUT.to_string()),
        }
    }
}

pub const UNSUPPORTED_OUTPUT: &'static str = "unsupported computer_use tool output shape";

/// What a stored result is read as.
pub ghost enum StoredOutput {
    Parts(Seq<PartView>),
    Text(Seq<char>),
}

pub open spec fn stored_parts(value: Seq<char>) -> Option<Seq<PartView>> {
    match json_items(value) {
        Some(items) => match parts_of(items) {
            Ok(parts) => Some(parts),
            Err(_) => None,
        },
        None => None,
    }
}

pub open spec fn stored_output(value: Seq<char>) -> Option<StoredOutput> {
    match stored_parts(value) {
        Some(parts) => Some(StoredOutput::Parts(parts)),
        None => match json_string(value) {
            Some(text) => Some(StoredOutput::Text(text)),
            None => match part_of(value) {
                Some(part) => Some(StoredOutput::Parts(seq![part])),
                None => None,
            },
        },
    }
}

// ---------------------------------------------------------------------------
// The tool, one step at a time
// ---------------------------------------------------------------------------

/// An image of a monitor, what a model is told of it, and how it lies on the desktop.
#[derive(Debug)]
pub struct Capture {
    pub image: LanguageModelImage,
    pub metadata: String,
    pub scale: ScreenshotScale,
}

/// What a call of the tool waits for.
#[derive(Debug)]
pub enum ComputerRun {
    Asking { input: ComputerUseToolInput },
    Capturing,
    /// The pointer moves to a pixel of the image, which is at a place on the desktop.
    Moving { x: i32, y: i32, screen_x: i32, screen_y: i32 },
    /// The pointer moves to where the button, if there is such a one, is pressed.
    Aiming { button: Result<MouseButton, String> },
    Clicking,
    Typing { text: String },
    Pressing { name: String },
    Done,
}

#[derive(Debug)]
pub enum ComputerEvent {
    /// A user has answered, or why not.
    Answered(Result<(), String>),
    Captured(Result<Capture, String>),
    Moved(Result<(), String>),
    /// A button was clicked, or why not.
    Clicked(Result<(), String>),
    Typed(Result<(), String>),
    Pressed(Result<(), String>),
}

#[derive(Debug)]
pub enum ComputerStep {
    /// A user is asked, even where the tool is allowed.
    Ask { title: String },
    Capture { monitor: Option<String> },
    MovePointer { x: i32, y: i32 },
    Click(MouseButton),
    Type { text: String },
    Press(KeyName),
    Finish(Result<ComputerUseToolOutput, ComputerUseToolOutput>),
    /// The event changes nothing.
    Wait,
}

/// Whether the call has ended with an error.
pub open spec fn computer_fails(after: ComputerRun, step: ComputerStep, text: Seq<char>) -> bool {
    &&& after is Done
    &&& step matches ComputerStep::Finish(Err(ComputerUseToolOutput::Text(t)))
    &&& t@ == text
}

/// Whether the call has ended well, and says so.
pub open spec fn computer_says(after: ComputerRun, step: ComputerStep, text: Seq<char>) -> bool {
    &&& after is Done
    &&& step matches ComputerStep::Finish(Ok(ComputerUseToolOutput::Text(t)))
    &&& t@ == text
}

pub open spec fn moved_text(x: i32, y: i32, screen_x: i32, screen_y: i32) -> Seq<char> {
    "Mouse moved to image=("@ + dec_int(x as int) + ", "@ + dec_int(y as int) + ") screen=("@
        + dec_int(screen_x as int) + ", "@ + dec_int(screen_y as int) + ")."@
}

pub const CLICK_SENT: &'static str =
    "Mouse click sent. Take a new screenshot before the next mouse_move/click with coordinates.";

pub open spec fn typed_text(text: Seq<char>) -> Seq<char> {
    "Typed "@ + dec(text.len())
        + " characters. Take a new screenshot before the next mouse_move/click with coordinates."@
}

pub open spec fn pressed_text(name: Seq<char>) -> Seq<char> {
    "Key "@ + name
        + " sent. Take a new screenshot before the next mouse_move/click with coordinates."@
}

/// Whether a button is clicked, if there is such a one.
pub open spec fn click_begins(
    button: Result<MouseButton, String>,
    after: ComputerRun,
    step: ComputerStep,
) -> bool {
    match button {
        Ok(b) => after is Clicking && step == ComputerStep::Click(b),
        Err(e) => computer_fails(after, step, e@),
    }
}

/// Whether what was planned begins.
pub open spec fn action_begins(
    plan: Result<ComputerAction, String>,
    after: ComputerRun,
    step: ComputerStep,
) -> bool {
    match plan {
        Err(e) => computer_fails(after, step, e@),
        Ok(ComputerAction::Screenshot { monitor }) => {
            &&& after is Capturing
            &&& step == ComputerStep::Capture { monitor }
        },
        Ok(ComputerAction::MoveMouse { x, y, screen_x, screen_y }) => {
            &&& after == ComputerRun::Moving { x, y, screen_x, screen_y }
            &&& step == ComputerStep::MovePointer { x: screen_x, y: screen_y }
        },
        Ok(ComputerAction::Click { move_to: Some(place), button }) => {
            &&& after == ComputerRun::Aiming { button }
            &&& step == ComputerStep::MovePointer { x: place.0, y: place.1 }
        },
        Ok(ComputerAction::Click { move_to: None, button }) => click_begins(button, after, step),
        Ok(ComputerAction::Type { text }) => {
            &&& after == ComputerRun::Typing { text }
            &&& step == ComputerStep::Type { text }
        },
        Ok(ComputerAction::Key { name, key }) => {
            &&& after == ComputerRun::Pressing { name }
            &&& step == ComputerStep::Press(key)
        },
    }
}

/// Whether one step leads from `before` to `after`, and what becomes of the latest image.
pub open spec fn computer_steps(
    before: ComputerRun,
    tool_before: ComputerUseTool,
    event: ComputerEvent,
    after: ComputerRun,
    tool_after: ComputerUseTool,
    step: ComputerStep,
) -> bool {
    match (before, event) {
        (ComputerRun::Asking { input }, ComputerEvent::Answered(Ok(_))) => {
            &&& tool_after == tool_before
            &&& exists|plan: Result<ComputerAction, String>| #[trigger]
                tool_before.is_plan(plan, input) && action_begins(plan, after, step)
        },
        (ComputerRun::Asking { .. }, ComputerEvent::Answered(Err(e)))
        | (ComputerRun::Capturing, ComputerEvent::Captured(Err(e)))
        | (ComputerRun::Moving { .. }, ComputerEvent::Moved(Err(e)))
        | (ComputerRun::Aiming { .. }, ComputerEvent::Moved(Err(e)))
        | (ComputerRun::Clicking, ComputerEvent::Clicked(Err(e)))
        | (ComputerRun::Typing { .. }, ComputerEvent::Typed(Err(e)))
        | (ComputerRun::Pressing { .. }, ComputerEvent::Pressed(Err(e))) => {
            &&& tool_after == tool_before
            &&& computer_fails(after, step, e@)
        },
        (ComputerRun::Capturing, ComputerEvent::Captured(Ok(capture))) => {
            &&& tool_after.last_scale == Some(capture.scale)
            &&& after is Done
            &&& step matches ComputerStep::Finish(Ok(ComputerUseToolOutput::Parts(parts)))
            &&& parts@ == seq![
                LanguageModelToolResultContent::Text(capture.metadata),
                LanguageModelToolResultContent::Image(capture.image),
            ]
        },
        (ComputerRun::Moving { x, y, screen_x, screen_y }, ComputerEvent::Moved(Ok(_))) => {
            &&& tool_after == tool_before
            &&& computer_says(after, step, moved_text(x, y, screen_x, screen_y))
        },
        (ComputerRun::Aiming { button }, ComputerEvent::Moved(Ok(_))) => {
            &&& tool_after == tool_before
            &&& click_begins(button, after, step)
        },
        (ComputerRun::Clicking, ComputerEvent::Clicked(Ok(_))) => {
            &&& tool_after.last_scale is None
            &&& computer_says(after, step, CLICK_SENT@)
        },
        (ComputerRun::Typing { text }, ComputerEvent::Typed(Ok(_))) => {
            &&& tool_after.last_scale is None
            &&& computer_says(after, step, typed_text(text@))
        },
        (ComputerRun::Pressing { name }, ComputerEvent::Pressed(Ok(_))) => {
            &&& tool_after.last_scale is None
            &&& computer_says(after, step, pressed_text(name@))
        },
        _ => after == before && tool_after == tool_before && step is Wait,
    }
}

fn say(text: String) -> (r: (ComputerRun, ComputerStep))
    ensures
        computer_says(r.0, r.1, text@),
{
    (ComputerRun::Done, ComputerStep::Finish(Ok(ComputerUseToolOutput::Text(text))))
}

fn fail(text: String) -> (r: (ComputerRun, ComputerStep))
    ensures
        computer_fails(r.0, r.1, text@),
{
    (ComputerRun::Done, ComputerStep::Finish(Err(ComputerUseToolOutput::Text(text))))
}

fn begin_click(button: Result<MouseButton, String>) -> (r: (ComputerRun, ComputerStep))
    ensures
        click_begins(button, r.0, r.1),
{
    match button {
        Ok(b) => (ComputerRun::Clicking, ComputerStep::Click(b)),
        Err(e) => fail(e),
    }
}

fn begin_action(plan: Result<ComputerAction, String>) -> (r: (ComputerRun, ComputerStep))
    ensures
        action_begins(plan, r.0, r.1),
{
    match plan {
        Err(e) => fail(e),
        Ok(ComputerAction::Screenshot { monitor }) => (
            ComputerRun::Capturing,
            ComputerStep::Capture { monitor },
        ),
        Ok(ComputerAction::MoveMouse { x, y, screen_x, screen_y }) => (
            ComputerRun::Moving { x, y, screen_x, screen_y },
            ComputerStep::MovePointer { x: screen_x, y: screen_y },
        ),
        Ok(ComputerAction::Click { move_to: Some(place), button }) => (
            ComputerRun::Aiming { button },
            ComputerStep::MovePointer { x: place.0, y: place.1 },
        ),
        Ok(ComputerAction::Click { move_to: None, button }) => begin_click(button),
        Ok(ComputerAction::Type { text }) => {
            let typed = text.clone();
            (ComputerRun::Typing { text }, ComputerStep::Type { text: typed })
        },
        Ok(ComputerAction::Key { name, key }) => (
            ComputerRun::Pressing { name },
            ComputerStep::Press(key),
        ),
    }
}

fn tell_of_move(x: i32, y: i32, screen_x: i32, screen_y: i32) -> (r: String)
    ensures
        r@ == moved_text(x, y, screen_x, screen_y),
{
    let mut r = "Mouse moved to image=(".to_string();
    r.append(dec_int_str(x as i64).as_str());
    r.append(", ");
    r.append(dec_int_str(y as i64).as_str());
    r.append(") screen=(");
    r.append(dec_int_str(screen_x as i64).as_str());
    r.append(", ");
    r.append(dec_int_str(screen_y as i64).as_str());
    r.append(").");
    r
}

impl ComputerRun {
    pub fn start(input: ComputerUseToolInput, enabled: bool) -> (r: (ComputerRun, ComputerStep))
        ensures
            if enabled {
                &&& r.0 == ComputerRun::Asking { input }
                &&& r.1 matches ComputerStep::Ask { title }
                &&& title@ == "Computer use: "@ + ascii_lower(input.action@)
            } else {
                computer_fails(r.0, r.1, FULL_ACCESS_DISABLED@)
            },
    {
        if !enabled {
            return fail(FULL_ACCESS_DISABLED.to_string());
        }
        let mut title = "Computer use: ".to_string();
        title.append(ascii_lower_str(input.action.as_str()).as_str());
        (ComputerRun::Asking { input }, ComputerStep::Ask { title })
    }

    pub fn step(self, tool: &mut ComputerUseTool, event: ComputerEvent) -> (r: (
        ComputerRun,
        ComputerStep,
    ))
        requires
            old(tool).wf(),
            event matches ComputerEvent::Captured(Ok(c)) ==> c.scale.wf(),
        ensures
            final(tool).wf(),
            computer_steps(self, *old(tool), event, r.0, *final(tool), r.1),
    {
        match (self, event) {
            (ComputerRun::Asking { input }, ComputerEvent::Answered(Ok(_))) => {
                let plan = tool.plan(&input);
                let ghost planned = plan;
                let r = begin_action(plan);
                assert(tool.is_plan(planned, input) && action_begins(planned, r.0, r.1));
                r
            },
            (ComputerRun::Asking { .. }, ComputerEvent::Answered(Err(e)))
            | (ComputerRun::Capturing, ComputerEvent::Captured(Err(e)))
            | (ComputerRun::Moving { .. }, ComputerEvent::Moved(Err(e)))
            | (ComputerRun::Aiming { .. }, ComputerEvent::Moved(Err(e)))
            | (ComputerRun::Clicking, ComputerEvent::Clicked(Err(e)))
            | (ComputerRun::Typing { .. }, ComputerEvent::Typed(Err(e)))
            | (ComputerRun::Pressing { .. }, ComputerEvent::Pressed(Err(e))) => fail(e),
            (ComputerRun::Capturing, ComputerEvent::Captured(Ok(capture))) => {
                tool.captured(capture.scale);
                let parts = vec![
                    LanguageModelToolResultContent::Text(capture.metadata),
                    LanguageModelToolResultContent::Image(capture.image),
                ];
                (
                    ComputerRun::Done,
                    ComputerStep::Finish(Ok(ComputerUseToolOutput::Parts(parts))),
                )
            },
            (ComputerRun::Moving { x, y, screen_x, screen_y }, ComputerEvent::Moved(Ok(_))) => {
                say(tell_of_move(x, y, screen_x, screen_y))
            },
            (ComputerRun::Aiming { button }, ComputerEvent::Moved(Ok(_))) => begin_click(button),
            (ComputerRun::Clicking, ComputerEvent::Clicked(Ok(_))) => {
                tool.last_scale = None;
                say(CLICK_SENT.to_string())
            },
            (ComputerRun::Typing { text }, ComputerEvent::Typed(Ok(_))) => {
                tool.last_scale = None;
                let v = to_chars(text.as_str());
                let mut r = "Typed ".to_string();
                r.append(dec_str(v.len() as u64).as_str());
                r.append(
                    " characters. Take a new screenshot before the next mouse_move/click with coordinates.",
                );
                say(r)
            },
            (ComputerRun::Pressing { name }, ComputerEvent::Pressed(Ok(_))) => {
                tool.last_scale = None;
                let mut r = "Key ".to_string();
                r.append(name.as_str());
                r.append(
                    " sent. Take a new screenshot before the next mouse_move/click with coordinates.",
                );
                say(r)
            },
            (run, _) => (run, ComputerStep::Wait),
        }
    }
}

/// The computer is touched, or looked at, only right after a user has allowed it, or by a click
/// that follows an allowed move. A refusal ends the call.
pub proof fn lemma_touching_needs_permission(
    before: ComputerRun,
    tool_before: ComputerUseTool,
    event: ComputerEvent,
    after: ComputerRun,
    tool_after: ComputerUseTool,
    step: ComputerStep,
)
    requires
        computer_steps(before, tool_before, event, after, tool_after, step),
    ensures
        step is Capture || step is MovePointer || step is Type || step is Press || step is Click
            ==> {
            ||| before is Asking && (event matches ComputerEvent::Answered(Ok(_)))
            ||| step is Click && before is Aiming && (event matches ComputerEvent::Moved(Ok(_)))
        },
        before is Asking ==> (event matches ComputerEvent::Answered(Err(e)) ==> computer_fails(
            after,
            step,
            e@,
        )),
{
}

/// Once something was clicked, typed or pressed, the latest image no longer tells where things
/// are.
pub proof fn lemma_input_outdates_image(
    before: ComputerRun,
    tool_before: ComputerUseTool,
    event: ComputerEvent,
    after: ComputerRun,
    tool_after: ComputerUseTool,
    step: ComputerStep,
)
    requires
        computer_steps(before, tool_before, event, after, tool_after, step),
        before is Clicking || before is Typing || before is Pressing,
        step matches ComputerStep::Finish(Ok(_)),
    ensures
        tool_after.last_scale is None,
{
}

} // verus!
