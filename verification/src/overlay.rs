//! Finding FL Studio's window and placing the overlay next to it: the
//! integer geometry of docking, expanding and collapsing.
use vstd::prelude::*;
use crate::text::{chars_of, contains, has_sub, lower, to_ascii_lower};
use crate::config::{OverlayPlacement, SavedWindowGeometry};

verus! {

/// The screen rectangle of a window.
#[derive(Clone, Copy, Debug, PartialEq, Eq, Structural)]
pub struct WindowRect {
    pub left: i32,
    pub top: i32,
    pub right: i32,
    pub bottom: i32,
}

/// A top-level window, in the order the system lists them: whether it is
/// visible, its title (none when it has no text), and its rectangle (none
/// when it could not be read).
#[derive(Debug)]
pub struct WindowCandidate {
    pub visible: bool,
    pub title: Option<String>,
    pub rect: Option<WindowRect>,
}

/// What was found of FL Studio's window.
#[derive(Debug)]
pub struct FlWindowInfo {
    pub found: bool,
    pub title: Option<String>,
    pub x: i32,
    pub y: i32,
    pub width: i32,
    pub height: i32,
}

/// Whether a window is FL Studio's: visible, titled with a title that holds
/// `fl studio` in any ASCII case, and with a readable rectangle.
pub open spec fn is_fl_window(c: WindowCandidate) -> bool {
    &&& c.visible
    &&& c.title is Some
    &&& contains(to_ascii_lower(c.title->0@), "fl studio"@)
    &&& c.rect is Some
}

/// The index of the first FL Studio window, or -1.
pub open spec fn first_fl_window(cs: Seq<WindowCandidate>) -> int
    decreases cs.len(),
{
    if cs.len() == 0 {
        -1
    } else if is_fl_window(cs[0]) {
        0
    } else {
        let r = first_fl_window(cs.drop_first());
        if r < 0 {
            -1
        } else {
            r + 1
        }
    }
}

/// The rectangle's size can be computed in `i32`.
pub open spec fn rect_size_fits(r: WindowRect) -> bool {
    i32::MIN <= r.right - r.left <= i32::MAX && i32::MIN <= r.bottom - r.top <= i32::MAX
}

proof fn lemma_first_fl_window(cs: Seq<WindowCandidate>)
    ensures
        -1 <= first_fl_window(cs) < cs.len(),
        first_fl_window(cs) >= 0 ==> is_fl_window(cs[first_fl_window(cs)]),
        forall|j: int| 0 <= j < first_fl_window(cs) ==> !is_fl_window(#[trigger] cs[j]),
        first_fl_window(cs) < 0 ==> forall|j: int| 0 <= j < cs.len() ==> !is_fl_window(
            #[trigger] cs[j],
        ),
    decreases cs.len(),
{
    if cs.len() > 0 && !is_fl_window(cs[0]) {
        lemma_first_fl_window(cs.drop_first());
        assert forall|j: int| 0 < j < cs.len() implies cs[j] == cs.drop_first()[j - 1] by {}
    }
}

proof fn lemma_first_fl_window_at(cs: Seq<WindowCandidate>, k: int)
    requires
        -1 <= k < cs.len(),
        k >= 0 ==> is_fl_window(cs[k]),
        forall|j: int| 0 <= j < cs.len() && (k < 0 || j < k) ==> !is_fl_window(#[trigger] cs[j]),
    ensures
        first_fl_window(cs) == k,
{
    lemma_first_fl_window(cs);
    let r = first_fl_window(cs);
    if r >= 0 && (k < 0 || r < k) {
        assert(!is_fl_window(cs[r]));
    }
    if k >= 0 && (r < 0 || k < r) {
        assert(!is_fl_window(cs[k]));
    }
}

/// FL Studio's window, as the first window that is FL Studio's shows it;
/// not found when there is none. `None` when that window's size does not
/// fit in `i32`.
pub fn detect_fl_window(windows: &Vec<WindowCandidate>) -> (r: Option<FlWindowInfo>)
    ensures
        r is None <==> (first_fl_window(windows@) >= 0 && !rect_size_fits(
            windows@[first_fl_window(windows@)].rect->0,
        )),
        r matches Some(info) ==> (first_fl_window(windows@) < 0 ==> !info.found && info.title is None
            && info.x == 0 && info.y == 0 && info.width == 0 && info.height == 0),
        r matches Some(info) ==> (first_fl_window(windows@) >= 0 ==> {
            let c = windows@[first_fl_window(windows@)];
            let rect = c.rect->0;
            &&& info.found
            &&& info.title is Some
            &&& info.title->0@ == c.title->0@
            &&& info.x == rect.left
            &&& info.y == rect.top
            &&& info.width == rect.right - rect.left
            &&& info.height == rect.bottom - rect.top
        }),
{
    let needle = chars_of("fl studio");
    let mut i: usize = 0;
    while i < windows.len()
        invariant
            i <= windows@.len(),
            needle@ == "fl studio"@,
            forall|j: int| 0 <= j < i ==> !is_fl_window(#[trigger] windows@[j]),
        decreases windows@.len() - i,
    {
        let c = &windows[i];
        if c.visible {
            if let Some(t) = &c.title {
                if has_sub(&lower(&chars_of(t.as_str())), &needle) {
                    if let Some(rect) = c.rect {
                        proof {
                            lemma_first_fl_window_at(windows@, i as int);
                        }
                        let width: i64 = rect.right as i64 - rect.left as i64;
                        let height: i64 = rect.bottom as i64 - rect.top as i64;
                        if width < i32::MIN as i64 || width > i32::MAX as i64 || height
                            < i32::MIN as i64 || height > i32::MAX as i64 {
                            return None;
                        }
                        return Some(
                            FlWindowInfo {
                                found: true,
                                title: Some(t.clone()),
                                x: rect.left,
                                y: rect.top,
                                width: width as i32,
                                height: height as i32,
                            },
                        );
                    }
                }
            }
        }
        i += 1;
    }
    proof {
        lemma_first_fl_window_at(windows@, -1);
    }
    Some(FlWindowInfo { found: false, title: None, x: 0, y: 0, width: 0, height: 0 })
}

/// A window frame in whole pixels.
#[derive(Clone, Copy, Debug, PartialEq, Eq, Structural)]
pub struct Frame {
    pub x: i32,
    pub y: i32,
    pub width: i32,
    pub height: i32,
}

/// The docked overlay's frame can be computed in `i32` for a placement.
pub open spec fn anchor_fits(fl: FlWindowInfo, placement: OverlayPlacement) -> bool {
    match placement {
        OverlayPlacement::Left => true,
        OverlayPlacement::Right => i32::MIN <= fl.x + fl.width <= i32::MAX && i32::MIN <= fl.x
            + fl.width - 380 <= i32::MAX,
        OverlayPlacement::Floating => i32::MIN <= fl.x + fl.width <= i32::MAX && i32::MIN <= fl.x
            + fl.width - 380 - 24 <= i32::MAX,
    }
}

/// Whether an integer fits in `i32`.
fn fits_i32(v: i64) -> (r: bool)
    ensures
        r == (i32::MIN <= v <= i32::MAX),
{
    i32::MIN as i64 <= v && v <= i32::MAX as i64
}

/// The frame of the overlay docked to FL Studio's window (logical pixels):
/// 380 wide and at least 520 tall, at the window's top, against its left
/// edge, its right edge, or 24 pixels in from its right edge. `None` when
/// the position does not fit in `i32`.
pub fn anchor_geometry(fl: &FlWindowInfo, placement: OverlayPlacement) -> (r: Option<Frame>)
    ensures
        r is Some <==> anchor_fits(*fl, placement),
        r matches Some(f) ==> {
            &&& f.width == 380
            &&& f.height == if fl.height > 520 {
                fl.height
            } else {
                520
            }
            &&& f.y == fl.y
            &&& f.x == match placement {
                OverlayPlacement::Left => fl.x as int,
                OverlayPlacement::Right => fl.x + fl.width - 380,
                OverlayPlacement::Floating => fl.x + fl.width - 380 - 24,
            }
        },
{
    let width: i32 = 380;
    let height: i32 = if fl.height > 520 {
        fl.height
    } else {
        520
    };
    let right: i64 = fl.x as i64 + fl.width as i64;
    let x: i64 = match placement {
        OverlayPlacement::Left => fl.x as i64,
        OverlayPlacement::Right => {
            if !fits_i32(right) {
                return None;
            }
            right - 380
        },
        OverlayPlacement::Floating => {
            if !fits_i32(right) || !fits_i32(right - 380) {
                return None;
            }
            right - 380 - 24
        },
    };
    if !fits_i32(x) {
        return None;
    }
    Some(Frame { x: x as i32, y: fl.y, width, height })
}

/// The expanded overlay's origin can be computed in `i32`.
pub open spec fn expand_fits(saved: SavedWindowGeometry, current: Option<(i32, i32)>) -> bool {
    match current {
        Some((x, y)) => i32::MIN <= x - (saved.width as i32) <= i32::MAX && i32::MIN <= x
            - (saved.width as i32) + 86 <= i32::MAX && i32::MIN <= y - 16 <= i32::MAX,
        None => true,
    }
}

/// Where the expanded overlay goes when a size was saved: so that its
/// collapse button stays under the collapsed launcher at `current`, or
/// where it was saved when the launcher's position is unknown. The saved
/// width is read as an `i32`, wrapping as a cast does. `None` when the
/// position does not fit in `i32`.
pub fn expand_origin(saved: SavedWindowGeometry, current: Option<(i32, i32)>) -> (r: Option<
    (i32, i32),
>)
    ensures
        r is Some <==> expand_fits(saved, current),
        r matches Some(p) ==> p == match current {
            Some((x, y)) => ((x - (saved.width as i32) + 86) as i32, (y - 16) as i32),
            None => (saved.x, saved.y),
        },
{
    match current {
        Some((x, y)) => {
            let w: i32 = saved.width as i32;
            let left: i64 = x as i64 - w as i64;
            let nx: i64 = left + 86;
            let ny: i64 = y as i64 - 16;
            if !fits_i32(left) || !fits_i32(nx) || !fits_i32(ny) {
                return None;
            }
            Some((nx as i32, ny as i32))
        },
        None => Some((saved.x, saved.y)),
    }
}

/// The collapsed launcher's position can be computed in `i32`.
pub open spec fn collapse_fits(position: (i32, i32), size: (u32, u32)) -> bool {
    i32::MIN <= position.0 + (size.0 as i32) <= i32::MAX && i32::MIN <= position.0 + (
    size.0 as i32) - 86 <= i32::MAX && i32::MIN <= position.1 + 16 <= i32::MAX
}

/// What collapsing the overlay remembers.
#[derive(Clone, Copy, Debug, PartialEq, Eq, Structural)]
pub enum CollapsePlan {
    /// The expanded geometry, and where the launcher goes: under the
    /// expanded overlay's collapse button.
    Remember { saved: SavedWindowGeometry, launcher_x: i32, launcher_y: i32 },
    /// Nothing: the launcher goes to its fallback spot.
    Forget,
}

/// What collapsing remembers: when the window's position and size are
/// known and it is larger than the launcher (more than 74 pixels each
/// way), its geometry, and the launcher's position under its collapse
/// button. The width is read as an `i32`, wrapping as a cast does. `None`
/// when that position does not fit in `i32`.
pub fn collapse_plan(position: Option<(i32, i32)>, size: Option<(u32, u32)>) -> (r: Option<
    CollapsePlan,
>)
    ensures
        match (position, size) {
            (Some(p), Some(s)) => if s.0 > 74 && s.1 > 74 {
                if collapse_fits(p, s) {
                    r == Some(
                        CollapsePlan::Remember {
                            saved: SavedWindowGeometry { x: p.0, y: p.1, width: s.0, height: s.1 },
                            launcher_x: (p.0 + (s.0 as i32) - 86) as i32,
                            launcher_y: (p.1 + 16) as i32,
                        },
                    )
                } else {
                    r is None
                }
            } else {
                r == Some(CollapsePlan::Forget)
            },
            _ => r == Some(CollapsePlan::Forget),
        },
{
    match (position, size) {
        (Some(p), Some(s)) => {
            if s.0 > 74 && s.1 > 74 {
                let w: i32 = s.0 as i32;
                let right: i64 = p.0 as i64 + w as i64;
                let lx: i64 = right - 86;
                let ly: i64 = p.1 as i64 + 16;
                if !fits_i32(right) || !fits_i32(lx) || !fits_i32(ly) {
                    return None;
                }
                let saved = SavedWindowGeometry { x: p.0, y: p.1, width: s.0, height: s.1 };
                Some(CollapsePlan::Remember { saved, launcher_x: lx as i32, launcher_y: ly as i32 })
            } else {
                Some(CollapsePlan::Forget)
            }
        },
        _ => Some(CollapsePlan::Forget),
    }
}

/// The collapsed launcher's fallback position can be computed in `i32`.
pub open spec fn fallback_fits(fl: FlWindowInfo) -> bool {
    fl.found ==> i32::MIN <= fl.x + fl.width <= i32::MAX && i32::MIN <= fl.x + fl.width - 92
        <= i32::MAX && i32::MIN <= fl.y + 48 <= i32::MAX
}

/// Where the collapsed launcher goes when nothing was remembered (logical
/// pixels): near FL Studio's top right corner, or a fixed spot. `None`
/// when the position does not fit in `i32`.
pub fn collapsed_fallback(fl: &FlWindowInfo) -> (r: Option<(i32, i32)>)
    ensures
        r is Some <==> fallback_fits(*fl),
        r matches Some(p) ==> p == if fl.found {
            ((fl.x + fl.width - 92) as i32, (fl.y + 48) as i32)
        } else {
            (1220i32, 72i32)
        },
{
    if fl.found {
        let right: i64 = fl.x as i64 + fl.width as i64;
        let x: i64 = right - 92;
        let y: i64 = fl.y as i64 + 48;
        if !fits_i32(right) || !fits_i32(x) || !fits_i32(y) {
            return None;
        }
        Some((x as i32, y as i32))
    } else {
        Some((1220, 72))
    }
}

} // verus!
