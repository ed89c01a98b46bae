//! Server-side title bars on mochiOS: the window events the compositor sends
//! about decorated windows, what a click on a title bar asks for, and the
//! requests that answer them.
use crate::context_menu::{field, read_i32, read_u32, read_u64};
use vstd::bytes::{spec_u32_from_le_bytes, spec_u32_to_le_bytes, spec_u64_from_le_bytes, spec_u64_to_le_bytes, u32_to_le_bytes, u64_to_le_bytes};
use vstd::prelude::*;
use vstd::slice::slice_subrange;
use crate::text::utf8_text;
use vstd::utf8::{decode_utf8, valid_utf8};

verus! {

pub const OP_ATTACH_BUFFER: u32 = 2;

pub const OP_DAMAGE: u32 = 3;

pub const OP_COMMIT: u32 = 4;

pub const OP_DECOR_SUBSCRIBE: u32 = 100;

pub const OP_DECOR_CREATE_SURFACE: u32 = 101;

pub const OP_DECOR_ATTACH: u32 = 102;

pub const OP_DECOR_BEGIN_MOVE: u32 = 105;

pub const OP_DECOR_MINIMIZE: u32 = 107;

pub const OP_DECOR_TOGGLE_MAXIMIZE: u32 = 108;

pub const OP_DECOR_CLOSE_REQUEST: u32 = 109;

pub const DECOR_EVENT_WINDOW: u32 = 0x5749_4e44;

pub const DECOR_EVENT_POINTER_BUTTON: u32 = 0x4e54_4244;

pub const PIXEL_FORMAT_XRGB8888: u32 = 1;

pub const TITLE_BAR_HEIGHT: u32 = 40;

pub const CONTROL_WIDTH: u32 = 44;

pub const PAGE_SIZE: usize = 4096;

pub const MAX_WINDOW_DIMENSION: u32 = 4096;

pub const POINTER_FLAG_PRESS: u32 = 1;


/// What a window event describes: the window, its width and its title, for
/// a window of a size that can be decorated.
pub open spec fn window_event(event: Seq<u8>) -> Option<(u64, u32, Seq<char>)> {
    match (field(event, 0, 4), field(event, 4, 8), field(event, 12, 4), field(event, 16, 4), field(event, 44, 4)) {
        (Some(kind), Some(window), Some(width), Some(height), Some(length)) => {
            let window = spec_u64_from_le_bytes(window);
            let width = spec_u32_from_le_bytes(width);
            let height = spec_u32_from_le_bytes(height);
            let title_length = spec_u32_from_le_bytes(length) as int;
            if spec_u32_from_le_bytes(kind) != DECOR_EVENT_WINDOW {
                None
            } else {
                match field(event, 48, title_length) {
                    Some(title) => if valid_utf8(title) && window != 0 && width != 0 && height != 0
                        && width <= MAX_WINDOW_DIMENSION && height <= MAX_WINDOW_DIMENSION {
                        Some((window, width, decode_utf8(title)))
                    } else {
                        None
                    },
                    None => None,
                }
            }
        },
        _ => None,
    }
}

/// The window, width and title that a window event describes.
pub fn parse_window_event(event: &[u8]) -> (parsed: Option<(u64, u32, String)>)
    ensures
        match (parsed, window_event(event@)) {
            (Some((window, width, title)), Some((w, x, t))) => window == w && width == x && title@ == t,
            (None, None) => true,
            _ => false,
        },
{
    let kind = match read_u32(event, 0) {
        Some(kind) => kind,
        None => {
            return None;
        },
    };
    let window = match read_u64(event, 4) {
        Some(window) => window,
        None => {
            return None;
        },
    };
    let width = match read_u32(event, 12) {
        Some(width) => width,
        None => {
            return None;
        },
    };
    let height = match read_u32(event, 16) {
        Some(height) => height,
        None => {
            return None;
        },
    };
    let title_length = match read_u32(event, 44) {
        Some(length) => length as usize,
        None => {
            return None;
        },
    };
    if kind != DECOR_EVENT_WINDOW {
        return None;
    }
    let total = event.len();
    if total < 48 || total - 48 < title_length {
        return None;
    }
    let title = match utf8_text(slice_subrange(event, 48, 48 + title_length)) {
        Some(title) => title,
        None => {
            return None;
        },
    };
    if window != 0 && width != 0 && height != 0 && width <= MAX_WINDOW_DIMENSION && height
        <= MAX_WINDOW_DIMENSION {
        Some((window, width, title))
    } else {
        None
    }
}

/// What a press on a title bar of the given width asks for, by where it
/// lands: the three controls at the right end, close rightmost, or a move.
#[derive(Clone, Copy, Debug, PartialEq, Eq, Structural)]
pub enum TitleBarAction {
    Close,
    ToggleMaximize,
    Minimize,
    BeginMove,
}

pub open spec fn saturating_sub(a: u32, b: u32) -> u32 {
    if a >= b {
        (a - b) as u32
    } else {
        0
    }
}

pub open spec fn title_bar_action(width: u32, x: u32) -> TitleBarAction {
    if x >= saturating_sub(width, CONTROL_WIDTH) {
        TitleBarAction::Close
    } else if x >= saturating_sub(width, (CONTROL_WIDTH * 2) as u32) {
        TitleBarAction::ToggleMaximize
    } else if x >= saturating_sub(width, (CONTROL_WIDTH * 3) as u32) {
        TitleBarAction::Minimize
    } else {
        TitleBarAction::BeginMove
    }
}

pub fn title_bar_action_at(width: u32, x: u32) -> (action: TitleBarAction)
    ensures
        action == title_bar_action(width, x),
{
    if x >= width.saturating_sub(CONTROL_WIDTH) {
        TitleBarAction::Close
    } else if x >= width.saturating_sub(CONTROL_WIDTH * 2) {
        TitleBarAction::ToggleMaximize
    } else if x >= width.saturating_sub(CONTROL_WIDTH * 3) {
        TitleBarAction::Minimize
    } else {
        TitleBarAction::BeginMove
    }
}

/// What a pointer-button event on a title bar of the given width asks for:
/// nothing for a release or a press left of the bar; otherwise the action
/// where it lands. A move needs the event's serial, which must not be zero.
pub open spec fn pointer_action(width: u32, event: Seq<u8>) -> Result<Option<(TitleBarAction, u64)>, u64> {
    match field(event, 12, 4) {
        None => Err(5),
        Some(detail) => if (spec_u32_from_le_bytes(detail) >> 16) & POINTER_FLAG_PRESS == 0 {
            Ok(None)
        } else {
            match field(event, 4, 4) {
                None => Ok(None),
                Some(x) => if (spec_u32_from_le_bytes(x) as i32) < 0 {
                    Ok(None)
                } else {
                    let target = title_bar_action(width, spec_u32_from_le_bytes(x));
                    if target != TitleBarAction::BeginMove {
                        Ok(Some((target, 0)))
                    } else {
                        match field(event, 24, 8) {
                            Some(serial) => if spec_u64_from_le_bytes(serial) != 0 {
                                Ok(Some((target, spec_u64_from_le_bytes(serial))))
                            } else {
                                Err(5)
                            },
                            None => Err(5),
                        }
                    }
                }
            }
        },
    }
}

pub fn pointer_button_action(width: u32, event: &[u8]) -> (action: Result<Option<(TitleBarAction, u64)>, u64>)
    ensures
        action == pointer_action(width, event@),
{
    let detail = match read_u32(event, 12) {
        Some(detail) => detail,
        None => {
            return Err(5);
        },
    };
    if (detail >> 16) & POINTER_FLAG_PRESS == 0 {
        return Ok(None);
    }
    let x = match read_i32(event, 4) {
        Some(x) => x,
        None => {
            return Ok(None);
        },
    };
    if x < 0 {
        return Ok(None);
    }
    let x = x as u32;
    proof {
        let raw = spec_u32_from_le_bytes(event@.subrange(4, 8));
        assert((raw as i32) as u32 == raw) by (bit_vector)
            requires
                (raw as i32) >= 0,
        ;
    }
    let target = title_bar_action_at(width, x);
    if target != TitleBarAction::BeginMove {
        return Ok(Some((target, 0)));
    }
    match read_u64(event, 24) {
        Some(serial) => if serial != 0 {
            Ok(Some((target, serial)))
        } else {
            Err(5)
        },
        None => Err(5),
    }
}

/// What the title bars do about a message from the compositor.
#[derive(Clone, Debug, PartialEq, Eq)]
pub enum DecorationStep {
    /// The message is not about title bars.
    Unhandled,
    /// The message is about title bars and asks for nothing.
    Nothing,
    /// The title bar at this place is drawn again, at this width and title.
    Redraw { index: usize, width: u32, title: String },
    /// A title bar is made for a window that has none.
    Create { window: u64, width: u32, title: String },
    /// A press on the title bar at this place asks for this action; a move
    /// carries the press's serial, the others zero.
    Press { index: usize, action: TitleBarAction, serial: u64 },
}

/// The first title bar, of those given by window and width, that belongs to
/// `window`.
pub open spec fn first_decoration(decorations: Seq<(u64, u32)>, window: u64) -> Option<int>
    decreases decorations.len(),
{
    if decorations.len() == 0 {
        None
    } else {
        match first_decoration(decorations.drop_last(), window) {
            Some(i) => Some(i),
            None => if decorations.last().0 == window {
                Some(decorations.len() - 1)
            } else {
                None
            },
        }
    }
}

proof fn lemma_first_decoration(decorations: Seq<(u64, u32)>, window: u64, n: int)
    requires
        0 <= n <= decorations.len(),
        n < decorations.len() ==> decorations[n].0 == window,
        forall|j: int| 0 <= j < n ==> (#[trigger] decorations[j]).0 != window,
    ensures
        first_decoration(decorations, window) == (if n < decorations.len() {
            Some(n)
        } else {
            None::<int>
        }),
    decreases decorations.len(),
{
    if decorations.len() > 0 {
        let rest = decorations.drop_last();
        if n < decorations.len() - 1 {
            lemma_first_decoration(rest, window, n);
        } else {
            assert forall|j: int| 0 <= j < rest.len() implies (#[trigger] rest[j]).0 != window by {
                assert(rest[j] == decorations[j]);
            }
            lemma_first_decoration(rest, window, rest.len() as int);
        }
    }
}

fn find_decoration(decorations: &[(u64, u32)], window: u64) -> (found: Option<usize>)
    ensures
        match first_decoration(decorations@, window) {
            Some(i) => found == Some(i as usize) && 0 <= i < decorations@.len(),
            None => found is None,
        },
{
    let mut i: usize = 0;
    while i < decorations.len()
        invariant
            i <= decorations@.len(),
            forall|j: int| 0 <= j < i ==> (#[trigger] decorations@[j]).0 != window,
        decreases decorations@.len() - i,
    {
        if decorations[i].0 == window {
            proof {
                lemma_first_decoration(decorations@, window, i as int);
            }
            return Some(i);
        }
        i = i + 1;
    }
    proof {
        lemma_first_decoration(decorations@, window, i as int);
    }
    None
}

/// What the title bars, given by window and width in the order they were
/// made, do about `event`. A window event redraws the window's title bar
/// when its width changed, or makes one; a press goes to the title bar of
/// the window it names. The error is the one a malformed press gives.
pub fn decoration_step(decorations: &[(u64, u32)], event: &[u8]) -> (step: Result<DecorationStep, u64>)
    ensures
        match field(event@, 0, 4) {
            Some(kind) if spec_u32_from_le_bytes(kind) == DECOR_EVENT_WINDOW => match window_event(event@) {
                None => step matches Ok(DecorationStep::Nothing),
                Some((window, width, title)) => match first_decoration(decorations@, window) {
                    Some(i) => if decorations@[i].1 != width {
                        step matches Ok(DecorationStep::Redraw { index, width: w, title: t }) && index == i
                            && w == width && t@ == title
                    } else {
                        step matches Ok(DecorationStep::Nothing)
                    },
                    None => step matches Ok(DecorationStep::Create { window: v, width: w, title: t }) && v
                        == window && w == width && t@ == title,
                },
            },
            Some(kind) if spec_u32_from_le_bytes(kind) == DECOR_EVENT_POINTER_BUTTON => match field(event@, 16, 8) {
                None => step matches Err(5),
                Some(window) => match first_decoration(decorations@, spec_u64_from_le_bytes(window)) {
                    None => step matches Ok(DecorationStep::Nothing),
                    Some(i) => match pointer_action(decorations@[i].1, event@) {
                        Err(e) => step matches Err(f) && f == e,
                        Ok(None) => step matches Ok(DecorationStep::Nothing),
                        Ok(Some((action, serial))) => step matches Ok(
                            DecorationStep::Press { index, action: a, serial: s },
                        ) && index == i && a == action && s == serial,
                    },
                },
            },
            _ => step matches Ok(DecorationStep::Unhandled),
        },
{
    let kind = match read_u32(event, 0) {
        Some(kind) => kind,
        None => {
            return Ok(DecorationStep::Unhandled);
        },
    };
    if kind == DECOR_EVENT_WINDOW {
        match parse_window_event(event) {
            None => Ok(DecorationStep::Nothing),
            Some((window, width, title)) => match find_decoration(decorations, window) {
                Some(index) => if decorations[index].1 != width {
                    Ok(DecorationStep::Redraw { index, width, title })
                } else {
                    Ok(DecorationStep::Nothing)
                },
                None => Ok(DecorationStep::Create { window, width, title }),
            },
        }
    } else if kind == DECOR_EVENT_POINTER_BUTTON {
        let window = match read_u64(event, 16) {
            Some(window) => window,
            None => {
                return Err(5);
            },
        };
        match find_decoration(decorations, window) {
            None => Ok(DecorationStep::Nothing),
            Some(index) => match pointer_button_action(decorations[index].1, event) {
                Err(e) => Err(e),
                Ok(None) => Ok(DecorationStep::Nothing),
                Ok(Some((action, serial))) => Ok(DecorationStep::Press { index, action, serial }),
            },
        }
    } else {
        Ok(DecorationStep::Unhandled)
    }
}

/// The number of pages a title-bar buffer of this width takes, at four
/// bytes a pixel; `None` where the size does not fit in memory.
pub fn title_bar_page_count(width: u32) -> (pages: Option<usize>)
    ensures
        match pages {
            Some(pages) => pages == (width * TITLE_BAR_HEIGHT * 4 + PAGE_SIZE - 1) / PAGE_SIZE as int,
            None => width * TITLE_BAR_HEIGHT * 4 + PAGE_SIZE - 1 > usize::MAX,
        },
{
    let pixel_count = match (width as usize).checked_mul(TITLE_BAR_HEIGHT as usize) {
        Some(count) => count,
        None => {
            return None;
        },
    };
    let byte_len = match pixel_count.checked_mul(4) {
        Some(length) => length,
        None => {
            return None;
        },
    };
    match byte_len.checked_add(PAGE_SIZE - 1) {
        Some(length) => Some(length / PAGE_SIZE),
        None => None,
    }
}

fn push_bytes(out: &mut Vec<u8>, bytes: &[u8])
    ensures
        final(out)@ == old(out)@ + bytes@,
{
    let mut index: usize = 0;
    while index < bytes.len()
        invariant
            index <= bytes@.len(),
            out@ == old(out)@ + bytes@.subrange(0, index as int),
        decreases bytes@.len() - index,
    {
        out.push(bytes[index]);
        index = index + 1;
        assert(out@ =~= old(out)@ + bytes@.subrange(0, index as int));
    }
    assert(bytes@.subrange(0, bytes@.len() as int) =~= bytes@);
}

/// A request made of an opcode and a token: a window, a surface or an
/// endpoint.
pub open spec fn token_request(opcode: u32, token: u64) -> Seq<u8> {
    spec_u32_to_le_bytes(opcode) + spec_u64_to_le_bytes(token)
}

pub fn encode_token_request(opcode: u32, token: u64) -> (request: Vec<u8>)
    ensures
        request@ == token_request(opcode, token),
{
    let mut request: Vec<u8> = Vec::new();
    let opcode_bytes = u32_to_le_bytes(opcode);
    push_bytes(&mut request, opcode_bytes.as_slice());
    let token_bytes = u64_to_le_bytes(token);
    push_bytes(&mut request, token_bytes.as_slice());
    request
}

/// The request that starts moving `window` from the press `serial`.
pub open spec fn begin_move_request(window: u64, serial: u64) -> Seq<u8> {
    spec_u32_to_le_bytes(OP_DECOR_BEGIN_MOVE) + spec_u64_to_le_bytes(window) + spec_u64_to_le_bytes(serial)
        + seq![0u8, 0u8, 0u8, 0u8, 0u8, 0u8, 0u8, 0u8]
}

pub fn encode_begin_move_request(window: u64, serial: u64) -> (request: Vec<u8>)
    ensures
        request@ == begin_move_request(window, serial),
{
    let mut request = encode_token_request(OP_DECOR_BEGIN_MOVE, window);
    let serial_bytes = u64_to_le_bytes(serial);
    push_bytes(&mut request, serial_bytes.as_slice());
    let mut k: usize = 0;
    while k < 8
        invariant
            k <= 8,
            request@ == token_request(OP_DECOR_BEGIN_MOVE, window) + spec_u64_to_le_bytes(serial)
                + Seq::new(k as nat, |i: int| 0u8),
        decreases 8 - k,
    {
        request.push(0);
        k = k + 1;
        assert(request@ =~= token_request(OP_DECOR_BEGIN_MOVE, window) + spec_u64_to_le_bytes(serial)
            + Seq::new(k as nat, |i: int| 0u8));
    }
    assert(Seq::new(8, |i: int| 0u8) =~= seq![0u8, 0u8, 0u8, 0u8, 0u8, 0u8, 0u8, 0u8]);
    request
}

} // verus!
