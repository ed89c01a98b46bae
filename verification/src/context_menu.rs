//! Context menus that the compositor forwards to Binder to show: the show
//! and dismiss events it sends, and the requests with which Binder answers.
use vstd::bytes::{
    spec_u16_from_le_bytes, spec_u32_from_le_bytes, spec_u32_to_le_bytes, spec_u64_from_le_bytes,
    spec_u64_to_le_bytes, u16_from_le_bytes, u32_from_le_bytes, u32_to_le_bytes, u64_from_le_bytes,
    u64_to_le_bytes,
};
use vstd::prelude::*;
use vstd::slice::slice_subrange;
use crate::text::utf8_text;
use vstd::utf8::{decode_utf8, valid_utf8};

verus! {

pub const OP_CONTEXT_MENU_SUBSCRIBE: u32 = 120;

pub const OP_CONTEXT_MENU_COMPLETE: u32 = 122;

pub const CONTEXT_MENU_EVENT_SHOW: u32 = 0x554e_454d;

pub const CONTEXT_MENU_EVENT_DISMISS: u32 = 0x5349_444d;

pub const MAX_ITEMS: u32 = 32;

pub const MAX_LABEL_BYTES: usize = 128;

/// An error number, as the compositor and the kernel report them.
#[derive(Clone, Copy, Debug, PartialEq, Eq, Structural)]
pub struct ContextMenuError(pub u64);

/// One entry of a context menu.
#[derive(Clone, Debug, PartialEq, Eq)]
pub struct ContextMenuEntry {
    pub command_id: u32,
    pub label: String,
    pub separator: bool,
    pub enabled: bool,
    pub checked: bool,
    pub destructive: bool,
}

/// A context menu to show at a point of the screen.
#[derive(Clone, Debug, PartialEq, Eq)]
pub struct ContextMenuModel {
    pub request_id: u64,
    pub x: i32,
    pub y: i32,
    pub entries: Vec<ContextMenuEntry>,
}

/// The little-endian field of `n` bytes at `offset`, when the bytes hold it.
pub open spec fn field(bytes: Seq<u8>, offset: int, n: int) -> Option<Seq<u8>> {
    if 0 <= offset && offset + n <= bytes.len() {
        Some(bytes.subrange(offset, offset + n))
    } else {
        None
    }
}

pub fn read_u16(bytes: &[u8], offset: usize) -> (value: Option<u16>)
    ensures
        match field(bytes@, offset as int, 2) {
            Some(b) => value == Some(spec_u16_from_le_bytes(b)),
            None => value is None,
        },
{
    let total = bytes.len();
    if offset > total || total - offset < 2 {
        return None;
    }
    Some(u16_from_le_bytes(slice_subrange(bytes, offset, offset + 2)))
}

pub fn read_u32(bytes: &[u8], offset: usize) -> (value: Option<u32>)
    ensures
        match field(bytes@, offset as int, 4) {
            Some(b) => value == Some(spec_u32_from_le_bytes(b)),
            None => value is None,
        },
{
    let total = bytes.len();
    if offset > total || total - offset < 4 {
        return None;
    }
    Some(u32_from_le_bytes(slice_subrange(bytes, offset, offset + 4)))
}

pub fn read_i32(bytes: &[u8], offset: usize) -> (value: Option<i32>)
    ensures
        match field(bytes@, offset as int, 4) {
            Some(b) => value == Some(spec_u32_from_le_bytes(b) as i32),
            None => value is None,
        },
{
    match read_u32(bytes, offset) {
        Some(raw) => Some(raw as i32),
        None => None,
    }
}

pub fn read_u64(bytes: &[u8], offset: usize) -> (value: Option<u64>)
    ensures
        match field(bytes@, offset as int, 8) {
            Some(b) => value == Some(spec_u64_from_le_bytes(b)),
            None => value is None,
        },
{
    let total = bytes.len();
    if offset > total || total - offset < 8 {
        return None;
    }
    Some(u64_from_le_bytes(slice_subrange(bytes, offset, offset + 8)))
}


/// An entry as the show event describes it.
pub struct EntryView {
    pub command_id: u32,
    pub label: Seq<char>,
    pub flags: u16,
}

pub open spec fn entry_matches(entry: ContextMenuEntry, view: EntryView) -> bool {
    &&& entry.command_id == view.command_id
    &&& entry.label@ == view.label
    &&& entry.separator == (view.flags & 1 != 0)
    &&& entry.enabled == (view.flags & 2 != 0)
    &&& entry.checked == (view.flags & 4 != 0)
    &&& entry.destructive == (view.flags & 8 != 0)
}

/// The first `count` entries from `offset` on: each is a command id, flags
/// and a label length, then the label in UTF-8 of at most 128 bytes. Gives
/// the entries and where they end.
pub open spec fn entries_at(message: Seq<u8>, offset: int, count: nat) -> Option<(Seq<EntryView>, int)>
    decreases count,
{
    if count == 0 {
        Some((Seq::empty(), offset))
    } else {
        match entries_at(message, offset, (count - 1) as nat) {
            None => None,
            Some((entries, at)) => match (field(message, at, 4), field(message, at + 4, 2), field(message, at + 6, 2)) {
                (Some(command), Some(flags), Some(length)) => {
                    let label_len = spec_u16_from_le_bytes(length) as int;
                    if label_len > MAX_LABEL_BYTES {
                        None
                    } else {
                        match field(message, at + 8, label_len) {
                            Some(label) => if valid_utf8(label) {
                                Some((
                                    entries.push(
                                        EntryView {
                                            command_id: spec_u32_from_le_bytes(command),
                                            label: decode_utf8(label),
                                            flags: spec_u16_from_le_bytes(flags),
                                        },
                                    ),
                                    at + 8 + label_len,
                                ))
                            } else {
                                None
                            },
                            None => None,
                        }
                    }
                },
                _ => None,
            },
        }
    }
}

proof fn lemma_entries_fail_for_more(message: Seq<u8>, offset: int, a: nat, b: nat)
    requires
        a <= b,
        entries_at(message, offset, a) is None,
    ensures
        entries_at(message, offset, b) is None,
    decreases b,
{
    if a < b {
        lemma_entries_fail_for_more(message, offset, a, (b - 1) as nat);
    }
}

/// The menu, once its entries are read: they must end where the message ends.
pub open spec fn finish_show(
    entries: Option<(Seq<EntryView>, int)>,
    x: i32,
    y: i32,
    request_id: u64,
    len: int,
) -> Option<(i32, i32, u64, Seq<EntryView>)> {
    match entries {
        Some((entries, end)) => if end == len {
            Some((x, y, request_id, entries))
        } else {
            None
        },
        None => None,
    }
}

/// What a show event describes: the position, the request, and its entries,
/// which must fill the message exactly; `None` for a malformed event.
pub open spec fn shown_menu(message: Seq<u8>) -> Option<(i32, i32, u64, Seq<EntryView>)> {
    match (field(message, 4, 4), field(message, 8, 4), field(message, 12, 4), field(message, 16, 8)) {
        (Some(x), Some(y), Some(count), Some(request)) => {
            let item_count = spec_u32_from_le_bytes(count);
            let request_id = spec_u64_from_le_bytes(request);
            if request_id == 0 || item_count == 0 || item_count > MAX_ITEMS {
                None
            } else {
                finish_show(
                    entries_at(message, 24, item_count as nat),
                    spec_u32_from_le_bytes(x) as i32,
                    spec_u32_from_le_bytes(y) as i32,
                    request_id,
                    message.len() as int,
                )
            }
        },
        _ => None,
    }
}

pub open spec fn model_matches(model: ContextMenuModel, shown: (i32, i32, u64, Seq<EntryView>)) -> bool {
    let (x, y, request_id, entries) = shown;
    &&& model.x == x
    &&& model.y == y
    &&& model.request_id == request_id
    &&& model.entries@.len() == entries.len()
    &&& forall|i: int| 0 <= i < entries.len() ==> entry_matches(#[trigger] model.entries@[i], entries[i])
}

/// Where entry `k` of a show event begins: the entries follow the 24-byte
/// header one after another, each 8 bytes and then its label, whose length
/// stands in the entry's bytes 6..8.
pub open spec fn entry_start(message: Seq<u8>, k: nat) -> int
    decreases k,
{
    if k == 0 {
        24
    } else {
        let at = entry_start(message, (k - 1) as nat);
        at + 8 + spec_u16_from_le_bytes(message.subrange(at + 6, at + 8)) as int
    }
}

proof fn lemma_entries_on_bytes(message: Seq<u8>, n: nat)
    requires
        entries_at(message, 24, n) is Some,
    ensures
        ({
            let (entries, end) = entries_at(message, 24, n)->0;
            &&& entries.len() == n
            &&& end == entry_start(message, n)
            &&& forall|k: int| 0 <= k < n ==> {
                let at = #[trigger] entry_start(message, k as nat);
                &&& 0 <= at && at + 8 <= message.len()
                &&& entries[k].command_id == spec_u32_from_le_bytes(message.subrange(at, at + 4))
                &&& entries[k].flags == spec_u16_from_le_bytes(message.subrange(at + 4, at + 6))
                &&& entries[k].label == decode_utf8(
                    message.subrange(at + 8, at + 8 + spec_u16_from_le_bytes(message.subrange(at + 6, at + 8)) as int),
                )
            }
        }),
    decreases n,
{
    if n > 0 {
        let m = (n - 1) as nat;
        lemma_entries_on_bytes(message, m);
        let (before, at) = entries_at(message, 24, m)->0;
        assert(at >= 24) by {
            lemma_entry_start_grows(message, m);
        }
        let (entries, end) = entries_at(message, 24, n)->0;
        assert forall|k: int| 0 <= k < n implies {
            let at = #[trigger] entry_start(message, k as nat);
            &&& 0 <= at && at + 8 <= message.len()
            &&& entries[k].command_id == spec_u32_from_le_bytes(message.subrange(at, at + 4))
            &&& entries[k].flags == spec_u16_from_le_bytes(message.subrange(at + 4, at + 6))
            &&& entries[k].label == decode_utf8(
                message.subrange(at + 8, at + 8 + spec_u16_from_le_bytes(message.subrange(at + 6, at + 8)) as int),
            )
        } by {
            if k < m {
                assert(entries[k] == before[k]);
            }
        }
    }
}

proof fn lemma_entry_start_grows(message: Seq<u8>, k: nat)
    ensures
        entry_start(message, k) >= 24,
    decreases k,
{
    if k > 0 {
        lemma_entry_start_grows(message, (k - 1) as nat);
    }
}

/// What a menu read from a show event holds, on the event's bytes: entry
/// `k`, which begins at `entry_start`, has the command id of its bytes 0..4
/// and the label its length at bytes 6..8 gives; of the flags at bytes 4..6,
/// bit 0 makes it a separator, bit 1 enabled, bit 2 checked and bit 3
/// destructive. The position and request come from the header.
pub proof fn lemma_menu_entries_on_bytes(message: Seq<u8>, model: ContextMenuModel)
    requires
        shown_menu(message) is Some,
        model_matches(model, shown_menu(message)->0),
    ensures
        model.x == spec_u32_from_le_bytes(message.subrange(4, 8)) as i32,
        model.y == spec_u32_from_le_bytes(message.subrange(8, 12)) as i32,
        model.request_id == spec_u64_from_le_bytes(message.subrange(16, 24)),
        model.entries@.len() == spec_u32_from_le_bytes(message.subrange(12, 16)),
        forall|k: int|
            0 <= k < model.entries@.len() ==> {
                let at = #[trigger] entry_start(message, k as nat);
                let flags = spec_u16_from_le_bytes(message.subrange(at + 4, at + 6));
                &&& model.entries@[k].command_id == spec_u32_from_le_bytes(message.subrange(at, at + 4))
                &&& model.entries@[k].label@ == decode_utf8(
                    message.subrange(at + 8, at + 8 + spec_u16_from_le_bytes(message.subrange(at + 6, at + 8)) as int),
                )
                &&& model.entries@[k].separator == (flags & 1 != 0)
                &&& model.entries@[k].enabled == (flags & 2 != 0)
                &&& model.entries@[k].checked == (flags & 4 != 0)
                &&& model.entries@[k].destructive == (flags & 8 != 0)
            },
{
    let n = spec_u32_from_le_bytes(message.subrange(12, 16)) as nat;
    lemma_entries_on_bytes(message, n);
    let (_, _, _, entries) = shown_menu(message)->0;
    assert forall|k: int| 0 <= k < model.entries@.len() implies {
        let at = #[trigger] entry_start(message, k as nat);
        let flags = spec_u16_from_le_bytes(message.subrange(at + 4, at + 6));
        &&& model.entries@[k].command_id == spec_u32_from_le_bytes(message.subrange(at, at + 4))
        &&& model.entries@[k].label@ == decode_utf8(
            message.subrange(at + 8, at + 8 + spec_u16_from_le_bytes(message.subrange(at + 6, at + 8)) as int),
        )
        &&& model.entries@[k].separator == (flags & 1 != 0)
        &&& model.entries@[k].enabled == (flags & 2 != 0)
        &&& model.entries@[k].checked == (flags & 4 != 0)
        &&& model.entries@[k].destructive == (flags & 8 != 0)
    } by {
        assert(entry_matches(model.entries@[k], entries[k]));
    }
}

/// The menu that a show event describes.
pub fn parse_show(message: &[u8]) -> (model: Option<ContextMenuModel>)
    ensures
        match (model, shown_menu(message@)) {
            (Some(model), Some(shown)) => model_matches(model, shown),
            (None, None) => true,
            _ => false,
        },
{
    let x = match read_i32(message, 4) {
        Some(x) => x,
        None => {
            return None;
        },
    };
    let y = match read_i32(message, 8) {
        Some(y) => y,
        None => {
            return None;
        },
    };
    let item_count = match read_u32(message, 12) {
        Some(count) => count,
        None => {
            return None;
        },
    };
    let request_id = match read_u64(message, 16) {
        Some(id) => id,
        None => {
            return None;
        },
    };
    if request_id == 0 || item_count == 0 || item_count > MAX_ITEMS {
        return None;
    }
    let total = message.len();
    assert(shown_menu(message@) == finish_show(
        entries_at(message@, 24, item_count as nat),
        x,
        y,
        request_id,
        message@.len() as int,
    ));
    let mut entries: Vec<ContextMenuEntry> = Vec::new();
    let mut offset: usize = 24;
    let mut index: u32 = 0;
    let ghost mut views: Seq<EntryView> = Seq::empty();
    while index < item_count
        invariant
            index <= item_count <= MAX_ITEMS,
            total == message@.len(),
            shown_menu(message@) == finish_show(
                entries_at(message@, 24, item_count as nat),
                x,
                y,
                request_id,
                message@.len() as int,
            ),
            entries_at(message@, 24, index as nat) == Some((views, offset as int)),
            entries@.len() == views.len(),
            forall|i: int| 0 <= i < views.len() ==> entry_matches(#[trigger] entries@[i], views[i]),
        decreases item_count - index,
    {
        let ghost next = (index + 1) as nat;
        assert((next - 1) as nat == index as nat);
        let command_id = match read_u32(message, offset) {
            Some(value) => value,
            None => {
                proof {
                    assert(entries_at(message@, 24, next) is None);
                    lemma_entries_fail_for_more(message@, 24, next, item_count as nat);
                }
                return None;
            },
        };
        let flags_at = match offset.checked_add(4) {
            Some(at) => at,
            None => {
                proof {
                    assert(entries_at(message@, 24, next) is None);
                    lemma_entries_fail_for_more(message@, 24, next, item_count as nat);
                }
                return None;
            },
        };
        let flags = match read_u16(message, flags_at) {
            Some(value) => value,
            None => {
                proof {
                    assert(entries_at(message@, 24, next) is None);
                    lemma_entries_fail_for_more(message@, 24, next, item_count as nat);
                }
                return None;
            },
        };
        let length_at = match offset.checked_add(6) {
            Some(at) => at,
            None => {
                proof {
                    assert(entries_at(message@, 24, next) is None);
                    lemma_entries_fail_for_more(message@, 24, next, item_count as nat);
                }
                return None;
            },
        };
        let label_len = match read_u16(message, length_at) {
            Some(value) => value as usize,
            None => {
                proof {
                    assert(entries_at(message@, 24, next) is None);
                    lemma_entries_fail_for_more(message@, 24, next, item_count as nat);
                }
                return None;
            },
        };
        if label_len > MAX_LABEL_BYTES {
            proof {
                assert(entries_at(message@, 24, next) is None);
                    lemma_entries_fail_for_more(message@, 24, next, item_count as nat);
            }
            return None;
        }
        if offset > total || total - offset < 8 || total - offset - 8 < label_len {
            proof {
                assert(entries_at(message@, 24, next) is None);
                    lemma_entries_fail_for_more(message@, 24, next, item_count as nat);
            }
            return None;
        }
        let start = offset + 8;
        let label_bytes = slice_subrange(message, start, start + label_len);
        let label = match utf8_text(label_bytes) {
            Some(label) => label,
            None => {
                proof {
                    assert(entries_at(message@, 24, next) is None);
                    lemma_entries_fail_for_more(message@, 24, next, item_count as nat);
                }
                return None;
            },
        };
        let entry = ContextMenuEntry {
            command_id,
            label,
            separator: flags & 1 != 0,
            enabled: flags & 2 != 0,
            checked: flags & 4 != 0,
            destructive: flags & 8 != 0,
        };
        proof {
            views = views.push(EntryView { command_id, label: decode_utf8(label_bytes@), flags });
        }
        entries.push(entry);
        offset = start + label_len;
        index = index + 1;
    }
    if offset != message.len() {
        return None;
    }
    Some(ContextMenuModel { request_id, x, y, entries })
}


fn push_bytes(out: &mut Vec<u8>, bytes: &[u8])
    ensures
        final(out)@ == old(out)@ + bytes@,
{
    let mut index: usize = 0;
    while index < bytes.len()
        invariant
            index <= bytes@.len(),
            out@ == old(out)@ + bytes@.subrange(0, index as int),
        decreases bytes@.len() - index,
    {
        out.push(bytes[index]);
        index = index + 1;
        assert(out@ =~= old(out)@ + bytes@.subrange(0, index as int));
    }
    assert(bytes@.subrange(0, bytes@.len() as int) =~= bytes@);
}

/// The request that subscribes `endpoint` to the compositor's context menus.
pub open spec fn subscribe_request(endpoint: u64) -> Seq<u8> {
    spec_u32_to_le_bytes(OP_CONTEXT_MENU_SUBSCRIBE) + spec_u64_to_le_bytes(endpoint)
}

pub fn encode_subscribe_request(endpoint: u64) -> (request: Vec<u8>)
    ensures
        request@ == subscribe_request(endpoint),
{
    let mut request: Vec<u8> = Vec::new();
    let opcode = u32_to_le_bytes(OP_CONTEXT_MENU_SUBSCRIBE);
    push_bytes(&mut request, opcode.as_slice());
    let endpoint_bytes = u64_to_le_bytes(endpoint);
    push_bytes(&mut request, endpoint_bytes.as_slice());
    request
}

/// The request that answers the menu `request_id`: with the command chosen,
/// or dismissed when none was.
pub open spec fn complete_request(request_id: u64, command_id: Option<u32>) -> Seq<u8> {
    spec_u32_to_le_bytes(OP_CONTEXT_MENU_COMPLETE) + spec_u32_to_le_bytes(
        if command_id is None {
            1
        } else {
            0
        },
    ) + spec_u64_to_le_bytes(request_id) + spec_u32_to_le_bytes(
        match command_id {
            Some(command) => command,
            None => 0,
        },
    ) + seq![0u8, 0u8, 0u8, 0u8]
}

/// The answer to a menu; there is no menu zero to answer (`EINVAL`).
pub fn encode_complete_request(request_id: u64, command_id: Option<u32>) -> (request: Result<
    Vec<u8>,
    ContextMenuError,
>)
    ensures
        request_id == 0 ==> request == Err::<Vec<u8>, ContextMenuError>(ContextMenuError(22)),
        request_id != 0 ==> request is Ok && request->Ok_0@ == complete_request(request_id, command_id),
{
    if request_id == 0 {
        return Err(ContextMenuError(22));
    }
    let mut request: Vec<u8> = Vec::new();
    let opcode = u32_to_le_bytes(OP_CONTEXT_MENU_COMPLETE);
    push_bytes(&mut request, opcode.as_slice());
    let dismissed = u32_to_le_bytes(if command_id.is_none() { 1u32 } else { 0u32 });
    push_bytes(&mut request, dismissed.as_slice());
    let id = u64_to_le_bytes(request_id);
    push_bytes(&mut request, id.as_slice());
    let command = u32_to_le_bytes(
        match command_id {
            Some(command) => command,
            None => 0,
        },
    );
    push_bytes(&mut request, command.as_slice());
    request.push(0);
    request.push(0);
    request.push(0);
    request.push(0);
    Ok(request)
}

/// What an IPC reply means: a reply shorter than a status word is an I/O
/// error (`EIO`); otherwise its status, zero for success.
pub fn reply_status(message: u64, reply: &[u8]) -> (status: Result<(), ContextMenuError>)
    ensures
        (message & 0xffff_ffff) < 4 ==> status == Err::<(), ContextMenuError>(ContextMenuError(5)),
        (message & 0xffff_ffff) >= 4 ==> match field(reply@, 0, 4) {
            Some(word) => if spec_u32_from_le_bytes(word) == 0 {
                status is Ok
            } else {
                status == Err::<(), ContextMenuError>(
                    ContextMenuError(spec_u32_from_le_bytes(word) as u64),
                )
            },
            None => status == Err::<(), ContextMenuError>(ContextMenuError(5)),
        },
{
    if (message & 0xffff_ffff) < 4 {
        return Err(ContextMenuError(5));
    }
    match read_u32(reply, 0) {
        Some(0) => Ok(()),
        Some(status) => Err(ContextMenuError(status as u64)),
        None => Err(ContextMenuError(5)),
    }
}

/// What a message from the compositor asks of the context-menu manager.
#[derive(Debug)]
pub enum MenuMessage {
    /// Show this menu.
    Show(ContextMenuModel),
    /// The menu with this request id was dismissed.
    Dismiss(u64),
    /// The message is not about context menus.
    Other,
}

/// Reads a message: a show event with its menu, a dismiss event with its
/// request id, or something else; a malformed event is `EINVAL`.
pub fn classify_message(message: &[u8]) -> (result: Result<MenuMessage, ContextMenuError>)
    ensures
        match field(message@, 0, 4) {
            Some(word) => if spec_u32_from_le_bytes(word) == CONTEXT_MENU_EVENT_SHOW {
                match (result, shown_menu(message@)) {
                    (Ok(MenuMessage::Show(model)), Some(shown)) => model_matches(model, shown),
                    (Err(error), None) => error == ContextMenuError(22),
                    _ => false,
                }
            } else if spec_u32_from_le_bytes(word) == CONTEXT_MENU_EVENT_DISMISS {
                match field(message@, 8, 8) {
                    Some(id) => result matches Ok(MenuMessage::Dismiss(d)) && d == spec_u64_from_le_bytes(id),
                    None => result == Err::<MenuMessage, ContextMenuError>(ContextMenuError(22)),
                }
            } else {
                result matches Ok(MenuMessage::Other)
            },
            None => result matches Ok(MenuMessage::Other),
        },
{
    match read_u32(message, 0) {
        Some(kind) => {
            if kind == CONTEXT_MENU_EVENT_SHOW {
                match parse_show(message) {
                    Some(model) => Ok(MenuMessage::Show(model)),
                    None => Err(ContextMenuError(22)),
                }
            } else if kind == CONTEXT_MENU_EVENT_DISMISS {
                match read_u64(message, 8) {
                    Some(request_id) => Ok(MenuMessage::Dismiss(request_id)),
                    None => Err(ContextMenuError(22)),
                }
            } else {
                Ok(MenuMessage::Other)
            }
        },
        None => Ok(MenuMessage::Other),
    }
}

/// What the manager does about a message.
#[derive(Clone, Copy, Debug, PartialEq, Eq, Structural)]
pub enum MenuOutcome {
    /// The message was about context menus and needs nothing more.
    Handled,
    /// The message was not about context menus.
    Unhandled,
    /// The menu on screen, with this request id, was dismissed: the
    /// compositor is to be told it ended with no command, and then the menu
    /// is gone (`completed`).
    Complete(u64),
}

/// The context menu on screen, as the desktop keeps it.
pub struct ContextMenuState {
    pub shown: Option<ContextMenuModel>,
}

/// Whether the menu on screen is the one with `request_id`.
pub open spec fn shows_request(shown: Option<ContextMenuModel>, request_id: u64) -> bool {
    shown matches Some(model) && model.request_id == request_id
}

impl ContextMenuState {
    /// No menu on screen.
    pub fn new() -> (state: Self)
        ensures
            state.shown is None,
    {
        ContextMenuState { shown: None }
    }

    /// Takes in a message from the compositor: a show event puts its menu
    /// on screen; a dismiss event for the menu on screen asks for its
    /// completion, and one for another menu is ignored; a malformed event
    /// changes nothing and is refused.
    pub fn receive(&mut self, message: &[u8]) -> (outcome: Result<MenuOutcome, ContextMenuError>)
        ensures
            match field(message@, 0, 4) {
                Some(word) => if spec_u32_from_le_bytes(word) == CONTEXT_MENU_EVENT_SHOW {
                    match shown_menu(message@) {
                        Some(menu) => outcome == Ok::<MenuOutcome, ContextMenuError>(MenuOutcome::Handled)
                            && (final(self).shown matches Some(model) && model_matches(model, menu)),
                        None => outcome == Err::<MenuOutcome, ContextMenuError>(ContextMenuError(22))
                            && final(self).shown == old(self).shown,
                    }
                } else if spec_u32_from_le_bytes(word) == CONTEXT_MENU_EVENT_DISMISS {
                    final(self).shown == old(self).shown && match field(message@, 8, 8) {
                        Some(id) => outcome == Ok::<MenuOutcome, ContextMenuError>(
                            if shows_request(old(self).shown, spec_u64_from_le_bytes(id)) {
                                MenuOutcome::Complete(spec_u64_from_le_bytes(id))
                            } else {
                                MenuOutcome::Handled
                            },
                        ),
                        None => outcome == Err::<MenuOutcome, ContextMenuError>(ContextMenuError(22)),
                    }
                } else {
                    outcome == Ok::<MenuOutcome, ContextMenuError>(MenuOutcome::Unhandled)
                        && final(self).shown == old(self).shown
                },
                None => outcome == Ok::<MenuOutcome, ContextMenuError>(MenuOutcome::Unhandled)
                    && final(self).shown == old(self).shown,
            },
    {
        match classify_message(message) {
            Ok(MenuMessage::Show(model)) => {
                self.shown = Some(model);
                Ok(MenuOutcome::Handled)
            },
            Ok(MenuMessage::Dismiss(request_id)) => {
                let on_screen = match &self.shown {
                    Some(model) => model.request_id == request_id,
                    None => false,
                };
                if on_screen {
                    Ok(MenuOutcome::Complete(request_id))
                } else {
                    Ok(MenuOutcome::Handled)
                }
            },
            Ok(MenuMessage::Other) => Ok(MenuOutcome::Unhandled),
            Err(error) => Err(error),
        }
    }

    /// The menu with `request_id` was completed: it leaves the screen if it
    /// is the one shown.
    pub fn completed(&mut self, request_id: u64)
        ensures
            final(self).shown == (if shows_request(old(self).shown, request_id) {
                None
            } else {
                old(self).shown
            }),
    {
        let on_screen = match &self.shown {
            Some(model) => model.request_id == request_id,
            None => false,
        };
        if on_screen {
            self.shown = None;
        }
    }
}

} // verus!
