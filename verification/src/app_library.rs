//! The App Library: the grid of installed applications that the Dock opens,
//! searched by name, bundle identifier or developer and browsed page by
//! page. Hit testing and drawing belong to the toolkit; what is selected,
//! which page shows and what a key or a click does is decided here.
use crate::platform::AppInfo;
use crate::text::{chars_of, trim, trim_chars};
use vstd::prelude::*;

verus! {

pub const GRID_COLUMNS: usize = 5;

pub const GRID_ROWS: usize = 3;

/// The applications on one page of the grid.
pub const PAGE_SIZE: usize = 15;

/// The longest search query, in characters.
pub const MAX_QUERY_CHARS: usize = 64;

/// What `str::to_lowercase` makes of a text.
pub uninterp spec fn lowercase_of(text: Seq<char>) -> Seq<char>;

/// `str::to_lowercase`: the text with every character replaced by its
/// lowercase mapping in the Unicode tables of the standard library. The
/// contract names the result and says nothing of the mapping itself.
#[verifier::external_body]
fn lowercase(text: &str) -> (lower: String)
    ensures
        lower@ == lowercase_of(text@),
{
    text.to_lowercase()
}

/// Whether `needle` occurs in `hay` as a run of consecutive characters.
pub open spec fn contains_text(hay: Seq<char>, needle: Seq<char>) -> bool {
    exists|i: int| 0 <= i && i + needle.len() <= hay.len() && #[trigger] hay.subrange(i, i + needle.len()) == needle
}

fn text_contains(hay: &[char], needle: &[char]) -> (found: bool)
    ensures
        found == contains_text(hay@, needle@),
{
    if needle.len() == 0 {
        assert(hay@.subrange(0, 0 + needle@.len() as int) =~= needle@);
        return true;
    }
    if needle.len() > hay.len() {
        return false;
    }
    let hay_len = hay.len();
    let last = hay_len - needle.len();
    let mut start: usize = 0;
    while start <= last
        invariant
            last + needle@.len() == hay@.len() == hay_len,
            needle@.len() >= 1,
            start <= last + 1,
            forall|i: int| 0 <= i < start ==> #[trigger] hay@.subrange(i, i + needle@.len()) != needle@,
        decreases last + 1 - start,
    {
        let mut k: usize = 0;
        let mut same = true;
        while k < needle.len()
            invariant
                k <= needle@.len(),
                start <= last,
                last + needle@.len() == hay@.len() == hay_len,
                same == forall|m: int| 0 <= m < k ==> hay@[start + m] == needle@[m],
            decreases needle@.len() - k,
        {
            if hay[start + k] != needle[k] {
                same = false;
            }
            k = k + 1;
        }
        if same {
            assert(hay@.subrange(start as int, start + needle@.len()) =~= needle@);
            return true;
        }
        assert(hay@.subrange(start as int, start + needle@.len())[(choose|m: int| 0 <= m < needle@.len() && hay@[start + m] != needle@[m])] != needle@[(choose|m: int| 0 <= m < needle@.len() && hay@[start + m] != needle@[m])]);
        start = start + 1;
    }
    proof {
        assert forall|i: int| 0 <= i && i + needle@.len() <= hay@.len() implies #[trigger] hay@.subrange(i, i + needle@.len()) != needle@ by {
            assert(i < start);
        }
    }
    false
}

/// Whether an application whose name, bundle identifier and developer read
/// as given, in lowercase, matches a lowercase query: an empty query matches
/// every application.
pub open spec fn matches_lowered(name: Seq<char>, bundle_id: Seq<char>, developer: Seq<char>, query: Seq<char>) -> bool {
    query.len() == 0 || contains_text(name, query) || contains_text(bundle_id, query) || contains_text(
        developer,
        query,
    )
}

/// Whether an application matches a query already in lowercase, given its
/// name, bundle identifier and developer in lowercase.
pub fn app_matches_lowered(name: &str, bundle_id: &str, developer: &str, query: &str) -> (matched: bool)
    ensures
        matched == matches_lowered(name@, bundle_id@, developer@, query@),
{
    let query_chars = chars_of(query);
    if query_chars.len() == 0 {
        return true;
    }
    let name_chars = chars_of(name);
    if text_contains(name_chars.as_slice(), query_chars.as_slice()) {
        return true;
    }
    let bundle_chars = chars_of(bundle_id);
    if text_contains(bundle_chars.as_slice(), query_chars.as_slice()) {
        return true;
    }
    let developer_chars = chars_of(developer);
    text_contains(developer_chars.as_slice(), query_chars.as_slice())
}

/// Whether `app` matches the search query as typed: the query without
/// surrounding white space, in lowercase, against the application's name,
/// bundle identifier and developer in lowercase.
pub open spec fn app_matches(app: AppInfo, query: Seq<char>) -> bool {
    matches_lowered(
        lowercase_of(app.name@),
        lowercase_of(app.bundle_id@),
        lowercase_of(app.developer@),
        lowercase_of(trim(query)),
    )
}

/// The positions of the applications that match the query, in catalogue
/// order.
pub open spec fn matching_indices(apps: Seq<AppInfo>, query: Seq<char>) -> Seq<usize>
    decreases apps.len(),
{
    if apps.len() == 0 {
        Seq::empty()
    } else {
        let earlier = matching_indices(apps.drop_last(), query);
        if app_matches(apps.last(), query) {
            earlier.push((apps.len() - 1) as usize)
        } else {
            earlier
        }
    }
}

/// The positions of the applications that match the search query, in
/// catalogue order.
pub fn matching_app_indices(apps: &[AppInfo], query: &str) -> (indices: Vec<usize>)
    ensures
        indices@ == matching_indices(apps@, query@),
{
    let query_chars = chars_of(query);
    let trimmed = crate::text::string_from_chars(trim_chars(query_chars.as_slice()).as_slice());
    let lowered_query = lowercase(trimmed.as_str());
    let mut indices: Vec<usize> = Vec::new();
    let mut i: usize = 0;
    while i < apps.len()
        invariant
            i <= apps@.len(),
            lowered_query@ == lowercase_of(trim(query@)),
            indices@ == matching_indices(apps@.take(i as int), query@),
        decreases apps@.len() - i,
    {
        let app = &apps[i];
        let name = lowercase(app.name.as_str());
        let bundle_id = lowercase(app.bundle_id.as_str());
        let developer = lowercase(app.developer.as_str());
        let matched = app_matches_lowered(
            name.as_str(),
            bundle_id.as_str(),
            developer.as_str(),
            lowered_query.as_str(),
        );
        assert(apps@.take(i + 1).drop_last() =~= apps@.take(i as int));
        assert(apps@.take(i + 1).last() == apps@[i as int]);
        if matched {
            indices.push(i);
        }
        i = i + 1;
    }
    assert(apps@.take(i as int) =~= apps@);
    indices
}

/// The search finds exactly the applications whose name, bundle identifier
/// or developer, in lowercase, holds the query (trimmed and in lowercase)
/// as a run of characters; an empty query finds every application. They come
/// in catalogue order, each once.
pub proof fn lemma_search_finds_matching_fields(apps: Seq<AppInfo>, query: Seq<char>)
    requires
        apps.len() <= usize::MAX,
    ensures
        ({
            let q = lowercase_of(trim(query));
            let found = matching_indices(apps, query);
            &&& forall|i: int|
                0 <= i < apps.len() ==> (found.contains(i as usize) <==> (q.len() == 0 || contains_text(
                    lowercase_of((#[trigger] apps[i]).name@),
                    q,
                ) || contains_text(lowercase_of(apps[i].bundle_id@), q) || contains_text(
                    lowercase_of(apps[i].developer@),
                    q,
                )))
            &&& forall|k: int| 0 <= k < found.len() ==> (#[trigger] found[k]) < apps.len()
            &&& forall|k: int, l: int| 0 <= k < l < found.len() ==> (#[trigger] found[k]) < (#[trigger] found[l])
        }),
    decreases apps.len(),
{
    if apps.len() > 0 {
        let rest = apps.drop_last();
        lemma_search_finds_matching_fields(rest, query);
        let q = lowercase_of(trim(query));
        let found = matching_indices(apps, query);
        let earlier = matching_indices(rest, query);
        let n = apps.len() - 1;
        assert forall|i: int| 0 <= i < apps.len() implies (found.contains(i as usize) <==> (q.len() == 0
            || contains_text(lowercase_of((#[trigger] apps[i]).name@), q) || contains_text(
            lowercase_of(apps[i].bundle_id@),
            q,
        ) || contains_text(lowercase_of(apps[i].developer@), q))) by {
            if i < n {
                assert(rest[i] == apps[i]);
                if found.contains(i as usize) && !earlier.contains(i as usize) {
                    let k = choose|k: int| 0 <= k < found.len() && found[k] == i as usize;
                    assert(k == earlier.len());
                    assert(false);
                }
                if earlier.contains(i as usize) {
                    let k = choose|k: int| 0 <= k < earlier.len() && earlier[k] == i as usize;
                    assert(found[k] == i as usize);
                }
            } else {
                assert(apps.last() == apps[i]);
                if earlier.contains(i as usize) {
                    let k = choose|k: int| 0 <= k < earlier.len() && earlier[k] == i as usize;
                    assert(false);
                }
                if app_matches(apps.last(), query) {
                    assert(found[earlier.len() as int] == i as usize);
                } else if found.contains(i as usize) {
                    assert(false);
                }
            }
        }
    }
}

/// The number of pages that `item_count` applications fill: at least one,
/// even with nothing to show.
pub open spec fn pages_for(item_count: int) -> int {
    if item_count <= 0 {
        1
    } else {
        (item_count + PAGE_SIZE - 1) / PAGE_SIZE as int
    }
}

/// The pages are just enough for the applications: at least one, all of
/// them fit, and with one page fewer they would not; so the last page that
/// can be selected begins with an application whenever there is one.
pub proof fn lemma_pages_just_fit(item_count: int)
    ensures
        item_count > 0 ==> 0 <= last_page(item_count) * PAGE_SIZE < item_count,
        item_count <= 0 ==> last_page(item_count) == 0,
        pages_for(item_count) >= 1,
        pages_for(item_count) * PAGE_SIZE >= item_count,
        item_count > 0 ==> (pages_for(item_count) - 1) * PAGE_SIZE < item_count,
        item_count <= 0 ==> pages_for(item_count) == 1,
{
    if item_count > 0 {
        let p = pages_for(item_count);
        assert(p == (item_count + 14) / 15);
        assert(p * 15 >= item_count && (p - 1) * 15 < item_count) by (nonlinear_arith)
            requires
                p == (item_count + 14) / 15,
                item_count > 0,
        ;
    }
}

pub fn page_count(item_count: usize) -> (pages: usize)
    ensures
        pages == pages_for(item_count as int),
{
    let whole = item_count / PAGE_SIZE;
    let pages = if item_count % PAGE_SIZE != 0 {
        whole + 1
    } else {
        whole
    };
    if pages < 1 {
        1
    } else {
        pages
    }
}

/// The position among the matches of the first application on `page`,
/// held at the largest position there is.
fn page_start(page: usize) -> (start: usize)
    ensures
        start == (if page * PAGE_SIZE > usize::MAX {
            usize::MAX as int
        } else {
            page * PAGE_SIZE
        }),
{
    if page > usize::MAX / PAGE_SIZE {
        usize::MAX
    } else {
        page * PAGE_SIZE
    }
}

/// Whether `i` is the first position of `value` in `items`.
pub open spec fn is_first_position(items: Seq<usize>, value: usize, i: int) -> bool {
    0 <= i < items.len() && items[i] == value && forall|j: int| 0 <= j < i ==> items[j] != value
}

/// The first position of `value` in `items`, if it occurs.
pub open spec fn position_of(items: Seq<usize>, value: usize) -> Option<int> {
    if exists|i: int| 0 <= i < items.len() && items[i] == value {
        Some(choose|i: int| is_first_position(items, value, i))
    } else {
        None
    }
}

proof fn lemma_position_of(items: Seq<usize>, value: usize, i: int)
    requires
        is_first_position(items, value, i),
    ensures
        position_of(items, value) == Some(i),
{
    let k = choose|k: int| is_first_position(items, value, k);
    assert(is_first_position(items, value, k));
    if k < i {
        assert(items[k] != value);
    } else if k > i {
        assert(items[i] != value);
    }
}

/// The selection `offset` places away from `selected` among the filtered
/// applications, held at the first and the last; without a selection among
/// them, the first.
pub open spec fn adjacent_in(filtered: Seq<usize>, selected: Option<usize>, offset: int) -> Option<usize> {
    let current = match selected {
        Some(s) => position_of(filtered, s),
        None => None,
    };
    match current {
        None => if filtered.len() > 0 {
            Some(filtered[0])
        } else {
            None
        },
        Some(c) => {
            let target = if c + offset < 0 {
                0
            } else if c + offset > filtered.len() - 1 {
                filtered.len() - 1
            } else {
                c + offset
            };
            Some(filtered[target])
        },
    }
}

fn find_position(items: &[usize], value: usize) -> (position: Option<usize>)
    ensures
        match position {
            Some(i) => is_first_position(items@, value, i as int),
            None => forall|i: int| 0 <= i < items@.len() ==> items@[i] != value,
        },
{
    let mut i: usize = 0;
    while i < items.len()
        invariant
            i <= items@.len(),
            forall|j: int| 0 <= j < i ==> items@[j] != value,
        decreases items@.len() - i,
    {
        if items[i] == value {
            return Some(i);
        }
        i = i + 1;
    }
    None
}

pub fn adjacent_selection(filtered: &[usize], selected: Option<usize>, offset: isize) -> (next: Option<usize>)
    ensures
        next == adjacent_in(filtered@, selected, offset as int),
{
    let current = match selected {
        Some(s) => find_position(filtered, s),
        None => None,
    };
    proof {
        if let Some(s) = selected {
            if let Some(c) = current {
                lemma_position_of(filtered@, s, c as int);
            }
        }
    }
    let current = match current {
        Some(c) => c,
        None => {
            if filtered.len() > 0 {
                return Some(filtered[0]);
            }
            return None;
        },
    };
    let moved: usize = if offset >= 0 {
        current.saturating_add(offset as usize)
    } else {
        let back: usize = ((-(offset + 1)) as usize) + 1;
        current.saturating_sub(back)
    };
    let last = filtered.len() - 1;
    let target = if moved > last {
        last
    } else {
        moved
    };
    Some(filtered[target])
}


/// Control characters, general category `Cc` of Unicode, as
/// `char::is_control` documents them.
pub open spec fn is_control(c: char) -> bool {
    (c as u32) <= 0x1f || (0x7f <= (c as u32) && (c as u32) <= 0x9f)
}

fn char_is_control(c: char) -> (control: bool)
    ensures
        control == is_control(c),
{
    let code = c as u32;
    code <= 0x1f || (0x7f <= code && code <= 0x9f)
}

/// The query once `typed` is typed into it: control characters are left
/// out, and the query stops growing at `MAX_QUERY_CHARS` characters.
pub open spec fn typed_query(query: Seq<char>, typed: Seq<char>) -> Seq<char>
    decreases typed.len(),
{
    if typed.len() == 0 {
        query
    } else if is_control(typed[0]) {
        typed_query(query, typed.drop_first())
    } else if query.len() >= MAX_QUERY_CHARS {
        query
    } else {
        typed_query(query.push(typed[0]), typed.drop_first())
    }
}

/// Typing never makes the query longer than `MAX_QUERY_CHARS` characters,
/// and never changes what was typed before.
pub proof fn lemma_query_bounded(query: Seq<char>, typed: Seq<char>)
    requires
        query.len() <= MAX_QUERY_CHARS,
    ensures
        query.len() <= typed_query(query, typed).len() <= MAX_QUERY_CHARS,
        typed_query(query, typed).take(query.len() as int) == query,
    decreases typed.len(),
{
    if typed.len() > 0 {
        if is_control(typed[0]) || query.len() >= MAX_QUERY_CHARS {
            lemma_query_bounded(query, typed.drop_first());
        } else {
            lemma_query_bounded(query.push(typed[0]), typed.drop_first());
            let longer = typed_query(query.push(typed[0]), typed.drop_first());
            assert(longer.take(query.len() as int) =~= longer.take(query.len() + 1int).take(query.len() as int));
            assert(query.push(typed[0]).take(query.len() as int) =~= query);
        }
    } else {
        assert(query.take(query.len() as int) =~= query);
    }
}

/// Whether the text holds a carriage return or a line feed: typing it opens
/// the selected application.
pub open spec fn confirms(typed: Seq<char>) -> bool {
    typed.contains('\r') || typed.contains('\n')
}

/// The last page of a list of `count` filtered applications.
pub open spec fn last_page(count: int) -> int {
    pages_for(count) - 1
}

/// The App Library's state between events: the search query, the page shown,
/// and the applications selected, under the pointer, pressed, or showing
/// their menu, each by its position in the catalogue.
pub struct AppLibrary {
    query: Vec<char>,
    page: usize,
    selected: Option<usize>,
    hovered: Option<usize>,
    pressed: Option<usize>,
    menu_index: Option<usize>,
    was_open: bool,
}

impl AppLibrary {
    pub closed spec fn query(&self) -> Seq<char> {
        self.query@
    }

    pub closed spec fn page(&self) -> int {
        self.page as int
    }

    pub closed spec fn selected(&self) -> Option<usize> {
        self.selected
    }

    pub closed spec fn hovered(&self) -> Option<usize> {
        self.hovered
    }

    pub closed spec fn pressed(&self) -> Option<usize> {
        self.pressed
    }

    pub closed spec fn menu_index(&self) -> Option<usize> {
        self.menu_index
    }

    pub closed spec fn in_session(&self) -> bool {
        self.was_open
    }

    /// A library that was never opened.
    pub fn new() -> (library: Self)
        ensures
            library.query().len() == 0,
            library.page() == 0,
            library.selected() is None,
            library.hovered() is None,
            library.pressed() is None,
            library.menu_index() is None,
            !library.in_session(),
    {
        AppLibrary {
            query: Vec::new(),
            page: 0,
            selected: None,
            hovered: None,
            pressed: None,
            menu_index: None,
            was_open: false,
        }
    }

    /// The search query as typed.
    pub fn query_text(&self) -> (text: String)
        ensures
            text@ == self.query(),
    {
        crate::text::string_from_chars(self.query.as_slice())
    }

    pub fn page_index(&self) -> (page: usize)
        ensures
            page == self.page(),
    {
        self.page
    }

    pub fn selection(&self) -> (selected: Option<usize>)
        ensures
            selected == self.selected(),
    {
        self.selected
    }

    pub fn hovered_item(&self) -> (hovered: Option<usize>)
        ensures
            hovered == self.hovered(),
    {
        self.hovered
    }

    pub fn pressed_item(&self) -> (pressed: Option<usize>)
        ensures
            pressed == self.pressed(),
    {
        self.pressed
    }

    pub fn menu_item(&self) -> (menu: Option<usize>)
        ensures
            menu == self.menu_index(),
    {
        self.menu_index
    }

    /// The positions of the applications that match the query.
    pub fn filtered_indices(&self, apps: &[AppInfo]) -> (indices: Vec<usize>)
        ensures
            indices@ == matching_indices(apps@, self.query()),
    {
        let query = crate::text::string_from_chars(self.query.as_slice());
        matching_app_indices(apps, query.as_str())
    }

    /// The library closed: the next opening starts a new session.
    pub fn close(&mut self)
        ensures
            !final(self).in_session(),
            final(self).query() == old(self).query(),
            final(self).page() == old(self).page(),
            final(self).selected() == old(self).selected(),
            final(self).hovered() == old(self).hovered(),
            final(self).pressed() == old(self).pressed(),
            final(self).menu_index() == old(self).menu_index(),
    {
        self.was_open = false;
    }

    /// Back to the first page, with the first match selected and nothing
    /// under the pointer, pressed, or showing its menu.
    pub fn reset_selection(&mut self, apps: &[AppInfo])
        ensures
            ({
                let filtered = matching_indices(apps@, old(self).query());
                &&& final(self).page() == 0
                &&& final(self).selected() == (if filtered.len() > 0 {
                    Some(filtered[0])
                } else {
                    None
                })
            }),
            final(self).hovered() is None,
            final(self).pressed() is None,
            final(self).menu_index() is None,
            final(self).query() == old(self).query(),
            final(self).in_session() == old(self).in_session(),
    {
        let filtered = self.filtered_indices(apps);
        self.page = 0;
        self.selected = if filtered.len() > 0 {
            Some(filtered[0])
        } else {
            None
        };
        self.hovered = None;
        self.pressed = None;
        self.menu_index = None;
    }

    /// Starts a session when the library has just opened: an empty query,
    /// the first page, nothing selected. Within a session nothing changes.
    pub fn ensure_open_session(&mut self, apps: &[AppInfo])
        ensures
            old(self).in_session() ==> *final(self) == *old(self),
            !old(self).in_session() ==> {
                &&& final(self).in_session()
                &&& final(self).query().len() == 0
                &&& final(self).page() == 0
                &&& final(self).selected() is None
                &&& final(self).hovered() is None
                &&& final(self).pressed() is None
                &&& final(self).menu_index() is None
            },
    {
        if self.was_open {
            return;
        }
        self.was_open = true;
        self.query = Vec::new();
        self.reset_selection(apps);
        self.selected = None;
    }

    /// Shows the given page, held at the last, with its first application
    /// selected.
    pub fn select_page(&mut self, apps: &[AppInfo], page: usize)
        ensures
            ({
                let filtered = matching_indices(apps@, old(self).query());
                let shown = if page > last_page(filtered.len() as int) {
                    last_page(filtered.len() as int)
                } else {
                    page as int
                };
                &&& final(self).page() == shown
                &&& final(self).selected() == (if shown * PAGE_SIZE < filtered.len() {
                    Some(filtered[shown * PAGE_SIZE])
                } else {
                    None
                })
            }),
            final(self).hovered() is None,
            final(self).pressed() is None,
            final(self).menu_index() is None,
            final(self).query() == old(self).query(),
            final(self).in_session() == old(self).in_session(),
    {
        let filtered = self.filtered_indices(apps);
        let pages = page_count(filtered.len());
        let last = pages - 1;
        let shown = if page > last {
            last
        } else {
            page
        };
        self.page = shown;
        let first = page_start(shown);
        self.selected = if first < filtered.len() {
            Some(filtered[first])
        } else {
            None
        };
        self.hovered = None;
        self.pressed = None;
        self.menu_index = None;
    }

    /// The page before the one shown, if any.
    pub fn previous_page(&mut self, apps: &[AppInfo])
        ensures
            ({
                let filtered = matching_indices(apps@, old(self).query());
                let wanted = if old(self).page() > 0 {
                    old(self).page() - 1
                } else {
                    0
                };
                let shown = if wanted > last_page(filtered.len() as int) {
                    last_page(filtered.len() as int)
                } else {
                    wanted
                };
                final(self).page() == shown
            }),
            final(self).query() == old(self).query(),
    {
        let page = self.page.saturating_sub(1);
        self.select_page(apps, page);
    }

    /// The page after the one shown, if any.
    pub fn next_page(&mut self, apps: &[AppInfo])
        ensures
            ({
                let filtered = matching_indices(apps@, old(self).query());
                let wanted = if old(self).page() < usize::MAX {
                    old(self).page() + 1
                } else {
                    old(self).page()
                };
                let shown = if wanted > last_page(filtered.len() as int) {
                    last_page(filtered.len() as int)
                } else {
                    wanted
                };
                final(self).page() == shown
            }),
            final(self).query() == old(self).query(),
    {
        let page = self.page.saturating_add(1);
        self.select_page(apps, page);
    }

    /// Moves the selection `offset` places among the matches, showing the
    /// page that holds it.
    pub fn move_selection(&mut self, apps: &[AppInfo], offset: isize)
        ensures
            ({
                let filtered = matching_indices(apps@, old(self).query());
                let next = adjacent_in(filtered, old(self).selected(), offset as int);
                &&& final(self).selected() == next
                &&& final(self).page() == match next {
                    Some(s) => match position_of(filtered, s) {
                        Some(p) => p / PAGE_SIZE as int,
                        None => old(self).page(),
                    },
                    None => old(self).page(),
                }
            }),
            final(self).hovered() is None,
            final(self).pressed() == old(self).pressed(),
            final(self).menu_index() == old(self).menu_index(),
            final(self).query() == old(self).query(),
            final(self).in_session() == old(self).in_session(),
    {
        let filtered = self.filtered_indices(apps);
        let next = adjacent_selection(filtered.as_slice(), self.selected, offset);
        self.selected = next;
        if let Some(s) = next {
            if let Some(p) = find_position(filtered.as_slice(), s) {
                proof {
                    lemma_position_of(filtered@, s, p as int);
                }
                self.page = p / PAGE_SIZE;
            } else {
                proof {
                    assert(!(exists|i: int| 0 <= i < filtered@.len() && filtered@[i] == s));
                }
            }
        }
        self.hovered = None;
    }

    /// The applications shown on the current page, by catalogue position.
    pub fn visible_indices(&self, apps: &[AppInfo]) -> (visible: Vec<usize>)
        ensures
            ({
                let filtered = matching_indices(apps@, self.query());
                let start = if self.page() * PAGE_SIZE > usize::MAX {
                    usize::MAX as int
                } else {
                    self.page() * PAGE_SIZE
                };
                &&& start >= filtered.len() ==> visible@.len() == 0
                &&& start < filtered.len() ==> visible@ == filtered.subrange(
                    start,
                    if start + PAGE_SIZE < filtered.len() {
                        start + PAGE_SIZE
                    } else {
                        filtered.len() as int
                    },
                )
            }),
    {
        let filtered = self.filtered_indices(apps);
        let start = page_start(self.page);
        let mut visible: Vec<usize> = Vec::new();
        if start >= filtered.len() {
            return visible;
        }
        let end = if filtered.len() - start > PAGE_SIZE {
            start + PAGE_SIZE
        } else {
            filtered.len()
        };
        let mut i = start;
        while i < end
            invariant
                start <= i <= end <= filtered@.len(),
                visible@ == filtered@.subrange(start as int, i as int),
            decreases end - i,
        {
            visible.push(filtered[i]);
            i = i + 1;
            assert(visible@ =~= filtered@.subrange(start as int, i as int));
        }
        visible
    }

    /// Takes typed text. Text with a carriage return or a line feed opens
    /// the selected application: the result is its catalogue position.
    /// Other text extends the query and starts the selection over.
    pub fn type_text(&mut self, apps: &[AppInfo], text: &str) -> (open: Option<usize>)
        ensures
            confirms(text@) ==> *final(self) == *old(self) && open == match old(self).selected() {
                Some(s) => if s < apps@.len() {
                    Some(s)
                } else {
                    None
                },
                None => None,
            },
            !confirms(text@) ==> {
                let filtered = matching_indices(apps@, typed_query(old(self).query(), text@));
                &&& open is None
                &&& final(self).query() == typed_query(old(self).query(), text@)
                &&& final(self).page() == 0
                &&& final(self).selected() == (if filtered.len() > 0 {
                    Some(filtered[0])
                } else {
                    None
                })
                &&& final(self).hovered() is None
                &&& final(self).pressed() is None
                &&& final(self).menu_index() is None
                &&& final(self).in_session() == old(self).in_session()
            },
    {
        let typed = chars_of(text);
        let mut k: usize = 0;
        let mut confirm = false;
        while k < typed.len()
            invariant
                k <= typed@.len(),
                typed@ == text@,
                confirm == exists|m: int| 0 <= m < k && (typed@[m] == '\r' || typed@[m] == '\n'),
            decreases typed@.len() - k,
        {
            if typed[k] == '\r' || typed[k] == '\n' {
                confirm = true;
            }
            k = k + 1;
        }
        proof {
            if confirm {
                let m = choose|m: int| 0 <= m < k && (typed@[m] == '\r' || typed@[m] == '\n');
                if typed@[m] == '\r' {
                    assert(text@[m] == '\r');
                } else {
                    assert(text@[m] == '\n');
                }
            } else {
                assert(!text@.contains('\r'));
                assert(!text@.contains('\n'));
            }
        }
        if confirm {
            return match self.selected {
                Some(s) => if s < apps.len() {
                    Some(s)
                } else {
                    None
                },
                None => None,
            };
        }
        let ghost start = self.query@;
        let mut i: usize = 0;
        assert(typed@.skip(0) =~= typed@);
        while i < typed.len()
            invariant
                i <= typed@.len(),
                typed@ == text@,
                typed_query(self.query@, typed@.skip(i as int)) == typed_query(start, text@),
                self.page == old(self).page,
                self.selected == old(self).selected,
                self.hovered == old(self).hovered,
                self.pressed == old(self).pressed,
                self.menu_index == old(self).menu_index,
                self.was_open == old(self).was_open,
            decreases typed@.len() - i,
        {
            let ghost rest = typed@.skip(i as int);
            assert(rest.drop_first() =~= typed@.skip(i + 1));
            let c = typed[i];
            if !char_is_control(c) && self.query.len() >= MAX_QUERY_CHARS {
                assert(typed@.skip(typed@.len() as int) =~= Seq::<char>::empty());
                i = typed.len();
            } else {
                if !char_is_control(c) {
                    self.query.push(c);
                }
                i = i + 1;
            }
        }
        assert(typed@.skip(i as int) =~= Seq::<char>::empty());
        self.reset_selection(apps);
        None
    }

    /// Takes back the last character of the query and starts the selection
    /// over.
    pub fn backspace(&mut self, apps: &[AppInfo])
        ensures
            ({
                let query = if old(self).query().len() > 0 {
                    old(self).query().drop_last()
                } else {
                    old(self).query()
                };
                let filtered = matching_indices(apps@, query);
                &&& final(self).query() == query
                &&& final(self).page() == 0
                &&& final(self).selected() == (if filtered.len() > 0 {
                    Some(filtered[0])
                } else {
                    None
                })
            }),
            final(self).hovered() is None,
            final(self).pressed() is None,
            final(self).menu_index() is None,
            final(self).in_session() == old(self).in_session(),
    {
        self.query.pop();
        self.reset_selection(apps);
    }

    /// The pointer is over the application at `hit`, or over none.
    pub fn hover(&mut self, hit: Option<usize>)
        ensures
            final(self).hovered() == hit,
            final(self).query() == old(self).query(),
            final(self).page() == old(self).page(),
            final(self).selected() == old(self).selected(),
            final(self).pressed() == old(self).pressed(),
            final(self).menu_index() == old(self).menu_index(),
            final(self).in_session() == old(self).in_session(),
    {
        self.hovered = hit;
    }

    /// The primary button went down over the application at `hit`, or over
    /// none: it is pressed and selected.
    pub fn press(&mut self, hit: Option<usize>)
        ensures
            final(self).pressed() == hit,
            final(self).selected() == hit,
            final(self).query() == old(self).query(),
            final(self).page() == old(self).page(),
            final(self).hovered() == old(self).hovered(),
            final(self).menu_index() == old(self).menu_index(),
            final(self).in_session() == old(self).in_session(),
    {
        self.pressed = hit;
        self.selected = hit;
    }

    /// The primary button came up over the application at `hit`, or over
    /// none: releasing over the application pressed opens it, and the result
    /// is its catalogue position.
    pub fn release(&mut self, apps: &[AppInfo], hit: Option<usize>) -> (open: Option<usize>)
        ensures
            open == (if old(self).pressed() == hit && hit is Some && hit->Some_0 < apps@.len() {
                hit
            } else {
                None
            }),
            final(self).pressed() is None,
            final(self).query() == old(self).query(),
            final(self).page() == old(self).page(),
            final(self).selected() == old(self).selected(),
            final(self).hovered() == old(self).hovered(),
            final(self).menu_index() == old(self).menu_index(),
            final(self).in_session() == old(self).in_session(),
    {
        let pressed = self.pressed;
        self.pressed = None;
        match hit {
            Some(i) => if pressed == hit && i < apps.len() {
                Some(i)
            } else {
                None
            },
            None => None,
        }
    }

    /// The secondary button went down over the application at `index`: it is
    /// selected and shows its menu.
    pub fn open_menu(&mut self, index: usize)
        ensures
            final(self).selected() == Some(index),
            final(self).menu_index() == Some(index),
            final(self).query() == old(self).query(),
            final(self).page() == old(self).page(),
            final(self).hovered() == old(self).hovered(),
            final(self).pressed() == old(self).pressed(),
            final(self).in_session() == old(self).in_session(),
    {
        self.selected = Some(index);
        self.menu_index = Some(index);
    }

    /// The menu closed.
    pub fn close_menu(&mut self)
        ensures
            final(self).menu_index() is None,
            final(self).query() == old(self).query(),
            final(self).page() == old(self).page(),
            final(self).selected() == old(self).selected(),
            final(self).hovered() == old(self).hovered(),
            final(self).pressed() == old(self).pressed(),
            final(self).in_session() == old(self).in_session(),
    {
        self.menu_index = None;
    }
}

} // verus!
