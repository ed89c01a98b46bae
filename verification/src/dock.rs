//! The Dock: which applications it shows, in which order, and what pressing,
//! dragging and releasing over them or choosing from their menus does. Where
//! the pointer is, in pixels, is for the toolkit to find out; here an item is
//! named by its place in the Dock.
use crate::dock_preferences::DockPreferences;
use crate::platform::AppInfo;
use crate::text::{same_text, text_equals};
use vstd::prelude::*;

verus! {

/// The bundle identifier under which the App Library sits in the Dock.
pub const APP_LIBRARY_BUNDLE_ID: &'static str = "internal:app-library";

/// An item of the Dock: an installed application, by its place in the
/// catalogue, or the App Library, which always comes last.
#[derive(Clone, Copy, Debug, PartialEq, Eq, Structural)]
pub enum DockItem {
    App(usize),
    AppLibrary,
}

/// What a Dock item's menu offers.
#[derive(Clone, Copy, Debug, PartialEq, Eq, Structural)]
pub enum DockMenuAction {
    Open,
    Pin,
    Unpin,
}

/// The first application at or after `from` with this bundle identifier.
pub open spec fn find_app(apps: Seq<AppInfo>, bundle_id: Seq<char>, from: int) -> Option<usize>
    decreases apps.len() - from,
{
    if from < 0 || from >= apps.len() {
        None
    } else if apps[from].bundle_id@ == bundle_id {
        Some(from as usize)
    } else {
        find_app(apps, bundle_id, from + 1)
    }
}

/// The pinned applications that are installed, in pin order.
pub open spec fn pinned_items(apps: Seq<AppInfo>, pins: Seq<Seq<char>>) -> Seq<DockItem>
    decreases pins.len(),
{
    if pins.len() == 0 {
        Seq::empty()
    } else {
        let earlier = pinned_items(apps, pins.drop_last());
        match find_app(apps, pins.last(), 0) {
            Some(i) => earlier.push(DockItem::App(i)),
            None => earlier,
        }
    }
}

/// The running applications that are installed and not pinned, in the
/// order they run.
pub open spec fn running_items(apps: Seq<AppInfo>, pins: Seq<Seq<char>>, running: Seq<Seq<char>>) -> Seq<DockItem>
    decreases running.len(),
{
    if running.len() == 0 {
        Seq::empty()
    } else {
        let earlier = running_items(apps, pins, running.drop_last());
        if pins.contains(running.last()) {
            earlier
        } else {
            match find_app(apps, running.last(), 0) {
                Some(i) => earlier.push(DockItem::App(i)),
                None => earlier,
            }
        }
    }
}

/// The Dock: the pinned applications, then the other running ones, then
/// the App Library.
pub open spec fn dock_items_of(apps: Seq<AppInfo>, pins: Seq<Seq<char>>, running: Seq<Seq<char>>) -> Seq<DockItem> {
    pinned_items(apps, pins) + running_items(apps, pins, running) + seq![DockItem::AppLibrary]
}

/// The bundle identifier of a Dock item.
pub open spec fn item_bundle(apps: Seq<AppInfo>, item: DockItem) -> Seq<char> {
    match item {
        DockItem::App(i) => apps[i as int].bundle_id@,
        DockItem::AppLibrary => APP_LIBRARY_BUNDLE_ID@,
    }
}

fn find_app_index(apps: &[AppInfo], bundle_id: &str) -> (found: Option<usize>)
    ensures
        found == find_app(apps@, bundle_id@, 0),
        found matches Some(i) ==> i < apps@.len(),
{
    let mut i: usize = 0;
    while i < apps.len()
        invariant
            i <= apps@.len(),
            find_app(apps@, bundle_id@, 0) == find_app(apps@, bundle_id@, i as int),
        decreases apps@.len() - i,
    {
        if same_text(&apps[i].bundle_id, bundle_id) {
            return Some(i);
        }
        i = i + 1;
    }
    None
}

proof fn lemma_find_app_in_range(apps: Seq<AppInfo>, bundle_id: Seq<char>, from: int)
    ensures
        find_app(apps, bundle_id, from) matches Some(i) ==> i < apps.len(),
    decreases apps.len() - from,
{
    if 0 <= from < apps.len() && apps[from].bundle_id@ != bundle_id {
        lemma_find_app_in_range(apps, bundle_id, from + 1);
    }
}

fn pinned_dock_items(apps: &[AppInfo], pinned: &[String]) -> (items: Vec<DockItem>)
    ensures
        items@ == pinned_items(apps@, crate::platform::string_views(pinned@)),
{
    let ghost pins = crate::platform::string_views(pinned@);
    let mut items: Vec<DockItem> = Vec::new();
    let mut i: usize = 0;
    while i < pinned.len()
        invariant
            i <= pinned@.len(),
            pins == crate::platform::string_views(pinned@),
            items@ == pinned_items(apps@, pins.take(i as int)),
        decreases pinned@.len() - i,
    {
        assert(pins.take(i + 1).drop_last() =~= pins.take(i as int));
        assert(pins.take(i + 1).last() == pinned@[i as int]@);
        if let Some(index) = find_app_index(apps, pinned[i].as_str()) {
            items.push(DockItem::App(index));
        }
        i = i + 1;
    }
    assert(pins.take(i as int) =~= pins);
    items
}

/// The items of the Dock, given the installed applications, the pins and
/// the bundle identifiers of the running applications.
pub fn dock_items(apps: &[AppInfo], preferences: &DockPreferences, running: &[String]) -> (items: Vec<DockItem>)
    ensures
        items@ == dock_items_of(apps@, preferences.pins(), crate::platform::string_views(running@)),
{
    let pinned = preferences.pinned();
    let mut items = pinned_dock_items(apps, pinned);
    let ghost first = items@;
    let ghost names = crate::platform::string_views(running@);
    let ghost pins = preferences.pins();
    let mut i: usize = 0;
    while i < running.len()
        invariant
            i <= running@.len(),
            names == crate::platform::string_views(running@),
            pins == preferences.pins(),
            first == pinned_items(apps@, pins),
            items@ == first + running_items(apps@, pins, names.take(i as int)),
        decreases running@.len() - i,
    {
        assert(names.take(i + 1).drop_last() =~= names.take(i as int));
        assert(names.take(i + 1).last() == running@[i as int]@);
        if !preferences.is_pinned(running[i].as_str()) {
            if let Some(index) = find_app_index(apps, running[i].as_str()) {
                items.push(DockItem::App(index));
                assert(items@ =~= first + running_items(apps@, pins, names.take(i + 1)));
            }
        }
        i = i + 1;
    }
    assert(names.take(i as int) =~= names);
    items.push(DockItem::AppLibrary);
    assert(items@ =~= dock_items_of(apps@, pins, names));
    items
}

/// How many pinned applications the Dock shows: those installed.
pub fn pinned_visible_count(apps: &[AppInfo], preferences: &DockPreferences) -> (count: usize)
    ensures
        count == pinned_items(apps@, preferences.pins()).len(),
{
    pinned_dock_items(apps, preferences.pinned()).len()
}

/// The bundle identifier of a Dock item, as text.
pub fn item_bundle_id(apps: &[AppInfo], item: DockItem) -> (bundle_id: String)
    requires
        item matches DockItem::App(i) ==> i < apps@.len(),
    ensures
        bundle_id@ == item_bundle(apps@, item),
{
    match item {
        DockItem::App(i) => apps[i].bundle_id.clone(),
        DockItem::AppLibrary => APP_LIBRARY_BUNDLE_ID.to_owned(),
    }
}

/// Whether every application item of the Dock names an installed
/// application.
pub open spec fn items_installed(apps: Seq<AppInfo>, items: Seq<DockItem>) -> bool {
    forall|j: int| 0 <= j < items.len() ==> (#[trigger] items[j] matches DockItem::App(i) ==> i < apps.len())
}

/// The first place in the Dock of an item with this bundle identifier.
pub open spec fn item_position(apps: Seq<AppInfo>, items: Seq<DockItem>, bundle_id: Seq<char>, from: int) -> Option<usize>
    decreases items.len() - from,
{
    if from < 0 || from >= items.len() {
        None
    } else if item_bundle(apps, items[from]) == bundle_id {
        Some(from as usize)
    } else {
        item_position(apps, items, bundle_id, from + 1)
    }
}

fn find_item(apps: &[AppInfo], items: &[DockItem], bundle_id: &str) -> (found: Option<usize>)
    requires
        items_installed(apps@, items@),
    ensures
        found == item_position(apps@, items@, bundle_id@, 0),
{
    let mut i: usize = 0;
    while i < items.len()
        invariant
            i <= items@.len(),
            items_installed(apps@, items@),
            item_position(apps@, items@, bundle_id@, 0) == item_position(apps@, items@, bundle_id@, i as int),
        decreases items@.len() - i,
    {
        assert(items@[i as int] matches DockItem::App(a) ==> a < apps@.len());
        let candidate = item_bundle_id(apps, items[i]);
        if text_equals(candidate.as_str(), bundle_id) {
            return Some(i);
        }
        i = i + 1;
    }
    None
}

/// The Dock items all name installed applications.
pub proof fn lemma_dock_items_installed(apps: Seq<AppInfo>, pins: Seq<Seq<char>>, running: Seq<Seq<char>>)
    ensures
        items_installed(apps, dock_items_of(apps, pins, running)),
{
    lemma_pinned_items_installed(apps, pins);
    lemma_running_items_installed(apps, pins, running);
    let items = dock_items_of(apps, pins, running);
    let first = pinned_items(apps, pins);
    let second = running_items(apps, pins, running);
    assert forall|j: int| 0 <= j < items.len() implies (#[trigger] items[j] matches DockItem::App(i) ==> i < apps.len()) by {
        if j < first.len() {
            assert(items[j] == first[j]);
        } else if j < first.len() + second.len() {
            assert(items[j] == second[j - first.len()]);
        }
    }
}

/// Whether an application with this bundle identifier is installed.
pub open spec fn installed(apps: Seq<AppInfo>, bundle_id: Seq<char>) -> bool {
    exists|i: int| 0 <= i < apps.len() && (#[trigger] apps[i]).bundle_id@ == bundle_id
}

/// The bundle identifiers that name an installed application.
pub open spec fn installed_in(apps: Seq<AppInfo>) -> spec_fn(Seq<char>) -> bool {
    |name: Seq<char>| installed(apps, name)
}

/// The bundle identifiers that are not pinned and name an installed
/// application.
pub open spec fn unpinned_installed_in(apps: Seq<AppInfo>, pins: Seq<Seq<char>>) -> spec_fn(Seq<char>) -> bool {
    |name: Seq<char>| !pins.contains(name) && installed(apps, name)
}

/// Whether the Dock item is the installed application with this bundle
/// identifier.
pub open spec fn names_installed(apps: Seq<AppInfo>, item: DockItem, bundle_id: Seq<char>) -> bool {
    item matches DockItem::App(i) && i < apps.len() && apps[i as int].bundle_id@ == bundle_id
}

proof fn lemma_find_app_found(apps: Seq<AppInfo>, bundle_id: Seq<char>, from: int)
    requires
        0 <= from,
        apps.len() <= usize::MAX,
    ensures
        find_app(apps, bundle_id, from) matches Some(i) ==> from <= i < apps.len() && apps[i as int].bundle_id@
            == bundle_id,
        find_app(apps, bundle_id, from) is None ==> forall|j: int| from <= j < apps.len() ==> (#[trigger] apps[j]).bundle_id@
            != bundle_id,
    decreases apps.len() - from,
{
    if from < apps.len() && apps[from].bundle_id@ != bundle_id {
        lemma_find_app_found(apps, bundle_id, from + 1);
    }
}

proof fn lemma_find_app_installed(apps: Seq<AppInfo>, bundle_id: Seq<char>)
    requires
        apps.len() <= usize::MAX,
    ensures
        find_app(apps, bundle_id, 0) is Some <==> installed(apps, bundle_id),
        find_app(apps, bundle_id, 0) matches Some(i) ==> names_installed(apps, DockItem::App(i), bundle_id),
{
    lemma_find_app_found(apps, bundle_id, 0);
    if installed(apps, bundle_id) {
        let k = choose|i: int| 0 <= i < apps.len() && (#[trigger] apps[i]).bundle_id@ == bundle_id;
        assert(apps[k].bundle_id@ == bundle_id);
    }
}

proof fn lemma_pinned_items_follow_pins(apps: Seq<AppInfo>, pins: Seq<Seq<char>>)
    requires
        apps.len() <= usize::MAX,
    ensures
        ({
            let shown = pins.filter(installed_in(apps));
            &&& pinned_items(apps, pins).len() == shown.len()
            &&& forall|k: int| 0 <= k < shown.len() ==> names_installed(apps, #[trigger] pinned_items(apps, pins)[k], shown[k])
        }),
    decreases pins.len(),
{
    if pins.len() > 0 {
        let rest = pins.drop_last();
        lemma_pinned_items_follow_pins(apps, rest);
        lemma_find_app_installed(apps, pins.last());
        let items = pinned_items(apps, pins);
        let before = pinned_items(apps, rest);
        let shown = pins.filter(installed_in(apps));
        let shown_before = rest.filter(installed_in(apps));
        let last = pins.last();
        reveal(Seq::filter);
        assert(installed_in(apps)(last) == installed(apps, last));
        assert(shown == if installed(apps, last) {
            shown_before.push(last)
        } else {
            shown_before
        });
        assert(items == match find_app(apps, last, 0) {
            Some(i) => before.push(DockItem::App(i)),
            None => before,
        });
        assert forall|k: int| 0 <= k < shown.len() implies names_installed(apps, #[trigger] items[k], shown[k]) by {
            if k < shown_before.len() {
                assert(items[k] == before[k]);
                assert(shown[k] == shown_before[k]);
            }
        }
    }
}

proof fn lemma_running_items_follow_running(apps: Seq<AppInfo>, pins: Seq<Seq<char>>, running: Seq<Seq<char>>)
    requires
        apps.len() <= usize::MAX,
    ensures
        ({
            let shown = running.filter(unpinned_installed_in(apps, pins));
            &&& running_items(apps, pins, running).len() == shown.len()
            &&& forall|k: int| 0 <= k < shown.len() ==> names_installed(apps, #[trigger] running_items(apps, pins, running)[k], shown[k])
        }),
    decreases running.len(),
{
    if running.len() > 0 {
        let rest = running.drop_last();
        lemma_running_items_follow_running(apps, pins, rest);
        lemma_find_app_installed(apps, running.last());
        let items = running_items(apps, pins, running);
        let before = running_items(apps, pins, rest);
        let shown = running.filter(unpinned_installed_in(apps, pins));
        let shown_before = rest.filter(unpinned_installed_in(apps, pins));
        let last = running.last();
        reveal(Seq::filter);
        assert(unpinned_installed_in(apps, pins)(last) == (!pins.contains(last) && installed(apps, last)));
        assert(shown == if !pins.contains(last) && installed(apps, last) {
            shown_before.push(last)
        } else {
            shown_before
        });
        assert(items == if pins.contains(last) {
            before
        } else {
            match find_app(apps, last, 0) {
                Some(i) => before.push(DockItem::App(i)),
                None => before,
            }
        });
        assert forall|k: int| 0 <= k < shown.len() implies names_installed(apps, #[trigger] items[k], shown[k]) by {
            if k < shown_before.len() {
                assert(items[k] == before[k]);
                assert(shown[k] == shown_before[k]);
            }
        }
    }
}

/// The Dock shows, in this order: one item for each pin that names an
/// installed application, in pin order; then one item for each running
/// application that is installed and not pinned, in the order they run; then
/// the App Library. Each application item is the installed application with
/// that bundle identifier.
pub proof fn lemma_dock_items_compose(apps: Seq<AppInfo>, pins: Seq<Seq<char>>, running: Seq<Seq<char>>)
    requires
        apps.len() <= usize::MAX,
    ensures
        ({
            let items = dock_items_of(apps, pins, running);
            let pinned = pins.filter(installed_in(apps));
            let others = running.filter(unpinned_installed_in(apps, pins));
            &&& items.len() == pinned.len() + others.len() + 1
            &&& forall|k: int| 0 <= k < pinned.len() ==> names_installed(apps, #[trigger] items[k], pinned[k])
            &&& forall|k: int|
                0 <= k < others.len() ==> names_installed(apps, #[trigger] items[pinned.len() + k], others[k])
            &&& items[items.len() - 1] == DockItem::AppLibrary
        }),
{
    lemma_pinned_items_follow_pins(apps, pins);
    lemma_running_items_follow_running(apps, pins, running);
    let items = dock_items_of(apps, pins, running);
    let first = pinned_items(apps, pins);
    let second = running_items(apps, pins, running);
    let pinned = pins.filter(installed_in(apps));
    let others = running.filter(unpinned_installed_in(apps, pins));
    assert forall|k: int| 0 <= k < pinned.len() implies names_installed(apps, #[trigger] items[k], pinned[k]) by {
        assert(items[k] == first[k]);
    }
    assert forall|k: int| 0 <= k < others.len() implies names_installed(apps, #[trigger] items[pinned.len() + k], others[k]) by {
        assert(items[pinned.len() + k] == second[k]);
    }
}

proof fn lemma_pinned_items_installed(apps: Seq<AppInfo>, pins: Seq<Seq<char>>)
    ensures
        items_installed(apps, pinned_items(apps, pins)),
    decreases pins.len(),
{
    if pins.len() > 0 {
        lemma_pinned_items_installed(apps, pins.drop_last());
        lemma_find_app_in_range(apps, pins.last(), 0);
    }
}

proof fn lemma_running_items_installed(apps: Seq<AppInfo>, pins: Seq<Seq<char>>, running: Seq<Seq<char>>)
    ensures
        items_installed(apps, running_items(apps, pins, running)),
    decreases running.len(),
{
    if running.len() > 0 {
        lemma_running_items_installed(apps, pins, running.drop_last());
        lemma_find_app_in_range(apps, running.last(), 0);
    }
}

/// Whether the item at `index` has a menu: every application does, the
/// App Library does not.
pub fn has_menu(apps: &[AppInfo], items: &[DockItem], index: usize) -> (menu: bool)
    requires
        items_installed(apps@, items@),
    ensures
        menu == (index < items@.len() && item_bundle(apps@, items@[index as int]) != APP_LIBRARY_BUNDLE_ID@),
{
    if index >= items.len() {
        return false;
    }
    assert(items@[index as int] matches DockItem::App(a) ==> a < apps@.len());
    let bundle_id = item_bundle_id(apps, items[index]);
    !text_equals(bundle_id.as_str(), APP_LIBRARY_BUNDLE_ID)
}

/// Whether the menu of the item at `index` offers to unpin it: it does for
/// a pinned application, and offers to pin it otherwise.
pub fn menu_unpins(apps: &[AppInfo], items: &[DockItem], preferences: &DockPreferences, index: usize) -> (unpins: bool)
    requires
        items_installed(apps@, items@),
    ensures
        unpins == (index < items@.len() && preferences.pins().contains(item_bundle(apps@, items@[index as int]))),
{
    if index >= items.len() {
        return false;
    }
    assert(items@[index as int] matches DockItem::App(a) ==> a < apps@.len());
    let bundle_id = item_bundle_id(apps, items[index]);
    preferences.is_pinned(bundle_id.as_str())
}

/// Carries out the choice made in the menu of the item at `index`: opening
/// gives the place of the item to activate, the first with the item's
/// bundle identifier; pinning and unpinning change the preferences.
pub fn apply_menu_action(
    action: DockMenuAction,
    index: usize,
    apps: &[AppInfo],
    items: &[DockItem],
    preferences: &mut DockPreferences,
) -> (activate: Option<usize>)
    requires
        items_installed(apps@, items@),
    ensures
        index >= items@.len() ==> activate is None && final(preferences).pins() == old(preferences).pins(),
        index < items@.len() ==> {
            let bundle_id = item_bundle(apps@, items@[index as int]);
            match action {
                DockMenuAction::Open => activate == item_position(apps@, items@, bundle_id, 0)
                    && final(preferences).pins() == old(preferences).pins(),
                DockMenuAction::Pin => activate is None && final(preferences).pins() == (if crate::dock_preferences::valid_bundle_id(bundle_id)
                    && !old(preferences).pins().contains(bundle_id) {
                    old(preferences).pins().push(bundle_id)
                } else {
                    old(preferences).pins()
                }),
                DockMenuAction::Unpin => activate is None && final(preferences).pins() == (if old(preferences).pins().contains(bundle_id) {
                    old(preferences).pins().remove(old(preferences).pins().index_of(bundle_id))
                } else {
                    old(preferences).pins()
                }),
            }
        },
{
    if index >= items.len() {
        return None;
    }
    assert(items@[index as int] matches DockItem::App(a) ==> a < apps@.len());
    let bundle_id = item_bundle_id(apps, items[index]);
    match action {
        DockMenuAction::Open => find_item(apps, items, bundle_id.as_str()),
        DockMenuAction::Pin => {
            preferences.pin(bundle_id.as_str());
            None
        },
        DockMenuAction::Unpin => {
            preferences.unpin(bundle_id.as_str());
            None
        },
    }
}

/// What pressing a Dock item does: the App Library opens or closes; an
/// application is activated or launched.
#[derive(Clone, Copy, Debug, PartialEq, Eq, Structural)]
pub enum DockActivation {
    ToggleAppLibrary,
    Application(usize),
}

/// What activating the item at `index` does, if there is such an item.
pub fn activation_for(apps: &[AppInfo], items: &[DockItem], index: usize) -> (activation: Option<DockActivation>)
    requires
        items_installed(apps@, items@),
    ensures
        index >= items@.len() ==> activation is None,
        index < items@.len() ==> activation == Some(
            if item_bundle(apps@, items@[index as int]) == APP_LIBRARY_BUNDLE_ID@ {
                DockActivation::ToggleAppLibrary
            } else {
                match items@[index as int] {
                    DockItem::App(i) => DockActivation::Application(i),
                    DockItem::AppLibrary => DockActivation::ToggleAppLibrary,
                }
            },
        ),
{
    if index >= items.len() {
        return None;
    }
    assert(items@[index as int] matches DockItem::App(a) ==> a < apps@.len());
    let bundle_id = item_bundle_id(apps, items[index]);
    if text_equals(bundle_id.as_str(), APP_LIBRARY_BUNDLE_ID) {
        return Some(DockActivation::ToggleAppLibrary);
    }
    match items[index] {
        DockItem::App(i) => Some(DockActivation::Application(i)),
        DockItem::AppLibrary => Some(DockActivation::ToggleAppLibrary),
    }
}

/// The pointer over the Dock between events: the item under it, the item
/// pressed, the pinned item being dragged to a new place and whether the
/// drag moved it yet, and the item whose menu is open.
pub struct DockPointer {
    hovered: Option<usize>,
    pressed: Option<usize>,
    dragged_pin: Option<usize>,
    drag_did_move: bool,
    menu_index: Option<usize>,
}

/// What releasing the primary button over the Dock did.
#[derive(Clone, Copy, Debug, PartialEq, Eq, Structural)]
pub enum DockRelease {
    /// Nothing was pressed in the Dock.
    NotPressed,
    /// The press ended; `activate` names the item to activate, if the button
    /// came up over the item it went down on without dragging.
    Released { activate: Option<usize> },
}

impl DockPointer {
    pub closed spec fn hovered(&self) -> Option<usize> {
        self.hovered
    }

    pub closed spec fn pressed(&self) -> Option<usize> {
        self.pressed
    }

    pub closed spec fn dragged(&self) -> Option<usize> {
        self.dragged_pin
    }

    pub closed spec fn drag_moved(&self) -> bool {
        self.drag_did_move
    }

    pub closed spec fn menu(&self) -> Option<usize> {
        self.menu_index
    }

    /// Nothing under the pointer, pressed, dragged or showing a menu.
    pub fn new() -> (pointer: Self)
        ensures
            pointer.hovered() is None,
            pointer.pressed() is None,
            pointer.dragged() is None,
            !pointer.drag_moved(),
            pointer.menu() is None,
    {
        DockPointer { hovered: None, pressed: None, dragged_pin: None, drag_did_move: false, menu_index: None }
    }

    pub fn hovered_item(&self) -> (hovered: Option<usize>)
        ensures
            hovered == self.hovered(),
    {
        self.hovered
    }

    pub fn pressed_item(&self) -> (pressed: Option<usize>)
        ensures
            pressed == self.pressed(),
    {
        self.pressed
    }

    pub fn menu_item(&self) -> (menu: Option<usize>)
        ensures
            menu == self.menu(),
    {
        self.menu_index
    }

    /// The pointer moved over the item at `hit`, or over none; says whether
    /// that changed the item under it.
    pub fn hover(&mut self, hit: Option<usize>) -> (changed: bool)
        ensures
            changed == (old(self).hovered() != hit),
            final(self).hovered() == hit,
            final(self).pressed() == old(self).pressed(),
            final(self).dragged() == old(self).dragged(),
            final(self).drag_moved() == old(self).drag_moved(),
            final(self).menu() == old(self).menu(),
    {
        let changed = self.hovered != hit;
        self.hovered = hit;
        changed
    }

    /// The primary button went down over the item at `hit`, or over none
    /// within the Dock: the item is pressed, and a pinned item (one of the
    /// first `pinned_count`) may be dragged to a new place.
    pub fn press(&mut self, hit: Option<usize>, pinned_count: usize)
        ensures
            final(self).pressed() == hit,
            final(self).dragged() == (if hit matches Some(i) && i < pinned_count {
                hit
            } else {
                None
            }),
            !final(self).drag_moved(),
            final(self).hovered() == old(self).hovered(),
            final(self).menu() == old(self).menu(),
    {
        self.pressed = hit;
        self.dragged_pin = match hit {
            Some(i) => if i < pinned_count {
                Some(i)
            } else {
                None
            },
            None => None,
        };
        self.drag_did_move = false;
    }

    /// While a pinned item is dragged, the pointer reached the item at
    /// `hit`: when both are pinned and differ, the dragged pin moves to the
    /// place of the other, and the drag follows it. Says whether the pins
    /// moved.
    pub fn drag_over(
        &mut self,
        hit: Option<usize>,
        apps: &[AppInfo],
        items: &[DockItem],
        preferences: &mut DockPreferences,
    ) -> (moved: bool)
        requires
            items_installed(apps@, items@),
        ensures
            ({
                let count = pinned_items(apps@, old(preferences).pins()).len();
                let wanted = old(self).dragged() matches Some(from) && hit matches Some(to) && from < count
                    && to < count && from != to && from < items@.len() && to < items@.len();
                let from_bundle = item_bundle(apps@, items@[old(self).dragged()->Some_0 as int]);
                let to_bundle = item_bundle(apps@, items@[hit->Some_0 as int]);
                let pins = old(preferences).pins();
                &&& moved == (wanted && pins.contains(from_bundle) && pins.contains(to_bundle) && from_bundle != to_bundle)
                &&& moved ==> final(preferences).pins() == pins.remove(pins.index_of(from_bundle)).insert(
                    pins.index_of(to_bundle),
                    from_bundle,
                ) && final(self).dragged() == hit && final(self).pressed() == hit
                    && final(self).drag_moved()
                &&& !moved ==> final(preferences).pins() == pins && final(self).dragged() == old(self).dragged()
                    && final(self).pressed() == old(self).pressed() && final(self).drag_moved() == old(self).drag_moved()
            }),
            final(self).hovered() == old(self).hovered(),
            final(self).menu() == old(self).menu(),
    {
        let count = pinned_visible_count(apps, preferences);
        let (from, to) = match (self.dragged_pin, hit) {
            (Some(from), Some(to)) => (from, to),
            _ => {
                return false;
            },
        };
        if !(from < count && to < count && from != to && from < items.len() && to < items.len()) {
            return false;
        }
        assert(items@[from as int] matches DockItem::App(a) ==> a < apps@.len());
        assert(items@[to as int] matches DockItem::App(a) ==> a < apps@.len());
        let from_bundle = item_bundle_id(apps, items[from]);
        let to_bundle = item_bundle_id(apps, items[to]);
        let moved = preferences.move_pin_bundle(from_bundle.as_str(), to_bundle.as_str());
        if moved {
            self.drag_did_move = true;
            self.dragged_pin = Some(to);
            self.pressed = Some(to);
        }
        moved
    }

    /// The primary button came up over the item at `hit`, or over none.
    pub fn release(&mut self, hit: Option<usize>) -> (released: DockRelease)
        ensures
            old(self).pressed() is None ==> released == DockRelease::NotPressed && *final(self) == *old(self),
            old(self).pressed() is Some ==> {
                &&& released == DockRelease::Released {
                    activate: if !old(self).drag_moved() && old(self).pressed() == hit {
                        hit
                    } else {
                        None
                    },
                }
                &&& final(self).pressed() is None
                &&& final(self).dragged() is None
                &&& !final(self).drag_moved()
                &&& final(self).hovered() == old(self).hovered()
                &&& final(self).menu() == old(self).menu()
            },
    {
        let pressed = self.pressed;
        if pressed.is_none() {
            return DockRelease::NotPressed;
        }
        self.pressed = None;
        self.dragged_pin = None;
        let did_move = self.drag_did_move;
        self.drag_did_move = false;
        let activate = if !did_move && pressed == hit {
            hit
        } else {
            None
        };
        DockRelease::Released { activate }
    }

    /// The pointer left the Dock, or the desktop lost the focus: nothing is
    /// under the pointer, pressed or dragged any more. Says whether an item
    /// was under the pointer or pressed.
    pub fn leave(&mut self) -> (changed: bool)
        ensures
            changed == (old(self).hovered() is Some || old(self).pressed() is Some),
            final(self).hovered() is None,
            final(self).pressed() is None,
            final(self).dragged() is None,
            !final(self).drag_moved(),
            final(self).menu() == old(self).menu(),
    {
        let changed = self.hovered.is_some() || self.pressed.is_some();
        self.hovered = None;
        self.pressed = None;
        self.dragged_pin = None;
        self.drag_did_move = false;
        changed
    }

    /// The menu of the item at `index` opens.
    pub fn open_menu(&mut self, index: usize)
        ensures
            final(self).menu() == Some(index),
            final(self).hovered() == old(self).hovered(),
            final(self).pressed() == old(self).pressed(),
            final(self).dragged() == old(self).dragged(),
            final(self).drag_moved() == old(self).drag_moved(),
    {
        self.menu_index = Some(index);
    }

    /// The open menu closes.
    pub fn close_menu(&mut self)
        ensures
            final(self).menu() is None,
            final(self).hovered() == old(self).hovered(),
            final(self).pressed() == old(self).pressed(),
            final(self).dragged() == old(self).dragged(),
            final(self).drag_moved() == old(self).drag_moved(),
    {
        self.menu_index = None;
    }
}

/// Whether the Dock is shown: when nothing covers it, when the pointer
/// holds it up from the bottom edge, or while one of its menus is open.
pub fn dock_shown(covered: bool, edge_hover: bool, menu_open: bool) -> (shown: bool)
    ensures
        shown == (!covered || edge_hover || menu_open),
{
    !covered || edge_hover || menu_open
}

/// Whether the pointer holds the Dock up, given where it is: `None` when it
/// is off the screen, else whether it is at the screen's bottom edge and
/// whether it is over the Dock's area. Over the Dock it keeps the Dock up
/// only while it already did or while the Dock is still partly shown.
pub fn edge_hover_after(pointer: Option<(bool, bool)>, was_hovering: bool, partly_shown: bool) -> (hover: bool)
    ensures
        hover == match pointer {
            None => false,
            Some((at_edge, over_dock)) => at_edge || ((was_hovering || partly_shown) && over_dock),
        },
{
    match pointer {
        None => false,
        Some((at_edge, over_dock)) => at_edge || ((was_hovering || partly_shown) && over_dock),
    }
}

} // verus!
