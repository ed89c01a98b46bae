//! The catalogue of installed applications: which directories are
//! application bundles, which bundles are listed, and the order the
//! catalogue is shown in.
use crate::manifest::string_field;
use crate::platform::{declared_bundle_id, describes, read_app_about, read_app_manifest, AppInfo};
use crate::text::{chars_of, text_equals};
use vstd::multiset::Multiset;
use vstd::prelude::*;

verus! {

/// The bundle of Binder itself, which the catalogue leaves out.
pub const BINDER_BUNDLE_DIRECTORY: &'static str = "Binder.app";

pub const BINDER_BUNDLE_ID: &'static str = "org.mochios.binder";

/// Whether a directory name has the extension `app`, as `Path::extension`
/// reads it: the part after the last dot, when the name does not merely
/// start with that dot.
pub open spec fn is_app_bundle(name: Seq<char>) -> bool {
    name.len() > 4 && name.skip(name.len() - 4) == ".app"@
}

pub fn is_app_bundle_name(name: &str) -> (bundle: bool)
    ensures
        bundle == is_app_bundle(name@),
{
    proof {
        reveal_strlit(".app");
    }
    let chars = chars_of(name);
    let n = chars.len();
    if n <= 4 {
        return false;
    }
    let suffix = ['.', 'a', 'p', 'p'];
    assert(suffix@ =~= ".app"@);
    let mut k: usize = 0;
    while k < 4
        invariant
            k <= 4,
            n == chars@.len() > 4,
            chars@ == name@,
            suffix@ == ".app"@,
            forall|j: int| 0 <= j < k ==> chars@[n - 4 + j] == suffix@[j],
        decreases 4 - k,
    {
        if chars[n - 4 + k] != suffix[k] {
            assert(chars@.skip(n - 4)[k as int] != ".app"@[k as int]);
            return false;
        }
        k = k + 1;
    }
    assert(chars@.skip(n - 4) =~= ".app"@);
    true
}

/// Whether a bundle found in the directory `directory` is listed: Binder's
/// own bundle is not.
pub open spec fn is_listed(directory: Seq<char>, app: AppInfo) -> bool {
    directory != BINDER_BUNDLE_DIRECTORY@ && app.bundle_id@ != BINDER_BUNDLE_ID@
}

pub fn is_listed_bundle(directory: &str, app: &AppInfo) -> (listed: bool)
    ensures
        listed == is_listed(directory@, *app),
{
    !text_equals(directory, BINDER_BUNDLE_DIRECTORY) && !text_equals(app.bundle_id.as_str(), BINDER_BUNDLE_ID)
}

/// Whether `a` comes before `b` in code-point order, which is the byte
/// order of their UTF-8 encodings.
pub open spec fn text_less(a: Seq<char>, b: Seq<char>) -> bool
    decreases a.len(),
{
    if a.len() == 0 {
        b.len() > 0
    } else if b.len() == 0 {
        false
    } else if a[0] != b[0] {
        a[0] < b[0]
    } else {
        text_less(a.drop_first(), b.drop_first())
    }
}

/// Whether `a` comes before `b` in the catalogue: by name, then by bundle
/// identifier.
pub open spec fn catalog_before(a: AppInfo, b: AppInfo) -> bool {
    text_less(a.name@, b.name@) || (a.name@ == b.name@ && text_less(a.bundle_id@, b.bundle_id@))
}

/// Whether `a` comes before `b`: by name, and when `by_bundle` also by
/// bundle identifier among equal names.
pub open spec fn ordered_before(a: AppInfo, b: AppInfo, by_bundle: bool) -> bool {
    if by_bundle {
        catalog_before(a, b)
    } else {
        text_less(a.name@, b.name@)
    }
}

/// `sorted` with `app` put after every application that does not come after
/// it.
pub open spec fn insert_sorted(sorted: Seq<AppInfo>, app: AppInfo, by_bundle: bool) -> Seq<AppInfo>
    decreases sorted.len(),
{
    if sorted.len() == 0 {
        seq![app]
    } else if ordered_before(app, sorted.last(), by_bundle) {
        insert_sorted(sorted.drop_last(), app, by_bundle).push(sorted.last())
    } else {
        sorted.push(app)
    }
}

/// The catalogue in order: a stable sort by name, and when `by_bundle`
/// then by bundle identifier.
pub open spec fn sorted_apps(apps: Seq<AppInfo>, by_bundle: bool) -> Seq<AppInfo>
    decreases apps.len(),
{
    if apps.len() == 0 {
        Seq::empty()
    } else {
        insert_sorted(sorted_apps(apps.drop_last(), by_bundle), apps.last(), by_bundle)
    }
}

/// The catalogue in its order on mochiOS: by name, then bundle identifier.
pub open spec fn sorted_catalog(apps: Seq<AppInfo>) -> Seq<AppInfo> {
    sorted_apps(apps, true)
}

proof fn lemma_insert_sorted_adds(sorted: Seq<AppInfo>, app: AppInfo, by_bundle: bool)
    ensures
        insert_sorted(sorted, app, by_bundle).to_multiset() == sorted.to_multiset().insert(app),
    decreases sorted.len(),
{
    broadcast use vstd::seq_lib::group_to_multiset_ensures;

    if sorted.len() == 0 {
        assert(sorted.push(app) =~= seq![app]);
    } else if ordered_before(app, sorted.last(), by_bundle) {
        lemma_insert_sorted_adds(sorted.drop_last(), app, by_bundle);
        assert(sorted.drop_last().push(sorted.last()) =~= sorted);
        assert(insert_sorted(sorted.drop_last(), app, by_bundle).push(sorted.last()).to_multiset()
            =~= sorted.to_multiset().insert(app));
    }
}

/// The catalogue, once ordered, holds exactly the applications it held:
/// none lost, none added, none doubled.
pub proof fn lemma_sorted_catalog_permutes(apps: Seq<AppInfo>, by_bundle: bool)
    ensures
        sorted_apps(apps, by_bundle).to_multiset() == apps.to_multiset(),
    decreases apps.len(),
{
    broadcast use vstd::seq_lib::group_to_multiset_ensures;

    if apps.len() == 0 {
        assert(apps.to_multiset() =~= Multiset::<AppInfo>::empty());
        assert(sorted_apps(apps, by_bundle).to_multiset() =~= Multiset::<AppInfo>::empty());
    } else {
        lemma_sorted_catalog_permutes(apps.drop_last(), by_bundle);
        lemma_insert_sorted_adds(sorted_apps(apps.drop_last(), by_bundle), apps.last(), by_bundle);
        assert(apps.drop_last().push(apps.last()) =~= apps);
    }
}

proof fn lemma_text_less_asymmetric(a: Seq<char>, b: Seq<char>)
    ensures
        text_less(a, b) ==> !text_less(b, a),
    decreases a.len(),
{
    if a.len() > 0 && b.len() > 0 && a[0] == b[0] {
        lemma_text_less_asymmetric(a.drop_first(), b.drop_first());
    }
}

proof fn lemma_text_less_transitive(a: Seq<char>, b: Seq<char>, c: Seq<char>)
    ensures
        text_less(a, b) && text_less(b, c) ==> text_less(a, c),
    decreases a.len(),
{
    if a.len() > 0 && b.len() > 0 && c.len() > 0 && a[0] == b[0] && b[0] == c[0] {
        lemma_text_less_transitive(a.drop_first(), b.drop_first(), c.drop_first());
    }
}

proof fn lemma_text_less_total(a: Seq<char>, b: Seq<char>)
    ensures
        a == b || text_less(a, b) || text_less(b, a),
    decreases a.len(),
{
    if a.len() > 0 && b.len() > 0 {
        if a[0] == b[0] {
            lemma_text_less_total(a.drop_first(), b.drop_first());
            if a.drop_first() == b.drop_first() {
                assert(a =~= seq![a[0]] + a.drop_first());
                assert(b =~= seq![b[0]] + b.drop_first());
            }
        }
    } else if a.len() == 0 && b.len() == 0 {
        assert(a =~= b);
    }
}

proof fn lemma_before_asymmetric(a: AppInfo, b: AppInfo, by_bundle: bool)
    ensures
        ordered_before(a, b, by_bundle) ==> !ordered_before(b, a, by_bundle),
{
    lemma_text_less_asymmetric(a.name@, b.name@);
    lemma_text_less_asymmetric(a.bundle_id@, b.bundle_id@);
}

/// Not coming before is transitive: the order is total on what it compares.
proof fn lemma_not_before_transitive(a: AppInfo, b: AppInfo, c: AppInfo, by_bundle: bool)
    ensures
        !ordered_before(a, b, by_bundle) && !ordered_before(b, c, by_bundle) ==> !ordered_before(
            a,
            c,
            by_bundle,
        ),
{
    lemma_text_less_total(a.name@, b.name@);
    lemma_text_less_total(a.bundle_id@, b.bundle_id@);
    lemma_text_less_transitive(b.name@, a.name@, c.name@);
    lemma_text_less_transitive(b.bundle_id@, a.bundle_id@, c.bundle_id@);
    lemma_text_less_transitive(a.name@, c.name@, b.name@);
    lemma_text_less_asymmetric(a.name@, c.name@);
    lemma_text_less_asymmetric(b.name@, c.name@);
    lemma_text_less_asymmetric(a.bundle_id@, c.bundle_id@);
}

/// Whether no application of `apps` comes before one listed ahead of it.
pub open spec fn in_order(apps: Seq<AppInfo>, by_bundle: bool) -> bool {
    forall|i: int, j: int|
        0 <= i < j < apps.len() ==> !ordered_before(#[trigger] apps[j], #[trigger] apps[i], by_bundle)
}

proof fn lemma_insert_sorted_members(sorted: Seq<AppInfo>, app: AppInfo, by_bundle: bool)
    ensures
        insert_sorted(sorted, app, by_bundle).len() == sorted.len() + 1,
        forall|k: int|
            0 <= k < sorted.len() + 1 ==> #[trigger] insert_sorted(sorted, app, by_bundle)[k] == app
                || sorted.contains(insert_sorted(sorted, app, by_bundle)[k]),
    decreases sorted.len(),
{
    if sorted.len() > 0 && ordered_before(app, sorted.last(), by_bundle) {
        let rest = sorted.drop_last();
        lemma_insert_sorted_members(rest, app, by_bundle);
        assert forall|k: int| 0 <= k < sorted.len() + 1 implies #[trigger] insert_sorted(
            sorted,
            app,
            by_bundle,
        )[k] == app || sorted.contains(insert_sorted(sorted, app, by_bundle)[k]) by {
            let r = insert_sorted(sorted, app, by_bundle);
            if k == sorted.len() {
                assert(r[k] == sorted[sorted.len() - 1]);
            } else {
                let inner = insert_sorted(rest, app, by_bundle);
                assert(r[k] == inner[k]);
                if inner[k] != app {
                    let m = choose|m: int| 0 <= m < rest.len() && rest[m] == inner[k];
                    assert(sorted[m] == inner[k]);
                }
            }
        }
    } else if sorted.len() > 0 {
        let r = insert_sorted(sorted, app, by_bundle);
        assert forall|k: int| 0 <= k < sorted.len() + 1 implies #[trigger] r[k] == app || sorted.contains(
            r[k],
        ) by {
            if k < sorted.len() {
                assert(r[k] == sorted[k]);
            }
        }
    }
}

proof fn lemma_insert_sorted_in_order(sorted: Seq<AppInfo>, app: AppInfo, by_bundle: bool)
    requires
        in_order(sorted, by_bundle),
    ensures
        in_order(insert_sorted(sorted, app, by_bundle), by_bundle),
    decreases sorted.len(),
{
    let r = insert_sorted(sorted, app, by_bundle);
    if sorted.len() == 0 {
        assert(r.len() == 1);
    } else if ordered_before(app, sorted.last(), by_bundle) {
        let rest = sorted.drop_last();
        let last = sorted.last();
        assert(in_order(rest, by_bundle)) by {
            assert forall|i: int, j: int| 0 <= i < j < rest.len() implies !ordered_before(
                #[trigger] rest[j],
                #[trigger] rest[i],
                by_bundle,
            ) by {
                assert(rest[j] == sorted[j] && rest[i] == sorted[i]);
            }
        }
        lemma_insert_sorted_in_order(rest, app, by_bundle);
        lemma_insert_sorted_members(rest, app, by_bundle);
        let inner = insert_sorted(rest, app, by_bundle);
        assert forall|i: int, j: int| 0 <= i < j < r.len() implies !ordered_before(
            #[trigger] r[j],
            #[trigger] r[i],
            by_bundle,
        ) by {
            assert(r[i] == inner[i]);
            if j < inner.len() {
                assert(r[j] == inner[j]);
            } else {
                assert(r[j] == last);
                if inner[i] == app {
                    lemma_before_asymmetric(app, last, by_bundle);
                } else {
                    assert(rest.contains(inner[i]));
                    let m = choose|m: int| 0 <= m < rest.len() && rest[m] == inner[i];
                    assert(sorted[m] == inner[i]);
                    assert(sorted[sorted.len() - 1] == last);
                }
            }
        }
    } else {
        let last = sorted.last();
        assert forall|i: int, j: int| 0 <= i < j < r.len() implies !ordered_before(
            #[trigger] r[j],
            #[trigger] r[i],
            by_bundle,
        ) by {
            assert(r[i] == sorted[i]);
            if j < sorted.len() {
                assert(r[j] == sorted[j]);
            } else {
                assert(r[j] == app);
                if i < sorted.len() - 1 {
                    assert(sorted[sorted.len() - 1] == last);
                    lemma_not_before_transitive(app, last, sorted[i], by_bundle);
                }
            }
        }
    }
}

/// The catalogue, once ordered, is in order: no application comes before
/// one listed ahead of it (by name, and by bundle identifier where asked).
pub proof fn lemma_sorted_catalog_in_order(apps: Seq<AppInfo>, by_bundle: bool)
    ensures
        in_order(sorted_apps(apps, by_bundle), by_bundle),
    decreases apps.len(),
{
    if apps.len() > 0 {
        lemma_sorted_catalog_in_order(apps.drop_last(), by_bundle);
        lemma_insert_sorted_in_order(sorted_apps(apps.drop_last(), by_bundle), apps.last(), by_bundle);
    }
}

fn chars_less(a: &[char], b: &[char]) -> (less: bool)
    ensures
        less == text_less(a@, b@),
{
    let mut i: usize = 0;
    assert(a@.skip(0) =~= a@);
    assert(b@.skip(0) =~= b@);
    while i < a.len() && i < b.len() && a[i] == b[i]
        invariant
            i <= a@.len(),
            i <= b@.len(),
            text_less(a@, b@) == text_less(a@.skip(i as int), b@.skip(i as int)),
        decreases a@.len() - i,
    {
        assert(a@.skip(i as int).drop_first() =~= a@.skip(i + 1));
        assert(b@.skip(i as int).drop_first() =~= b@.skip(i + 1));
        i = i + 1;
    }
    if i == a.len() {
        return i < b.len();
    }
    if i == b.len() {
        return false;
    }
    a[i] < b[i]
}

fn comes_before(a: &AppInfo, b: &AppInfo, by_bundle: bool) -> (before: bool)
    ensures
        before == ordered_before(*a, *b, by_bundle),
{
    let a_name = chars_of(a.name.as_str());
    let b_name = chars_of(b.name.as_str());
    if chars_less(a_name.as_slice(), b_name.as_slice()) {
        return true;
    }
    if !by_bundle || !text_equals(a.name.as_str(), b.name.as_str()) {
        return false;
    }
    let a_id = chars_of(a.bundle_id.as_str());
    let b_id = chars_of(b.bundle_id.as_str());
    chars_less(a_id.as_slice(), b_id.as_slice())
}

/// Orders the catalogue by name, then bundle identifier; applications that
/// tie keep their order.
pub fn sort_catalog(apps: Vec<AppInfo>) -> (sorted: Vec<AppInfo>)
    ensures
        sorted@ == sorted_catalog(apps@),
{
    sort_apps(apps, true)
}

/// Orders the catalogue by name; applications with the same name keep their
/// order.
pub fn sort_catalog_by_name(apps: Vec<AppInfo>) -> (sorted: Vec<AppInfo>)
    ensures
        sorted@ == sorted_apps(apps@, false),
{
    sort_apps(apps, false)
}

fn sort_apps(apps: Vec<AppInfo>, by_bundle: bool) -> (sorted: Vec<AppInfo>)
    ensures
        sorted@ == sorted_apps(apps@, by_bundle),
{
    let mut remaining = apps;
    let ghost all = remaining@;
    let total = remaining.len();
    let mut sorted: Vec<AppInfo> = Vec::new();
    let mut done: usize = 0;
    assert(all.take(0) =~= Seq::<AppInfo>::empty());
    while remaining.len() > 0
        invariant
            done + remaining@.len() == all.len() == total,
            remaining@ == all.skip(done as int),
            sorted@ == sorted_apps(all.take(done as int), by_bundle),
        decreases remaining@.len(),
    {
        let ghost before_remove = remaining@;
        let app = remaining.remove(0);
        assert(app == all[done as int]);
        assert(all.take(done + 1).drop_last() =~= all.take(done as int));
        let ghost s = sorted@;
        let mut p = sorted.len();
        assert(s.take(p as int) =~= s);
        assert(s.skip(p as int) =~= Seq::<AppInfo>::empty());
        while p > 0 && comes_before(&app, &sorted[p - 1], by_bundle)
            invariant
                p <= s.len(),
                sorted@ == s,
                insert_sorted(s, app, by_bundle) == insert_sorted(s.take(p as int), app, by_bundle) + s.skip(
                    p as int,
                ),
            decreases p,
        {
            let ghost front = s.take(p as int);
            assert(front.drop_last() =~= s.take(p - 1));
            assert(front.last() == s[p - 1]);
            assert(s.skip(p - 1) =~= seq![s[p - 1]] + s.skip(p as int));
            assert(insert_sorted(s.take(p - 1), app, by_bundle).push(s[p - 1]) + s.skip(p as int)
                =~= insert_sorted(s.take(p - 1), app, by_bundle) + s.skip(p - 1));
            p = p - 1;
        }
        proof {
            if p == 0 {
                assert(s.take(0) =~= Seq::<AppInfo>::empty());
            } else {
                assert(s.take(p as int).last() == s[p - 1]);
            }
        }
        sorted.insert(p, app);
        assert(sorted@ =~= insert_sorted(s, app, by_bundle));
        done = done + 1;
        assert(remaining@ =~= all.skip(done as int));
    }
    assert(all.take(done as int) =~= all);
    sorted
}

/// A directory found where applications are installed: its name, its path,
/// and its manifest where one could be read.
pub struct BundleSource {
    pub directory: String,
    pub root: String,
    pub manifest: Option<String>,
}

/// Whether a manifest names an application, its bundle identifier and its
/// entry; on mochiOS the identifier may be spelt `bundle-id`.
pub open spec fn names_app(manifest: Seq<char>, on_mochios: bool) -> bool {
    &&& string_field(manifest, "name"@) is Some
    &&& declared_bundle_id(manifest, on_mochios) is Some
    &&& string_field(manifest, "entry"@) is Some
}

/// Whether the catalogue takes an application from this directory: a bundle
/// whose manifest names one; on mochiOS, not Binder's own bundle.
pub open spec fn keeps(source: BundleSource, on_mochios: bool) -> bool {
    &&& is_app_bundle(source.directory@)
    &&& source.manifest matches Some(manifest) && names_app(manifest@, on_mochios)
    &&& on_mochios ==> source.directory@ != BINDER_BUNDLE_DIRECTORY@ && declared_bundle_id(
        source.manifest->0@,
        true,
    ) != Some(BINDER_BUNDLE_ID@)
}

/// Whether `found` is what the catalogue takes from `sources`, in their
/// order: for each directory kept, the application its manifest describes.
pub open spec fn kept_apps(sources: Seq<BundleSource>, found: Seq<AppInfo>, on_mochios: bool) -> bool
    decreases sources.len(),
{
    if sources.len() == 0 {
        found.len() == 0
    } else if keeps(sources.last(), on_mochios) {
        &&& found.len() > 0
        &&& describes(sources.last().root@, sources.last().manifest->0@, on_mochios, Some(found.last()))
        &&& kept_apps(sources.drop_last(), found.drop_last(), on_mochios)
    } else {
        kept_apps(sources.drop_last(), found, on_mochios)
    }
}

/// The catalogue that the installed bundles make, in catalogue order: by
/// name, and on mochiOS then by bundle identifier.
pub fn catalog_from_bundles(sources: &[BundleSource], on_mochios: bool) -> (apps: Vec<AppInfo>)
    ensures
        exists|found: Seq<AppInfo>|
            #[trigger] kept_apps(sources@, found, on_mochios) && apps@ == sorted_apps(found, on_mochios),
{
    let mut found: Vec<AppInfo> = Vec::new();
    let mut i: usize = 0;
    assert(sources@.take(0) =~= Seq::<BundleSource>::empty());
    while i < sources.len()
        invariant
            i <= sources@.len(),
            kept_apps(sources@.take(i as int), found@, on_mochios),
        decreases sources@.len() - i,
    {
        let source = &sources[i];
        let ghost before = found@;
        assert(sources@.take(i + 1).drop_last() =~= sources@.take(i as int));
        assert(sources@.take(i + 1).last() == sources@[i as int]);
        if is_app_bundle_name(source.directory.as_str()) {
            if let Some(manifest) = &source.manifest {
                let app = if on_mochios {
                    read_app_about(source.root.as_str(), manifest.as_str())
                } else {
                    read_app_manifest(source.root.as_str(), manifest.as_str())
                };
                if let Some(app) = app {
                    if !on_mochios || is_listed_bundle(source.directory.as_str(), &app) {
                        found.push(app);
                        assert(found@.drop_last() =~= before);
                    }
                }
            }
        }
        i = i + 1;
    }
    assert(sources@.take(i as int) =~= sources@);
    let apps = sort_apps(found, on_mochios);
    apps
}

} // verus!
