use crate::addon::{Addon, AddonView};
use crate::aggregate::{contains_text, errs, oks, AggregateError, CollectError};
use crate::path::{accepts, accepts_spec, decode, decode_spec, types_path, types_path_spec, DecodeError};
use crate::settings::{
    doc_fields, json_list, json_object_text, jsonc_parse, library_or_empty_spec, loaded, object_entries,
    strings_view, without_key, FieldView, Settings, SettingsError, SettingsView,
};
use vstd::prelude::*;

verus! {

pub open spec fn addons_view(s: Seq<Addon>) -> Seq<AddonView> {
    s.map_values(|a: Addon| a@)
}

pub open spec fn result_view(r: Result<Addon, DecodeError>) -> Result<AddonView, Seq<char>> {
    match r {
        Ok(a) => Ok(a@),
        Err(e) => Err(e.entry()),
    }
}

pub open spec fn str_option_view(o: Option<&str>) -> Option<Seq<char>> {
    match o {
        Some(s) => Some(s@),
        None => None,
    }
}

/// What decoding each entry of the tree gives, in the order of the library.
pub open spec fn decoded(library: Seq<Seq<char>>, tree: Seq<char>) -> Seq<Result<AddonView, Seq<char>>>
    decreases library.len(),
{
    if library.len() == 0 {
        Seq::empty()
    } else if accepts_spec(library.last(), tree) {
        decoded(library.drop_last(), tree).push(decode_spec(library.last()))
    } else {
        decoded(library.drop_last(), tree)
    }
}

/// The addons that the library enables.
pub open spec fn enabled_addons(library: Seq<Seq<char>>, tree: Seq<char>) -> Seq<AddonView> {
    oks(decoded(library, tree))
}

/// The entries of the tree that name no addon.
pub open spec fn failures(library: Seq<Seq<char>>, tree: Seq<char>) -> Seq<Seq<char>> {
    errs(decoded(library, tree))
}

pub open spec fn name_matches(name: Seq<char>, filter: Option<Seq<char>>) -> bool {
    match filter {
        Some(f) => contains_text(name, f),
        None => true,
    }
}

/// The addons whose name holds the filter, in order.
pub open spec fn filter_names(addons: Seq<AddonView>, filter: Option<Seq<char>>) -> Seq<AddonView>
    decreases addons.len(),
{
    if addons.len() == 0 {
        Seq::empty()
    } else if name_matches(addons.last().name, filter) {
        filter_names(addons.drop_last(), filter).push(addons.last())
    } else {
        filter_names(addons.drop_last(), filter)
    }
}

/// The entries of a failure to collect the addons.
pub open spec fn failure_entries(c: CollectError<DecodeError>) -> Seq<Seq<char>> {
    match c {
        CollectError::Single(e) => seq![e.entry()],
        CollectError::Many(a) => a.errors@.map_values(|e: DecodeError| e.entry()),
    }
}

/// Whether some addon of the library has this name.
pub open spec fn has_enabled(library: Seq<Seq<char>>, tree: Seq<char>, name: Seq<char>) -> bool {
    exists|i: int|
        0 <= i < enabled_addons(library, tree).len() && #[trigger] enabled_addons(
            library,
            tree,
        )[i].name == name
}

/// The first installed addon with this name.
pub open spec fn lookup(installed: Seq<AddonView>, name: Seq<char>) -> Option<AddonView>
    decreases installed.len(),
{
    if installed.len() == 0 {
        None
    } else if installed[0].name == name {
        Some(installed[0])
    } else {
        lookup(installed.drop_first(), name)
    }
}

/// Every installed addon has a location.
pub open spec fn all_located(installed: Seq<AddonView>) -> bool {
    forall|i: int| 0 <= i < installed.len() ==> #[trigger] installed[i].location is Some
}

/// The library without any entry equal to `path`, in order.
pub open spec fn remove_all(library: Seq<Seq<char>>, path: Seq<char>) -> Seq<Seq<char>>
    decreases library.len(),
{
    if library.len() == 0 {
        Seq::empty()
    } else if library.last() == path {
        remove_all(library.drop_last(), path)
    } else {
        remove_all(library.drop_last(), path).push(library.last())
    }
}

/// Why enabling or disabling fails, as plain values.
pub enum FailureView {
    /// These entries of the tree name no addon.
    Decode(Seq<Seq<char>>),
    /// No installed addon has this name.
    NotInstalled(Seq<char>),
}

/// The new library list after enabling `name`: unchanged if an addon of that
/// name is enabled already; otherwise the `types` path of the installed
/// addon of that name appended at the end.
pub open spec fn enable_spec(
    name: Seq<char>,
    installed: Seq<AddonView>,
    library: Seq<Seq<char>>,
    tree: Seq<char>,
) -> Result<Seq<Seq<char>>, FailureView> {
    if failures(library, tree).len() > 0 {
        Err(FailureView::Decode(failures(library, tree)))
    } else if has_enabled(library, tree, name) {
        Ok(library)
    } else {
        match lookup(installed, name) {
            None => Err(FailureView::NotInstalled(name)),
            Some(a) => Ok(library.push(types_path_spec(a.location->0))),
        }
    }
}

/// The new library list after disabling `name`: unchanged if no addon of
/// that name is enabled; otherwise without any entry equal to the `types`
/// path of the installed addon of that name.
pub open spec fn disable_spec(
    name: Seq<char>,
    installed: Seq<AddonView>,
    library: Seq<Seq<char>>,
    tree: Seq<char>,
) -> Result<Seq<Seq<char>>, FailureView> {
    if failures(library, tree).len() > 0 {
        Err(FailureView::Decode(failures(library, tree)))
    } else if !has_enabled(library, tree, name) {
        Ok(library)
    } else {
        match lookup(installed, name) {
            None => Err(FailureView::NotInstalled(name)),
            Some(a) => Ok(remove_all(library, types_path_spec(a.location->0))),
        }
    }
}

/// Why enabling or disabling an addon failed.
#[derive(Debug)]
pub enum ReconcileError {
    /// Entries of the tree in the library name no addon.
    Decode(CollectError<DecodeError>),
    /// No installed addon has this name.
    NotInstalled(String),
}

pub open spec fn failure_view(e: ReconcileError) -> FailureView {
    match e {
        ReconcileError::Decode(c) => FailureView::Decode(failure_entries(c)),
        ReconcileError::NotInstalled(n) => FailureView::NotInstalled(n@),
    }
}

pub open spec fn outcome_view(r: Result<Vec<String>, ReconcileError>) -> Result<
    Seq<Seq<char>>,
    FailureView,
> {
    match r {
        Ok(l) => Ok(strings_view(l@)),
        Err(e) => Err(failure_view(e)),
    }
}

proof fn lemma_oks_errs_view(s: Seq<Result<Addon, DecodeError>>)
    ensures
        oks(s.map_values(|r: Result<Addon, DecodeError>| result_view(r))) == addons_view(oks(s)),
        errs(s.map_values(|r: Result<Addon, DecodeError>| result_view(r))) == errs(s).map_values(
            |e: DecodeError| e.entry(),
        ),
    decreases s.len(),
{
    if s.len() > 0 {
        lemma_oks_errs_view(s.drop_last());
        let f = |r: Result<Addon, DecodeError>| result_view(r);
        assert(s.map_values(f).drop_last() =~= s.drop_last().map_values(f));
        assert(s.map_values(f).last() == result_view(s.last()));
        match s.last() {
            Ok(a) => {
                assert(addons_view(oks(s)) =~= addons_view(oks(s.drop_last())).push(a@));
            },
            Err(e) => {
                assert(errs(s).map_values(|e: DecodeError| e.entry()) =~= errs(
                    s.drop_last(),
                ).map_values(|e: DecodeError| e.entry()).push(e.entry()));
            },
        }
    }
}

/// Whether `part` stands somewhere in `text`.
fn contains_str(text: &str, part: &str) -> (r: bool)
    ensures
        r == contains_text(text@, part@),
{
    let n = text.unicode_len();
    let m = part.unicode_len();
    if m > n {
        return false;
    }
    if m == 0 {
        assert(text@.subrange(0int, 0int + part@.len()) =~= part@);
        return true;
    }
    let target = part.to_owned();
    let mut k: usize = 0;
    while k <= n - m
        invariant
            n == text@.len(),
            m == part@.len(),
            0 < m <= n,
            target@ == part@,
            forall|j: int| 0 <= j < k ==> #[trigger] text@.subrange(j, j + m) != part@,
        decreases n - m + 1 - k,
    {
        let piece = text.substring_char(k, k + m).to_owned();
        if piece == target {
            return true;
        }
        k = k + 1;
    }
    false
}

/// The addons that the library enables in `tree`, with `filter` (when
/// given) standing in their names. Entries outside the tree are passed
/// over; if entries of the tree name no addon, the call fails with those
/// entries, one alone or all of them together.
pub fn list_enabled(library: &Vec<String>, tree: &str, filter: Option<&str>) -> (r: Result<
    Vec<Addon>,
    CollectError<DecodeError>,
>)
    ensures
        failures(strings_view(library@), tree@).len() == 0 <==> r is Ok,
        r matches Ok(v) ==> addons_view(v@) == filter_names(
            enabled_addons(strings_view(library@), tree@),
            str_option_view(filter),
        ),
        r matches Err(c) ==> failure_entries(c) == failures(strings_view(library@), tree@) && (
        c is Single <==> failures(strings_view(library@), tree@).len() == 1),
{
    let ghost lv = strings_view(library@);
    let mut results: Vec<Result<Addon, DecodeError>> = Vec::new();
    let mut i: usize = 0;
    while i < library.len()
        invariant
            i <= library.len(),
            lv == strings_view(library@),
            results@.map_values(|r: Result<Addon, DecodeError>| result_view(r)) == decoded(lv.take(i as int), tree@),
        decreases library.len() - i,
    {
        let entry = &library[i];
        proof {
            assert(lv.take(i + 1).drop_last() =~= lv.take(i as int));
            assert(lv.take(i + 1).last() == entry@);
        }
        if accepts(entry.as_str(), tree) {
            let d = decode(entry.as_str(), tree);
            let ghost before = results@;
            let ghost dv = result_view(d);
            results.push(d);
            assert(results@.map_values(|r: Result<Addon, DecodeError>| result_view(r)) =~= before.map_values(|r: Result<Addon, DecodeError>| result_view(r)).push(dv));
        }
        i = i + 1;
    }
    assert(lv.take(i as int) =~= lv);
    let ghost all = results@;
    proof {
        lemma_oks_errs_view(all);
    }
    match AggregateError::from_results(results) {
        Err(c) => {
            assert(errs(all).len() == failures(lv, tree@).len());
            Err(c)
        },
        Ok(v) => {
            let ghost av = addons_view(v@);
            let ghost fv = str_option_view(filter);
            let n = v.len();
            let mut pending = v;
            let ghost pend0 = pending@;
            let mut kept: Vec<Addon> = Vec::new();
            let mut k: usize = 0;
            while pending.len() > 0
                invariant
                    k + pending@.len() == n,
                    av.len() == n,
                    av == addons_view(pend0),
                    pending@ == pend0.skip(k as int),
                    fv == str_option_view(filter),
                    addons_view(kept@) == filter_names(av.take(k as int), fv),
                decreases pending@.len(),
            {
                let a = pending.remove(0);
                proof {
                    assert(av.take(k + 1).drop_last() =~= av.take(k as int));
                    assert(av[k as int] == pend0[k as int]@);
                    assert(pending@ =~= pend0.skip(k + 1));
                }
                let keep = match filter {
                    Some(f) => contains_str(a.name.as_str(), f),
                    None => true,
                };
                if keep {
                    let ghost before = kept@;
                    let ghost a_view = a@;
                    kept.push(a);
                    assert(addons_view(kept@) =~= addons_view(before).push(a_view));
                }
                k = k + 1;
            }
            assert(av.take(k as int) =~= av);
            Ok(kept)
        },
    }
}

/// Whether some addon in `addons` has this name.
fn any_named(addons: &Vec<Addon>, name: &str) -> (r: bool)
    ensures
        r == exists|i: int| 0 <= i < addons@.len() && #[trigger] addons@[i].name@ == name@,
{
    let target = name.to_owned();
    let mut i: usize = 0;
    while i < addons.len()
        invariant
            i <= addons.len(),
            target@ == name@,
            forall|j: int| 0 <= j < i ==> #[trigger] addons@[j].name@ != name@,
        decreases addons.len() - i,
    {
        if addons[i].name == target {
            return true;
        }
        i = i + 1;
    }
    false
}

/// The `types` path of the first installed addon named `name`.
pub fn get_addon_path(installed: &Vec<Addon>, name: &str) -> (r: Result<String, ReconcileError>)
    requires
        all_located(addons_view(installed@)),
    ensures
        match lookup(addons_view(installed@), name@) {
            None => r matches Err(ReconcileError::NotInstalled(n)) && n@ == name@,
            Some(a) => r matches Ok(p) && p@ == types_path_spec(a.location->0),
        },
{
    let ghost iv = addons_view(installed@);
    let target = name.to_owned();
    let mut i: usize = 0;
    assert(iv.skip(0) =~= iv);
    while i < installed.len()
        invariant
            i <= installed.len(),
            iv == addons_view(installed@),
            all_located(iv),
            target@ == name@,
            lookup(iv, name@) == lookup(iv.skip(i as int), name@),
        decreases installed.len() - i,
    {
        let a = &installed[i];
        assert(iv.skip(i as int)[0] == a@);
        if a.name == target {
            assert(iv[i as int].location is Some);
            match &a.location {
                Some(loc) => return Ok(types_path(loc.as_str())),
                None => {
                    assert(false);
                    return Err(ReconcileError::NotInstalled(name.to_owned()));
                },
            }
        }
        assert(iv.skip(i as int).drop_first() =~= iv.skip(i + 1));
        i = i + 1;
    }
    assert(iv.skip(i as int).len() == 0);
    Err(ReconcileError::NotInstalled(name.to_owned()))
}

/// The library with `path` appended at the end.
pub fn enable_in_library(library: Vec<String>, path: String) -> (r: Vec<String>)
    ensures
        r@ == library@.push(path),
{
    let mut r = library;
    r.push(path);
    r
}

/// The library without any entry equal to `path`.
pub fn disable_in_library(library: Vec<String>, path: &str) -> (r: Vec<String>)
    ensures
        strings_view(r@) == remove_all(strings_view(library@), path@),
{
    let ghost lv = strings_view(library@);
    let target = path.to_owned();
    let n = library.len();
    let mut pending = library;
    let ghost pend0 = pending@;
    let mut kept: Vec<String> = Vec::new();
    let mut k: usize = 0;
    while pending.len() > 0
        invariant
            k + pending@.len() == n,
            lv.len() == n,
            lv == strings_view(pend0),
            pending@ == pend0.skip(k as int),
            target@ == path@,
            strings_view(kept@) == remove_all(lv.take(k as int), path@),
        decreases pending@.len(),
    {
        let entry = pending.remove(0);
        proof {
            assert(lv.take(k + 1).drop_last() =~= lv.take(k as int));
            assert(lv[k as int] == pend0[k as int]@);
            assert(pending@ =~= pend0.skip(k + 1));
        }
        if !(entry == target) {
            let ghost before = kept@;
            let ghost ev = entry@;
            kept.push(entry);
            assert(strings_view(kept@) =~= strings_view(before).push(ev));
        }
        k = k + 1;
    }
    assert(lv.take(k as int) =~= lv);
    kept
}

/// Enables the addon `name`: the library is returned unchanged if an addon
/// of that name is enabled already; otherwise the `types` path of the
/// installed addon of that name is appended.
pub fn enable(name: &str, installed: &Vec<Addon>, library: Vec<String>, tree: &str) -> (r: Result<
    Vec<String>,
    ReconcileError,
>)
    requires
        all_located(addons_view(installed@)),
    ensures
        outcome_view(r) == enable_spec(
            name@,
            addons_view(installed@),
            strings_view(library@),
            tree@,
        ),
{
    let ghost lv = strings_view(library@);
    match list_enabled(&library, tree, None) {
        Err(c) => Err(ReconcileError::Decode(c)),
        Ok(addons) => {
            proof {
                lemma_filter_none(enabled_addons(lv, tree@));
            }
            assert(addons_view(addons@) == enabled_addons(lv, tree@));
            proof {
                lemma_any_named_enabled(addons@, lv, tree@, name@);
            }
            if any_named(&addons, name) {
                Ok(library)
            } else {
                match get_addon_path(installed, name) {
                    Err(e) => Err(e),
                    Ok(path) => {
                        let r = enable_in_library(library, path);
                        assert(strings_view(r@) =~= lv.push(path@));
                        Ok(r)
                    },
                }
            }
        },
    }
}

/// Disables the addon `name`: the library is returned unchanged if no addon
/// of that name is enabled; otherwise every entry equal to the `types` path
/// of the installed addon of that name is removed.
pub fn disable(name: &str, installed: &Vec<Addon>, library: Vec<String>, tree: &str) -> (r: Result<
    Vec<String>,
    ReconcileError,
>)
    requires
        all_located(addons_view(installed@)),
    ensures
        outcome_view(r) == disable_spec(
            name@,
            addons_view(installed@),
            strings_view(library@),
            tree@,
        ),
{
    let ghost lv = strings_view(library@);
    match list_enabled(&library, tree, None) {
        Err(c) => Err(ReconcileError::Decode(c)),
        Ok(addons) => {
            proof {
                lemma_filter_none(enabled_addons(lv, tree@));
            }
            assert(addons_view(addons@) == enabled_addons(lv, tree@));
            proof {
                lemma_any_named_enabled(addons@, lv, tree@, name@);
            }
            if !any_named(&addons, name) {
                Ok(library)
            } else {
                match get_addon_path(installed, name) {
                    Err(e) => Err(e),
                    Ok(path) => Ok(disable_in_library(library, path.as_str())),
                }
            }
        },
    }
}

/// Addons listed from a library hold one of a name exactly when that name
/// is enabled.
proof fn lemma_any_named_enabled(
    addons: Seq<Addon>,
    library: Seq<Seq<char>>,
    tree: Seq<char>,
    name: Seq<char>,
)
    requires
        addons_view(addons) == enabled_addons(library, tree),
    ensures
        (exists|i: int| 0 <= i < addons.len() && #[trigger] addons[i].name@ == name)
            <==> has_enabled(library, tree, name),
{
    if exists|i: int| 0 <= i < addons.len() && #[trigger] addons[i].name@ == name {
        let i = choose|i: int| 0 <= i < addons.len() && #[trigger] addons[i].name@ == name;
        assert(addons_view(addons)[i] == addons[i]@);
        assert(enabled_addons(library, tree)[i].name == name);
    }
    if has_enabled(library, tree, name) {
        let i = choose|i: int|
            0 <= i < enabled_addons(library, tree).len() && #[trigger] enabled_addons(
                library,
                tree,
            )[i].name == name;
        assert(addons_view(addons)[i] == addons[i]@);
        assert(addons[i].name@ == name);
    }
}

/// Without a filter every addon is kept.
proof fn lemma_filter_none(addons: Seq<AddonView>)
    ensures
        filter_names(addons, None) == addons,
    decreases addons.len(),
{
    if addons.len() > 0 {
        lemma_filter_none(addons.drop_last());
        assert(addons.drop_last().push(addons.last()) =~= addons);
    }
}


/// The addons that a settings document enables in `tree`, with `filter`
/// (when given) standing in their names; none where it has no library list.
pub fn list_enabled_in_settings(settings: &Settings, tree: &str, filter: Option<&str>) -> (r: Result<
    Vec<Addon>,
    CollectError<DecodeError>,
>)
    ensures
        failures(library_or_empty_spec(settings@), tree@).len() == 0 <==> r is Ok,
        r matches Ok(v) ==> addons_view(v@) == filter_names(
            enabled_addons(library_or_empty_spec(settings@), tree@),
            str_option_view(filter),
        ),
        r matches Err(c) ==> failure_entries(c) == failures(library_or_empty_spec(settings@), tree@),
{
    let library = settings.library_or_empty();
    list_enabled(&library, tree, filter)
}

/// Whether an addon named `name` is enabled in a settings document.
pub fn is_enabled_in_settings(settings: &Settings, tree: &str, name: &str) -> (r: Result<
    bool,
    CollectError<DecodeError>,
>)
    ensures
        failures(library_or_empty_spec(settings@), tree@).len() == 0 <==> r is Ok,
        r matches Ok(b) ==> b == has_enabled(library_or_empty_spec(settings@), tree@, name@),
        r matches Err(c) ==> failure_entries(c) == failures(library_or_empty_spec(settings@), tree@),
{
    let ghost lv = library_or_empty_spec(settings@);
    match list_enabled_in_settings(settings, tree, None) {
        Err(c) => Err(c),
        Ok(addons) => {
            proof {
                lemma_filter_none(enabled_addons(lv, tree@));
            }
            assert(addons_view(addons@) == enabled_addons(lv, tree@));
            proof {
                lemma_any_named_enabled(addons@, lv, tree@, name@);
            }
            let found = any_named(&addons, name);
            Ok(found)
        },
    }
}

/// Enables the addon `name` in a settings document: only its library list
/// changes, as `enable` changes it; every other field stays as it was.
pub fn enable_in_settings(settings: Settings, name: &str, installed: &Vec<Addon>, tree: &str) -> (r:
    Result<Settings, ReconcileError>)
    requires
        settings.wf(),
        all_located(addons_view(installed@)),
    ensures
        match r {
            Ok(s) => {
                &&& s.wf()
                &&& s@.library_key == settings@.library_key
                &&& s@.rest == settings@.rest
                &&& enable_spec(
                    name@,
                    addons_view(installed@),
                    library_or_empty_spec(settings@),
                    tree@,
                ) == Ok::<Seq<Seq<char>>, FailureView>(s@.library->0)
                &&& s@.library is Some
            },
            Err(e) => enable_spec(
                name@,
                addons_view(installed@),
                library_or_empty_spec(settings@),
                tree@,
            ) == Err::<Seq<Seq<char>>, FailureView>(failure_view(e)),
        },
{
    let library = settings.library_or_empty();
    match enable(name, installed, library, tree) {
        Ok(l) => Ok(settings.with_library(l)),
        Err(e) => Err(e),
    }
}

/// Disables the addon `name` in a settings document: only its library list
/// changes, as `disable` changes it; every other field stays as it was.
pub fn disable_in_settings(settings: Settings, name: &str, installed: &Vec<Addon>, tree: &str) -> (r:
    Result<Settings, ReconcileError>)
    requires
        settings.wf(),
        all_located(addons_view(installed@)),
    ensures
        match r {
            Ok(s) => {
                &&& s.wf()
                &&& s@.library_key == settings@.library_key
                &&& s@.rest == settings@.rest
                &&& disable_spec(
                    name@,
                    addons_view(installed@),
                    library_or_empty_spec(settings@),
                    tree@,
                ) == Ok::<Seq<Seq<char>>, FailureView>(s@.library->0)
                &&& s@.library is Some
            },
            Err(e) => disable_spec(
                name@,
                addons_view(installed@),
                library_or_empty_spec(settings@),
                tree@,
            ) == Err::<Seq<Seq<char>>, FailureView>(failure_view(e)),
        },
{
    let library = settings.library_or_empty();
    match disable(name, installed, library, tree) {
        Ok(l) => Ok(settings.with_library(l)),
        Err(e) => Err(e),
    }
}

/// Why settings text could not be updated.
#[derive(Debug)]
pub enum UpdateError {
    /// The text holds no settings document.
    Settings(SettingsError),
    /// The library list could not be changed.
    Reconcile(ReconcileError),
}

/// The document with `library` as its library list.
pub open spec fn set_library(d: SettingsView, library: Seq<Seq<char>>) -> SettingsView {
    SettingsView { library_key: d.library_key, library: Some(library), rest: d.rest }
}

/// What updating settings text gives: the text of the document with the
/// new library list, or why it failed.
pub open spec fn update_outcome(
    text: Seq<char>,
    key: Seq<char>,
    change: Result<Seq<Seq<char>>, FailureView>,
    r: Result<String, UpdateError>,
) -> bool {
    match change {
        Ok(l) => r matches Ok(t) && t@ == json_object_text(doc_fields(set_library(loaded(text, key)->0, l))),
        Err(f) => r matches Err(UpdateError::Reconcile(e)) && failure_view(e) == f,
    }
}

/// Enables the addon `name` in settings text whose library list stands in
/// the field `library_key`, and gives the text to write back. Text without
/// a value is a document without fields.
pub fn enable_in_text(
    text: &str,
    library_key: &str,
    name: &str,
    installed: &Vec<Addon>,
    tree: &str,
) -> (r: Result<String, UpdateError>)
    requires
        all_located(addons_view(installed@)),
    ensures
        loaded(text@, library_key@) is None ==> r matches Err(UpdateError::Settings(_)),
        loaded(text@, library_key@) is Some ==> update_outcome(
            text@,
            library_key@,
            enable_spec(
                name@,
                addons_view(installed@),
                library_or_empty_spec(loaded(text@, library_key@)->0),
                tree@,
            ),
            r,
        ),
{
    match Settings::load(text, library_key) {
        Err(e) => Err(UpdateError::Settings(e)),
        Ok(s) => match enable_in_settings(s, name, installed, tree) {
            Ok(updated) => Ok(updated.serialize()),
            Err(e) => Err(UpdateError::Reconcile(e)),
        },
    }
}

/// Disables the addon `name` in settings text whose library list stands in
/// the field `library_key`, and gives the text to write back. Text without
/// a value is a document without fields.
pub fn disable_in_text(
    text: &str,
    library_key: &str,
    name: &str,
    installed: &Vec<Addon>,
    tree: &str,
) -> (r: Result<String, UpdateError>)
    requires
        all_located(addons_view(installed@)),
    ensures
        loaded(text@, library_key@) is None ==> r matches Err(UpdateError::Settings(_)),
        loaded(text@, library_key@) is Some ==> update_outcome(
            text@,
            library_key@,
            disable_spec(
                name@,
                addons_view(installed@),
                library_or_empty_spec(loaded(text@, library_key@)->0),
                tree@,
            ),
            r,
        ),
{
    match Settings::load(text, library_key) {
        Err(e) => Err(UpdateError::Settings(e)),
        Ok(s) => match disable_in_settings(s, name, installed, tree) {
            Ok(updated) => Ok(updated.serialize()),
            Err(e) => Err(UpdateError::Reconcile(e)),
        },
    }
}

/// Writing settings text back with a new library list keeps every other
/// field of the text's object, each with its value, and adds the library
/// field after them; text without a value writes the library field alone.
pub proof fn lemma_update_keeps_other_fields(
    text: Seq<char>,
    key: Seq<char>,
    library: Seq<Seq<char>>,
)
    requires
        loaded(text, key) is Some,
    ensures
        jsonc_parse(text) matches Some(Some(v)) ==> doc_fields(
            set_library(loaded(text, key)->0, library),
        ) == without_key(object_entries(v)->0, key).push((key, json_list(library))),
        jsonc_parse(text) matches Some(None) ==> doc_fields(
            set_library(loaded(text, key)->0, library),
        ) == seq![(key, json_list(library))],
{
    if jsonc_parse(text) matches Some(None) {
        assert(Seq::<FieldView>::empty().push((key, json_list(library))) =~= seq![
            (key, json_list(library)),
        ]);
    }
}

/// The `types` path of the installed addon named `name` is an entry of the
/// tree, and it names an addon of that name.
pub open spec fn installed_in_tree(installed: Seq<AddonView>, name: Seq<char>, tree: Seq<char>) -> bool {
    match lookup(installed, name) {
        None => true,
        Some(a) => {
            let p = types_path_spec(a.location->0);
            &&& accepts_spec(p, tree)
            &&& decode_spec(p) is Ok
            &&& decode_spec(p)->Ok_0.name == name
        },
    }
}

/// No entry of the tree fails to decode exactly when each accepted entry
/// decodes.
proof fn lemma_no_failures(library: Seq<Seq<char>>, tree: Seq<char>)
    ensures
        failures(library, tree).len() == 0 <==> forall|i: int|
            0 <= i < library.len() && accepts_spec(#[trigger] library[i], tree)
                ==> decode_spec(library[i]) is Ok,
    decreases library.len(),
{
    if library.len() > 0 {
        let d = library.drop_last();
        lemma_no_failures(d, tree);
        assert(library[library.len() - 1] == library.last());
        if failures(library, tree).len() == 0 {
            if accepts_spec(library.last(), tree) {
                assert(decoded(library, tree).drop_last() =~= decoded(d, tree));
                assert(failures(d, tree).len() == 0);
            }
            assert forall|i: int|
                0 <= i < library.len() && accepts_spec(#[trigger] library[i], tree) implies decode_spec(
                library[i],
            ) is Ok by {
                if i < d.len() {
                    assert(library[i] == d[i]);
                }
            }
        } else {
            if forall|i: int|
                0 <= i < library.len() && accepts_spec(#[trigger] library[i], tree)
                    ==> decode_spec(library[i]) is Ok {
                assert forall|i: int|
                    0 <= i < d.len() && accepts_spec(#[trigger] d[i], tree) implies decode_spec(
                    d[i],
                ) is Ok by {
                    assert(library[i] == d[i]);
                }
                if accepts_spec(library.last(), tree) {
                    assert(decoded(library, tree).drop_last() =~= decoded(d, tree));
                }
            }
        }
    }
}

/// What is kept was there before and is not `path`.
proof fn lemma_remove_all(library: Seq<Seq<char>>, path: Seq<char>)
    ensures
        forall|i: int|
            0 <= i < remove_all(library, path).len() ==> #[trigger] remove_all(library, path)[i]
                != path && library.contains(remove_all(library, path)[i]),
        !library.contains(path) ==> remove_all(library, path) == library,
    decreases library.len(),
{
    if library.len() > 0 {
        let d = library.drop_last();
        lemma_remove_all(d, path);
        let w = remove_all(d, path);
        assert forall|i: int| 0 <= i < w.len() implies library.contains(#[trigger] w[i]) by {
            let j = choose|j: int| 0 <= j < d.len() && d[j] == w[i];
            assert(library[j] == w[i]);
        }
        assert(library[library.len() - 1] == library.last());
        if !library.contains(path) {
            assert(!d.contains(path)) by {
                if d.contains(path) {
                    let j = choose|j: int| 0 <= j < d.len() && d[j] == path;
                    assert(library[j] == path);
                }
            }
            assert(d.push(library.last()) =~= library);
        }
    }
}

/// The library with one more entry decodes as before, followed by that entry.
proof fn lemma_push_entry(library: Seq<Seq<char>>, p: Seq<char>, tree: Seq<char>)
    requires
        accepts_spec(p, tree),
        decode_spec(p) is Ok,
    ensures
        failures(library.push(p), tree) == failures(library, tree),
        enabled_addons(library.push(p), tree) == enabled_addons(library, tree).push(
            decode_spec(p)->Ok_0,
        ),
{
    let l2 = library.push(p);
    assert(l2.drop_last() =~= library);
    let d = decoded(library, tree);
    assert(decoded(l2, tree) == d.push(decode_spec(p)));
    assert(d.push(decode_spec(p)).drop_last() =~= d);
}

/// Enabling an addon twice gives the library list that enabling it once
/// gives.
pub proof fn lemma_enable_idempotent(
    name: Seq<char>,
    installed: Seq<AddonView>,
    library: Seq<Seq<char>>,
    tree: Seq<char>,
)
    requires
        installed_in_tree(installed, name, tree),
        enable_spec(name, installed, library, tree) is Ok,
    ensures
        enable_spec(name, installed, enable_spec(name, installed, library, tree)->Ok_0, tree)
            == enable_spec(name, installed, library, tree),
{
    if !has_enabled(library, tree, name) {
        let a = lookup(installed, name)->0;
        let p = types_path_spec(a.location->0);
        let l2 = library.push(p);
        lemma_push_entry(library, p, tree);
        let e = enabled_addons(library, tree);
        assert(enabled_addons(l2, tree)[e.len() as int].name == name);
        assert(has_enabled(l2, tree, name));
    }
}

/// Disabling an addon twice gives the library list that disabling it once
/// gives.
pub proof fn lemma_disable_idempotent(
    name: Seq<char>,
    installed: Seq<AddonView>,
    library: Seq<Seq<char>>,
    tree: Seq<char>,
)
    requires
        disable_spec(name, installed, library, tree) is Ok,
    ensures
        disable_spec(name, installed, disable_spec(name, installed, library, tree)->Ok_0, tree)
            == disable_spec(name, installed, library, tree),
{
    if has_enabled(library, tree, name) {
        let a = lookup(installed, name)->0;
        let p = types_path_spec(a.location->0);
        let l2 = remove_all(library, p);
        lemma_remove_all(library, p);
        lemma_remove_all(l2, p);
        lemma_no_failures(library, tree);
        lemma_no_failures(l2, tree);
        assert forall|i: int|
            0 <= i < l2.len() && accepts_spec(#[trigger] l2[i], tree) implies decode_spec(
            l2[i],
        ) is Ok by {
            let j = choose|j: int| 0 <= j < library.len() && library[j] == l2[i];
        }
        assert(!l2.contains(p)) by {
            if l2.contains(p) {
                let j = choose|j: int| 0 <= j < l2.len() && l2[j] == p;
                assert(l2[j] != p);
            }
        }
    }
}

/// Disabling an addon just enabled gives back the library list as it was,
/// where that list did not hold the addon's path already.
pub proof fn lemma_disable_undoes_enable(
    name: Seq<char>,
    installed: Seq<AddonView>,
    library: Seq<Seq<char>>,
    tree: Seq<char>,
)
    requires
        installed_in_tree(installed, name, tree),
        lookup(installed, name) is Some,
        !library.contains(types_path_spec(lookup(installed, name)->0.location->0)),
        enable_spec(name, installed, library, tree) is Ok,
    ensures
        disable_spec(name, installed, enable_spec(name, installed, library, tree)->Ok_0, tree)
            == Ok::<Seq<Seq<char>>, FailureView>(library),
{
    let a = lookup(installed, name)->0;
    let p = types_path_spec(a.location->0);
    lemma_remove_all(library, p);
    if !has_enabled(library, tree, name) {
        let l2 = library.push(p);
        lemma_push_entry(library, p, tree);
        let e = enabled_addons(library, tree);
        assert(enabled_addons(l2, tree)[e.len() as int].name == name);
        assert(has_enabled(l2, tree, name));
        assert(l2.drop_last() =~= library);
        assert(remove_all(l2, p) == remove_all(library, p));
    }
}

} // verus!
