//! Read `appmanifest_<id>.acf` documents describing installed Steam apps.

use crate::order::{is_stable_order, key_views, permuted, stable_sort};
use crate::text::{chars_of, ends_with, has_prefix, has_suffix, parse_u32, parsed_u32, starts_with};
use crate::vdf::{as_obj, entry_str, get_str, parse_vdf, parsed_vdf_text, value_obj, VdfDocument};
use vstd::prelude::*;

verus! {

/// A single installed Steam app, as described by an `appmanifest` file.
#[derive(Debug)]
pub struct InstalledApp {
    pub app_id: u32,
    pub name: String,
    /// The value of the `installdir` key (directory name under
    /// `steamapps/common`), when present and not empty.
    pub install_dir: Option<String>,
}

/// The plain contents of an [`InstalledApp`].
pub struct InstalledAppView {
    pub app_id: u32,
    pub name: Seq<char>,
    pub install_dir: Option<Seq<char>>,
}

impl View for InstalledApp {
    type V = InstalledAppView;

    open spec fn view(&self) -> InstalledAppView {
        InstalledAppView {
            app_id: self.app_id,
            name: self.name@,
            install_dir: match self.install_dir {
                Some(d) => Some(d@),
                None => None,
            },
        }
    }
}

/// Whether a directory entry name is that of an app manifest
/// (`appmanifest_*.acf`).
pub open spec fn is_manifest_name(name: Seq<char>) -> bool {
    has_prefix(name, "appmanifest_"@) && has_suffix(name, ".acf"@)
}

/// Whether `name` is the file name of an app manifest.
pub fn is_manifest_file_name(name: &str) -> (res: bool)
    ensures
        res == is_manifest_name(name@),
        res == (has_prefix(name@, "appmanifest_"@) && has_suffix(name@, ".acf"@)),
{
    let cs = chars_of(name);
    let pre = chars_of("appmanifest_");
    let suf = chars_of(".acf");
    starts_with(&cs, &pre) && ends_with(&cs, &suf)
}

/// The app a parsed manifest describes: the `AppState` object's `appid`
/// (which must parse as a `u32`), its `name` (empty when missing) and its
/// non-empty `installdir`. `None` when the root is not an object or the app
/// id is missing or malformed.
pub open spec fn doc_manifest_app(doc: VdfDocument) -> Option<InstalledAppView> {
    match as_obj(doc.value) {
        None => None,
        Some(e) => match get_str(e, "appid"@) {
            None => None,
            Some(id_text) => match parsed_u32(id_text) {
                None => None,
                Some(id) => Some(
                    InstalledAppView {
                        app_id: id,
                        name: match get_str(e, "name"@) {
                            Some(n) => n,
                            None => seq![],
                        },
                        install_dir: match get_str(e, "installdir"@) {
                            Some(d) => if d.len() > 0 {
                                Some(d)
                            } else {
                                None
                            },
                            None => None,
                        },
                    },
                ),
            },
        },
    }
}

/// The app a manifest text describes (see [`doc_manifest_app`]); `None`
/// also when the text does not parse.
pub open spec fn manifest_app(text: Seq<char>) -> Option<InstalledAppView> {
    match parsed_vdf_text(text) {
        None => None,
        Some(doc) => doc_manifest_app(doc),
    }
}

/// The app a parsed `appmanifest_<id>.acf` document describes (see
/// [`doc_manifest_app`]).
pub fn manifest_of(doc: &VdfDocument) -> (res: Option<InstalledApp>)
    ensures
        res matches Some(app) ==> doc_manifest_app(*doc) == Some(app@),
        res is None ==> doc_manifest_app(*doc) is None,
{
    let e = match value_obj(&doc.value) {
        Some(e) => e,
        None => return None,
    };
    let id_text = match entry_str(e, "appid") {
        Some(t) => t,
        None => return None,
    };
    let app_id = match parse_u32(id_text.as_str()) {
        Some(id) => id,
        None => return None,
    };
    let name = match entry_str(e, "name") {
        Some(n) => n.clone(),
        None => String::new(),
    };
    let install_dir = match entry_str(e, "installdir") {
        Some(d) => if d.as_str().is_empty() {
            None
        } else {
            Some(d.clone())
        },
        None => None,
    };
    let app = InstalledApp { app_id, name, install_dir };
    assert(app@.install_dir == doc_manifest_app(*doc).unwrap().install_dir);
    Some(app)
}

/// Parse the text of an `appmanifest_<id>.acf` file into an [`InstalledApp`].
pub fn parse_manifest(text: &str) -> (res: Option<InstalledApp>)
    ensures
        res matches Some(app) ==> manifest_app(text@) == Some(app@),
        res is None ==> manifest_app(text@) is None,
{
    match parse_vdf(text) {
        Ok(d) => manifest_of(&d),
        Err(_) => None,
    }
}

/// The sort key of a number: the number itself.
pub open spec fn number_key(n: u32) -> Seq<u32> {
    seq![n]
}

/// The views of a sequence of apps.
pub open spec fn app_views(apps: Seq<InstalledApp>) -> Seq<InstalledAppView> {
    apps.map_values(|a: InstalledApp| a@)
}

/// The sort keys of apps: their app ids.
pub open spec fn app_id_keys(apps: Seq<InstalledApp>) -> Seq<Seq<u32>> {
    apps.map_values(|a: InstalledApp| number_key(a.app_id))
}

/// The installed apps of one library, ordered by app id (a stable sort, so
/// manifests with equal ids keep the order in which they were read).
pub fn installed_apps(apps: Vec<InstalledApp>) -> (res: Vec<InstalledApp>)
    ensures
        exists|perm: Seq<int>|
            is_stable_order(app_id_keys(apps@), false, perm) && app_views(res@) == app_views(
                permuted(apps@, perm),
            ),
{
    let mut keys: Vec<Vec<u32>> = Vec::new();
    let mut i: usize = 0;
    while i < apps.len()
        invariant
            i <= apps@.len(),
            keys@.len() == i,
            forall|k: int| 0 <= k < i ==> (#[trigger] keys@[k])@ == number_key(apps@[k].app_id),
        decreases apps@.len() - i,
    {
        let mut k: Vec<u32> = Vec::new();
        k.push(apps[i].app_id);
        keys.push(k);
        i = i + 1;
    }
    let ghost a0 = apps@;
    assert(key_views(keys@) =~= app_id_keys(a0));
    let (sorted, perm) = stable_sort(apps, &keys, false);
    assert(app_views(sorted@) =~= app_views(permuted(a0, perm@)));
    sorted
}

} // verus!
