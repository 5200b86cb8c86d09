//! The per-app compatibility tool mapping from `config.vdf`, and the install
//! directory of a compatibility tool given its internal name.

use crate::paths::{joined, path_join};
use crate::steam::SteamError;
use crate::text::{
    chars_of, decimal, has_prefix, join_with, join_words, lowercase_of, push_decimal, push_str,
    starts_with, to_lowercase, words,
};
use crate::vdf::{
    as_obj, entry, entry_obj, entry_str, get_obj, get_str, lookup, parse_vdf, parsed_vdf_text,
    value_obj, VdfDocument, VdfValue,
};
use vstd::prelude::*;

verus! {

/// The `Valve` object under `Software`: the value under `Valve` if that key
/// exists (and is an object), otherwise the object under `valve`.
pub open spec fn valve_obj(software: Seq<(String, VdfValue)>) -> Option<Seq<(String, VdfValue)>> {
    match lookup(software, "Valve"@) {
        Some(v) => as_obj(v),
        None => get_obj(software, "valve"@),
    }
}

/// The `CompatToolMapping` object of a `config.vdf` document: under the root
/// object, `Software`, then `Valve` (or `valve`), then `Steam`.
pub open spec fn compat_mapping(doc: VdfDocument) -> Option<Seq<(String, VdfValue)>> {
    match as_obj(doc.value) {
        None => None,
        Some(root) => match get_obj(root, "Software"@) {
            None => None,
            Some(sw) => match valve_obj(sw) {
                None => None,
                Some(valve) => match get_obj(valve, "Steam"@) {
                    None => None,
                    Some(steam) => get_obj(steam, "CompatToolMapping"@),
                },
            },
        },
    }
}

/// The tool name of one mapping entry: the `name` string of its object.
pub open spec fn tool_of(v: VdfValue) -> Option<Seq<char>> {
    match as_obj(v) {
        Some(o) => get_str(o, "name"@),
        None => None,
    }
}

/// The tool that the mapping `entries` gives to the key `k`: that of the last
/// entry with key `k` that names a tool (a map filled in entry order, later
/// entries replacing earlier ones).
pub open spec fn mapped_tool(entries: Seq<(String, VdfValue)>, k: Seq<char>) -> Option<Seq<char>>
    decreases entries.len(),
{
    if entries.len() == 0 {
        None
    } else if entries.last().0@ == k && tool_of(entries.last().1) is Some {
        tool_of(entries.last().1)
    } else {
        mapped_tool(entries.drop_last(), k)
    }
}

/// The value stored for key `k` in an association list: that of its first
/// entry with that key.
pub open spec fn assoc_get(v: Seq<(String, String)>, k: Seq<char>) -> Option<Seq<char>>
    decreases v.len(),
{
    if v.len() == 0 {
        None
    } else if v[0].0@ == k {
        Some(v[0].1@)
    } else {
        assoc_get(v.drop_first(), k)
    }
}

/// No key occurs twice in the association list.
pub open spec fn distinct_keys(v: Seq<(String, String)>) -> bool {
    forall|i: int, j: int| 0 <= i < j < v.len() ==> (#[trigger] v[i]).0@ != (#[trigger] v[j]).0@
}

proof fn lemma_assoc_get_push(v: Seq<(String, String)>, e: (String, String), k: Seq<char>)
    ensures
        assoc_get(v.push(e), k) == (match assoc_get(v, k) {
            Some(x) => Some(x),
            None => if e.0@ == k {
                Some(e.1@)
            } else {
                None
            },
        }),
    decreases v.len(),
{
    if v.len() > 0 {
        assert(v.push(e).drop_first() =~= v.drop_first().push(e));
        assert(v.push(e)[0] == v[0]);
        lemma_assoc_get_push(v.drop_first(), e, k);
    } else {
        assert(v.push(e)[0] == e);
        assert(v.push(e).drop_first() =~= Seq::<(String, String)>::empty());
        assert(assoc_get(Seq::<(String, String)>::empty(), k) is None);
        assert(assoc_get(v, k) is None);
    }
}

proof fn lemma_assoc_get_found(v: Seq<(String, String)>, k: Seq<char>, i: int)
    requires
        0 <= i < v.len(),
        v[i].0@ == k,
    ensures
        assoc_get(v, k) is Some,
    decreases v.len(),
{
    if i > 0 && v[0].0@ != k {
        lemma_assoc_get_found(v.drop_first(), k, i - 1);
    }
}

proof fn lemma_assoc_get_absent(v: Seq<(String, String)>, k: Seq<char>)
    requires
        forall|i: int| 0 <= i < v.len() ==> (#[trigger] v[i]).0@ != k,
    ensures
        assoc_get(v, k) is None,
    decreases v.len(),
{
    if v.len() > 0 {
        lemma_assoc_get_absent(v.drop_first(), k);
    }
}

/// The tool name of one mapping entry (its object's `name` string).
fn entry_tool(v: &VdfValue) -> (res: Option<&String>)
    ensures
        res matches Some(s) ==> tool_of(*v) == Some(s@),
        res is None ==> tool_of(*v) is None,
{
    match value_obj(v) {
        Some(o) => entry_str(o, "name"),
        None => None,
    }
}

/// Whether the association list has an entry with key `k`.
fn has_key(v: &Vec<(String, String)>, k: &String) -> (res: bool)
    ensures
        res == exists|i: int| 0 <= i < v@.len() && (#[trigger] v@[i]).0@ == k@,
{
    let mut i: usize = 0;
    while i < v.len()
        invariant
            i <= v@.len(),
            forall|j: int| 0 <= j < i ==> (#[trigger] v@[j]).0@ != k@,
        decreases v@.len() - i,
    {
        if v[i].0 == *k {
            return true;
        }
        i = i + 1;
    }
    false
}

/// The app id → tool name map that a mapping object gives (see
/// [`mapped_tool`]), as an association list without repeated keys.
fn mapping_entries(entries: &Vec<(String, VdfValue)>) -> (res: Vec<(String, String)>)
    ensures
        distinct_keys(res@),
        forall|k: Seq<char>| #[trigger] assoc_get(res@, k) == mapped_tool(entries@, k),
{
    let mut out: Vec<(String, String)> = Vec::new();
    let mut i: usize = entries.len();
    assert(entries@.take(entries@.len() as int) =~= entries@);
    while i > 0
        invariant
            i <= entries@.len(),
            distinct_keys(out@),
            forall|k: Seq<char>|
                #[trigger] mapped_tool(entries@, k) == (match assoc_get(out@, k) {
                    Some(x) => Some(x),
                    None => mapped_tool(entries@.take(i as int), k),
                }),
        decreases i,
    {
        let ghost before = out@;
        let ghost t = entries@.take(i as int);
        assert(t.drop_last() =~= entries@.take(i - 1));
        let key = &entries[i - 1].0;
        match entry_tool(&entries[i - 1].1) {
            Some(name) => {
                if !has_key(&out, key) {
                    let e = (key.clone(), name.clone());
                    out.push(e);
                    proof {
                        assert forall|k: Seq<char>|
                            #[trigger] mapped_tool(entries@, k) == (match assoc_get(out@, k) {
                                Some(x) => Some(x),
                                None => mapped_tool(entries@.take(i - 1), k),
                            }) by {
                            lemma_assoc_get_push(before, e, k);
                            if k == key@ {
                                lemma_assoc_get_absent(before, k);
                            }
                        }
                    }
                } else {
                    proof {
                        assert forall|k: Seq<char>|
                            #[trigger] mapped_tool(entries@, k) == (match assoc_get(out@, k) {
                                Some(x) => Some(x),
                                None => mapped_tool(entries@.take(i - 1), k),
                            }) by {
                            if k == key@ {
                                let j = choose|j: int| 0 <= j < out@.len() && (#[trigger] out@[j]).0@ == key@;
                                lemma_assoc_get_found(out@, k, j);
                            }
                        }
                    }
                }
            },
            None => {},
        }
        i = i - 1;
    }
    proof {
        assert forall|k: Seq<char>| #[trigger] assoc_get(out@, k) == mapped_tool(entries@, k) by {
            assert(entries@.take(0).len() == 0);
        }
    }
    out
}

/// The app id → tool name map of a parsed `config.vdf` document (see
/// [`compat_mapping`] and [`mapped_tool`]), as an association list without
/// repeated keys; empty when the document has no `CompatToolMapping`.
pub fn tool_map_of(doc: &VdfDocument) -> (res: Vec<(String, String)>)
    ensures
        distinct_keys(res@),
        forall|k: Seq<char>|
            #[trigger] assoc_get(res@, k) == match compat_mapping(*doc) {
                Some(e) => mapped_tool(e, k),
                None => None,
            },
{
    let mapping = match value_obj(&doc.value) {
        None => None,
        Some(root) => match entry_obj(root, "Software") {
            None => None,
            Some(sw) => {
                let valve = match entry(sw, "Valve") {
                    Some(v) => value_obj(v),
                    None => entry_obj(sw, "valve"),
                };
                match valve {
                    None => None,
                    Some(valve) => match entry_obj(valve, "Steam") {
                        None => None,
                        Some(steam) => entry_obj(steam, "CompatToolMapping"),
                    },
                }
            },
        },
    };
    match mapping {
        None => {
            let out: Vec<(String, String)> = Vec::new();
            proof {
                assert forall|k: Seq<char>| #[trigger] assoc_get(out@, k) == match compat_mapping(*doc) {
                    Some(e) => mapped_tool(e, k),
                    None => None,
                } by {}
            }
            out
        },
        Some(m) => mapping_entries(m),
    }
}

/// The compatibility tool mapping of a `config.vdf` document (see
/// [`compat_mapping`]), or `None` when the document has none.
pub open spec fn config_tool_mapping(text: Seq<char>) -> Option<Seq<(String, VdfValue)>> {
    match parsed_vdf_text(text) {
        Some(doc) => compat_mapping(doc),
        None => None,
    }
}

/// Load the compatibility tool mapping from the text of Steam's `config.vdf`
/// (`None` when the file does not exist).
///
/// Returns the map from Steam App ID (a string, as the VDF keys are) to the
/// tool's internal name, as an association list without repeated keys. It is
/// empty when there is no file or no `CompatToolMapping`; a text that does
/// not parse is a `SteamError::Parse` whose message starts with
/// `config.vdf: `.
pub fn compat_tool_map(config_vdf: Option<&str>) -> (res: Result<Vec<(String, String)>, SteamError>)
    ensures
        config_vdf is None ==> (res matches Ok(m) && m@.len() == 0),
        config_vdf matches Some(t) ==> (res is Err <==> parsed_vdf_text(t@) is None),
        res matches Err(e) ==> (e matches SteamError::Parse(m) && has_prefix(m@, "config.vdf: "@)),
        res matches Ok(m) ==> distinct_keys(m@),
        res matches Ok(m) ==> (config_vdf matches Some(t) ==> forall|k: Seq<char>|
            #[trigger] assoc_get(m@, k) == match config_tool_mapping(t@) {
                Some(e) => mapped_tool(e, k),
                None => None,
            }),
{
    let text = match config_vdf {
        Some(t) => t,
        None => return Ok(Vec::new()),
    };
    let doc = match parse_vdf(text) {
        Ok(d) => d,
        Err(msg) => {
            let mut m = String::new();
            push_str(&mut m, "config.vdf: ");
            push_str(&mut m, msg.as_str());
            proof {
                reveal_strlit("config.vdf: ");
                assert(m@.subrange(0, 12) =~= "config.vdf: "@);
            }
            return Err(SteamError::Parse(m));
        },
    };
    Ok(tool_map_of(&doc))
}

/// The compatibility tool selected for an app: its entry in the mapping, or
/// the empty string when Steam has no explicit mapping for it.
pub open spec fn tool_for_app(map: Seq<(String, String)>, app_id: u32) -> Seq<char> {
    match assoc_get(map, decimal(app_id as nat)) {
        Some(t) => t,
        None => seq![],
    }
}

/// The compatibility tool selected for `app_id` in `map`, or the empty
/// string when there is no explicit mapping.
pub fn compat_tool_for_app(map: &Vec<(String, String)>, app_id: u32) -> (res: String)
    ensures
        res@ == tool_for_app(map@, app_id),
{
    let mut key = String::new();
    push_decimal(&mut key, app_id as u64);
    assert(key@ =~= decimal(app_id as nat));
    let mut i: usize = 0;
    assert(map@.skip(0) =~= map@);
    while i < map.len()
        invariant
            i <= map@.len(),
            key@ == decimal(app_id as nat),
            assoc_get(map@, key@) == assoc_get(map@.skip(i as int), key@),
        decreases map@.len() - i,
    {
        if map[i].0 == key {
            return map[i].1.clone();
        }
        assert(map@.skip(i as int).drop_first() =~= map@.skip(i + 1));
        i = i + 1;
    }
    String::new()
}


/// The directory of a custom compatibility tool:
/// `<steam_root>/compatibilitytools.d/<tool>`.
pub open spec fn custom_dir_in(steam_root: Seq<char>, tool: Seq<char>) -> Seq<char> {
    joined(joined(steam_root, "compatibilitytools.d"@), tool)
}

/// The directory holding built-in tools: `<steam_root>/steamapps/common`.
pub open spec fn common_in(steam_root: Seq<char>) -> Seq<char> {
    joined(joined(steam_root, "steamapps"@), "common"@)
}

/// The directory a custom tool named `tool` would live in, or `None` for the
/// empty tool name. Whether this directory holds a `proton` script is what
/// [`proton_dir_for_tool`] is told about.
pub fn custom_tool_dir(steam_root: &str, tool: &str) -> (res: Option<String>)
    ensures
        res is None <==> tool@.len() == 0,
        res matches Some(d) ==> d@ == custom_dir_in(steam_root@, tool@),
        res matches Some(d) ==> d@ == joined(joined(steam_root@, "compatibilitytools.d"@), tool@),
{
    if tool.is_empty() {
        return None;
    }
    let base = path_join(steam_root, "compatibilitytools.d");
    Some(path_join(base.as_str(), tool))
}

/// The `steamapps/common` directory of a Steam root.
pub fn common_dir(steam_root: &str) -> (res: String)
    ensures
        res@ == common_in(steam_root@),
        res@ == joined(joined(steam_root@, "steamapps"@), "common"@),
{
    let base = path_join(steam_root, "steamapps");
    path_join(base.as_str(), "common")
}

/// Steam's internal name for a built-in tool with the manifest name
/// `display`: for a name starting with `Proton`, its words joined with `_`
/// and lowercased (`Proton Experimental` → `proton_experimental`); `None` for
/// other apps (such as the Steam Linux Runtimes).
pub open spec fn internal_tool_name(display: Seq<char>) -> Option<Seq<char>> {
    if has_prefix(display, "Proton"@) {
        Some(lowercase_of(join_with(words(display), "_"@)))
    } else {
        None
    }
}

/// What a parsed built-in tool's `appmanifest` says: its internal name and
/// its install directory (empty strings for missing keys), or `None` when
/// its root is not an object or the app is not a Proton tool.
pub open spec fn doc_builtin_manifest(doc: VdfDocument) -> Option<(Seq<char>, Seq<char>)> {
    match as_obj(doc.value) {
        None => None,
        Some(e) => {
            let name = match get_str(e, "name"@) {
                Some(n) => n,
                None => seq![],
            };
            let dir = match get_str(e, "installdir"@) {
                Some(d) => d,
                None => seq![],
            };
            match internal_tool_name(name) {
                Some(i) => Some((i, dir)),
                None => None,
            }
        },
    }
}

/// What a built-in tool's `appmanifest` text says (see
/// [`doc_builtin_manifest`]); `None` also when the text does not parse.
pub open spec fn builtin_manifest(text: Seq<char>) -> Option<(Seq<char>, Seq<char>)> {
    match parsed_vdf_text(text) {
        None => None,
        Some(doc) => doc_builtin_manifest(doc),
    }
}

/// The internal name and install directory a parsed built-in tool's
/// `appmanifest` gives (see [`doc_builtin_manifest`]).
pub fn builtin_manifest_of(doc: &VdfDocument) -> (res: Option<(String, String)>)
    ensures
        res matches Some(r) ==> doc_builtin_manifest(*doc) == Some((r.0@, r.1@)),
        res is None ==> doc_builtin_manifest(*doc) is None,
{
    let e = match value_obj(&doc.value) {
        Some(e) => e,
        None => return None,
    };
    let name = match entry_str(e, "name") {
        Some(n) => n.clone(),
        None => String::new(),
    };
    let dir = match entry_str(e, "installdir") {
        Some(d) => d.clone(),
        None => String::new(),
    };
    let ncs = chars_of(name.as_str());
    let pre = chars_of("Proton");
    if !starts_with(&ncs, &pre) {
        return None;
    }
    let joined_words = join_words(name.as_str(), "_");
    let internal = to_lowercase(joined_words.as_str());
    Some((internal, dir))
}

/// Parse the text of a built-in tool's `appmanifest_<appid>.acf` into its
/// internal name and install directory; runtimes and other non-Proton apps
/// give `None`.
pub fn parse_builtin_appmanifest(text: &str) -> (res: Option<(String, String)>)
    ensures
        res matches Some(r) ==> builtin_manifest(text@) == Some((r.0@, r.1@)),
        res is None ==> builtin_manifest(text@) is None,
{
    match parse_vdf(text) {
        Ok(d) => builtin_manifest_of(&d),
        Err(_) => None,
    }
}

/// An installed built-in tool, as the `appmanifest` files in `steamapps`
/// describe it, together with whether its install directory
/// (`steamapps/common/<install_dir>`) exists.
#[derive(Debug)]
pub struct BuiltinManifest {
    pub internal_name: String,
    pub install_dir: String,
    pub installed: bool,
}

/// The last of `list` with the given internal name (the manifests are
/// collected into a map, later ones replacing earlier ones).
pub open spec fn last_named(list: Seq<BuiltinManifest>, name: Seq<char>) -> Option<BuiltinManifest>
    decreases list.len(),
{
    if list.len() == 0 {
        None
    } else if list.last().internal_name@ == name {
        Some(list.last())
    } else {
        last_named(list.drop_last(), name)
    }
}

/// The install directory of the built-in tool with the internal name `tool`
/// among `list`, when `tool` starts with `proton_` (the only internal names a
/// built-in Proton tool can have).
pub open spec fn builtin_for(list: Seq<BuiltinManifest>, tool: Seq<char>) -> Option<BuiltinManifest> {
    if has_prefix(tool, "proton_"@) {
        last_named(list, tool)
    } else {
        None
    }
}

/// The built-in tool with the internal name `internal_name` among `installed`
/// (the manifests found in `steamapps`, in directory order), if that name
/// starts with `proton_`.
pub fn manifest_for_builtin<'a>(installed: &'a Vec<BuiltinManifest>, internal_name: &str) -> (res:
    Option<&'a BuiltinManifest>)
    ensures
        res matches Some(m) ==> builtin_for(installed@, internal_name@) == Some(*m),
        res is None ==> builtin_for(installed@, internal_name@) is None,
{
    let ncs = chars_of(internal_name);
    let pre = chars_of("proton_");
    if !starts_with(&ncs, &pre) {
        return None;
    }
    let target = chars_of(internal_name);
    let mut i: usize = installed.len();
    assert(installed@.take(installed@.len() as int) =~= installed@);
    while i > 0
        invariant
            i <= installed@.len(),
            target@ == internal_name@,
            has_prefix(internal_name@, "proton_"@),
            last_named(installed@, internal_name@) == last_named(installed@.take(i as int), internal_name@),
        decreases i,
    {
        let name = chars_of(installed[i - 1].internal_name.as_str());
        assert(installed@.take(i as int).drop_last() =~= installed@.take(i - 1));
        if name.len() == target.len() && starts_with(&name, &target) {
            assert(name@ =~= target@);
            assert(installed@.take(i as int).last() == installed@[i - 1]);
            assert(installed@[i - 1].internal_name@ == internal_name@);
            return Some(&installed[i - 1]);
        }
        proof {
            if name@ == target@ {
                assert(name@.subrange(0, target@.len() as int) =~= name@);
            }
        }
        i = i - 1;
    }
    None
}

/// The Proton directory of the compatibility tool `tool` (Steam's internal
/// name), given what the file system holds:
/// - empty name: none;
/// - `custom_has_script`: the custom tool directory
///   `<steam_root>/compatibilitytools.d/<tool>` holds a `proton` script, and
///   is the answer (a custom directory without one is not a Proton-type tool,
///   such as Boxtron);
/// - otherwise the built-in tool of that name among `builtins` (the manifests
///   of `<steam_root>/steamapps`, `None` when that directory cannot be read),
///   at `<steam_root>/steamapps/common/<install_dir>` if that exists.
pub open spec fn tool_dir(
    steam_root: Seq<char>,
    tool: Seq<char>,
    custom_has_script: bool,
    builtins: Option<Seq<BuiltinManifest>>,
) -> Option<Seq<char>> {
    if tool.len() == 0 {
        None
    } else if custom_has_script {
        Some(custom_dir_in(steam_root, tool))
    } else {
        match builtins {
            None => None,
            Some(list) => match builtin_for(list, tool) {
                None => None,
                Some(m) => if m.installed {
                    Some(joined(common_in(steam_root), m.install_dir@))
                } else {
                    None
                },
            },
        }
    }
}

/// Resolve the Proton directory of a compatibility tool by its internal
/// name (see [`tool_dir`]). `custom_has_script` tells whether
/// [`custom_tool_dir`] holds a `proton` script (a file); `builtins` lists
/// the built-in tool manifests found in `<steam_root>/steamapps` (`None`
/// when it cannot be read).
pub fn proton_dir_for_tool(
    steam_root: &str,
    tool: &str,
    custom_has_script: bool,
    builtins: Option<&Vec<BuiltinManifest>>,
) -> (res: Option<String>)
    ensures
        res matches Some(d) ==> tool_dir(
            steam_root@,
            tool@,
            custom_has_script,
            match builtins {
                Some(b) => Some(b@),
                None => None,
            },
        ) == Some(d@),
        res is None ==> tool_dir(
            steam_root@,
            tool@,
            custom_has_script,
            match builtins {
                Some(b) => Some(b@),
                None => None,
            },
        ) is None,
{
    let custom = match custom_tool_dir(steam_root, tool) {
        Some(c) => c,
        None => return None,
    };
    if custom_has_script {
        return Some(custom);
    }
    let list = match builtins {
        Some(b) => b,
        None => return None,
    };
    match manifest_for_builtin(list, tool) {
        None => None,
        Some(m) => {
            if m.installed {
                let common = common_dir(steam_root);
                Some(path_join(common.as_str(), m.install_dir.as_str()))
            } else {
                None
            }
        },
    }
}

} // verus!
