//! Steam discovery: locate the Steam installation, its library folders,
//! installed apps, and the compatibility tool each app runs with.

pub mod compat;
pub mod compatdata;
pub mod libraryfolders;
pub mod locations;
pub mod manifest;

use crate::models::{Game, GameView};
use crate::order::{goes_before, is_stable_order, key_views, lex_lt, permuted, stable_sort};
use crate::paths::{joined, path_join};
use crate::steam::compat::{
    compat_tool_for_app, proton_dir_for_tool, tool_dir, tool_for_app, BuiltinManifest,
};
use crate::steam::compatdata::{prefix_proton_dir, proton_dir_for};
use crate::steam::locations::string_views;
use crate::steam::manifest::InstalledApp;
use crate::text::{chars_of, lowercase_of, push_str, to_lowercase};
use vstd::prelude::*;

verus! {

/// Error type for Steam discovery failures.
#[derive(Debug)]
pub enum SteamError {
    /// An I/O failure; carries the system's description of it.
    Io(String),
    /// A file could not be parsed; carries a description.
    Parse(String),
    /// Steam could not be located (none of the known install paths exist).
    SteamNotFound,
}

/// The human-readable description of a discovery error.
pub open spec fn steam_error_text(e: SteamError) -> Seq<char> {
    match e {
        SteamError::Io(m) => "I/O error: "@ + m@,
        SteamError::Parse(m) => "parse error: "@ + m@,
        SteamError::SteamNotFound => "Steam installation not found"@,
    }
}

impl SteamError {
    /// The human-readable description of the error (its `Display` text).
    pub fn message(&self) -> (res: String)
        ensures
            res@ == steam_error_text(*self),
            *self matches SteamError::Io(m) ==> res@ == "I/O error: "@ + m@,
            *self matches SteamError::Parse(m) ==> res@ == "parse error: "@ + m@,
            *self is SteamNotFound ==> res@ == "Steam installation not found"@,
    {
        let mut out = String::new();
        match self {
            SteamError::Io(m) => {
                push_str(&mut out, "I/O error: ");
                push_str(&mut out, m.as_str());
            },
            SteamError::Parse(m) => {
                push_str(&mut out, "parse error: ");
                push_str(&mut out, m.as_str());
            },
            SteamError::SteamNotFound => {
                push_str(&mut out, "Steam installation not found");
            },
        }
        out
    }
}


/// Steam App ID of "Steamworks Common Redistributables", a shared non-game
/// payload.
pub const STEAMWORKS_COMMON_REDISTRIBUTABLES_APPID: u32 = 228980;

/// Whether an install directory belongs to a Proton compatibility tool or a
/// Steam runtime rather than a game: it holds a `toolmanifest.vdf` (Proton,
/// runtimes) or a `compatibilitytool.vdf` (custom tools such as GE-Proton).
/// The arguments tell whether those two files exist (see
/// [`compat_tool_markers`]).
pub fn is_compat_tool(toolmanifest_is_file: bool, compatibilitytool_is_file: bool) -> (res: bool)
    ensures
        res == (toolmanifest_is_file || compatibilitytool_is_file),
{
    toolmanifest_is_file || compatibilitytool_is_file
}

/// The two files whose existence marks an install directory as a
/// compatibility tool: `<dir>/toolmanifest.vdf` and
/// `<dir>/compatibilitytool.vdf`.
pub fn compat_tool_markers(install_dir: &str) -> (res: (String, String))
    ensures
        res.0@ == joined(install_dir@, "toolmanifest.vdf"@),
        res.1@ == joined(install_dir@, "compatibilitytool.vdf"@),
{
    (path_join(install_dir, "toolmanifest.vdf"), path_join(install_dir, "compatibilitytool.vdf"))
}

/// The file whose existence makes the Steam root usable as the default
/// library: `<steam_root>/steamapps/libraryfolders.vdf`.
pub open spec fn fallback_marker_in(steam_root: Seq<char>) -> Seq<char> {
    joined(joined(steam_root, "steamapps"@), "libraryfolders.vdf"@)
}

/// The path of the file [`default_library_fallback`] is told about.
pub fn fallback_marker(steam_root: &str) -> (res: String)
    ensures
        res@ == fallback_marker_in(steam_root@),
        res@ == joined(joined(steam_root@, "steamapps"@), "libraryfolders.vdf"@),
{
    let a = path_join(steam_root, "steamapps");
    path_join(a.as_str(), "libraryfolders.vdf")
}

/// The fallback library list used when `libraryfolders.vdf` is missing or
/// yields no folders: the Steam root itself (the default library, not its
/// `steamapps` directory), provided `<root>/steamapps/libraryfolders.vdf`
/// exists (`marker_is_file`); empty otherwise.
pub fn default_library_fallback(steam_root: &str, marker_is_file: bool) -> (res: Vec<String>)
    ensures
        marker_is_file ==> string_views(res@) == seq![steam_root@],
        !marker_is_file ==> res@.len() == 0,
{
    let mut out: Vec<String> = Vec::new();
    if marker_is_file {
        let mut r = String::new();
        push_str(&mut r, steam_root);
        out.push(r);
        assert(string_views(out@) =~= seq![steam_root@]);
    }
    out
}

/// The libraries to scan: those `libraryfolders.vdf` lists when it could be
/// read and lists at least one, otherwise the fallback.
pub fn libraries_to_scan(listed: Result<Vec<String>, SteamError>, fallback: Vec<String>) -> (res: Vec<String>)
    ensures
        (listed matches Ok(l) && l@.len() > 0) ==> res@ == listed->Ok_0@,
        !(listed matches Ok(l) && l@.len() > 0) ==> res@ == fallback@,
{
    match listed {
        Ok(l) => if l.len() > 0 {
            l
        } else {
            fallback
        },
        Err(_) => fallback,
    }
}

/// The install directory of an app in a library:
/// `<library>/steamapps/common/<install_dir>`.
pub open spec fn install_path_in(library: Seq<char>, install_dir: Seq<char>) -> Seq<char> {
    joined(joined(joined(library, "steamapps"@), "common"@), install_dir)
}

/// The install directory of an app in a library, whose existence (and
/// markers, see [`compat_tool_markers`]) discovery is told about.
pub fn app_install_path(library: &str, install_dir: &str) -> (res: String)
    ensures
        res@ == install_path_in(library@, install_dir@),
        res@ == joined(joined(joined(library@, "steamapps"@), "common"@), install_dir@),
{
    let a = path_join(library, "steamapps");
    let b = path_join(a.as_str(), "common");
    path_join(b.as_str(), install_dir)
}

/// What the file system says about one installed app during discovery.
#[derive(Debug)]
pub struct AppScan {
    /// The app as its manifest describes it.
    pub app: InstalledApp,
    /// Whether [`app_install_path`] is an existing directory.
    pub install_dir_exists: bool,
    /// Whether that directory is a compatibility tool (see [`is_compat_tool`]).
    pub is_compat_tool: bool,
    /// Whether the custom tool directory of the compatibility tool that the
    /// mapping selects for this app (`compat::custom_tool_dir` of
    /// `compat::compat_tool_for_app`) holds a `proton` script.
    pub custom_tool_has_script: bool,
    /// The text of the app's prefix `config_info` (see
    /// `compatdata::config_info_path`), when it exists and can be read.
    pub config_info: Option<String>,
    /// For each tool directory that `config_info` names (see
    /// `compatdata::prefix_tool_candidates`), whether it is an existing
    /// directory.
    pub prefix_candidate_is_dir: Vec<bool>,
}

/// One scanned library: its path and its apps, or the error met while
/// listing its manifests.
#[derive(Debug)]
pub struct LibraryScan {
    pub path: String,
    pub apps: Result<Vec<AppScan>, SteamError>,
}

/// The plain value of a list of built-in tool manifests.
pub open spec fn builtins_view(builtins: Option<&Vec<BuiltinManifest>>) -> Option<Seq<BuiltinManifest>> {
    match builtins {
        Some(b) => Some(b@),
        None => None,
    }
}

/// The Proton directory of a discovered game: the directory of the
/// compatibility tool the mapping selects for it (see `compat::tool_dir`),
/// else the one its prefix records (see `compatdata::prefix_proton_dir`),
/// else empty.
pub open spec fn game_proton_dir(
    steam_root: Seq<char>,
    s: AppScan,
    map: Seq<(String, String)>,
    builtins: Option<Seq<BuiltinManifest>>,
) -> Seq<char> {
    match tool_dir(steam_root, tool_for_app(map, s.app.app_id), s.custom_tool_has_script, builtins) {
        Some(d) => d,
        None => match prefix_proton_dir(
            match s.config_info {
                Some(t) => Some(t@),
                None => None,
            },
            s.prefix_candidate_is_dir@,
        ) {
            Some(p) => p,
            None => seq![],
        },
    }
}

/// The game an app contributes to discovery, if it is one: apps without an
/// install directory, whose install directory does not exist, that are
/// compatibility tools or runtimes, or that are the Steamworks Common
/// Redistributables are left out. The compatibility tool comes from the
/// mapping, the Proton directory from [`game_proton_dir`].
pub open spec fn app_game(
    steam_root: Seq<char>,
    library: Seq<char>,
    s: AppScan,
    map: Seq<(String, String)>,
    builtins: Option<Seq<BuiltinManifest>>,
) -> Option<GameView> {
    if s.app.install_dir is None || !s.install_dir_exists || s.is_compat_tool || s.app.app_id
        == STEAMWORKS_COMMON_REDISTRIBUTABLES_APPID {
        None
    } else {
        Some(
            GameView {
                name: s.app.name@,
                app_id: s.app.app_id,
                compat_tool: tool_for_app(map, s.app.app_id),
                library_path: library,
                proton_dir: game_proton_dir(steam_root, s, map, builtins),
            },
        )
    }
}

/// The games contributed by the apps `apps` of one library, in order.
pub open spec fn apps_games(
    steam_root: Seq<char>,
    library: Seq<char>,
    apps: Seq<AppScan>,
    map: Seq<(String, String)>,
    builtins: Option<Seq<BuiltinManifest>>,
) -> Seq<GameView>
    decreases apps.len(),
{
    if apps.len() == 0 {
        seq![]
    } else {
        let rest = apps_games(steam_root, library, apps.drop_last(), map, builtins);
        match app_game(steam_root, library, apps.last(), map, builtins) {
            Some(g) => rest.push(g),
            None => rest,
        }
    }
}

/// The games contributed by the libraries `libs`, library by library (a
/// library whose manifests could not be listed contributes none).
pub open spec fn libraries_games(
    steam_root: Seq<char>,
    libs: Seq<LibraryScan>,
    map: Seq<(String, String)>,
    builtins: Option<Seq<BuiltinManifest>>,
) -> Seq<GameView>
    decreases libs.len(),
{
    if libs.len() == 0 {
        seq![]
    } else {
        let rest = libraries_games(steam_root, libs.drop_last(), map, builtins);
        match libs.last().apps {
            Ok(apps) => rest + apps_games(steam_root, libs.last().path@, apps@, map, builtins),
            Err(_) => rest,
        }
    }
}

/// The order key of a game in the discovered list: its lowercased name
/// (each character plus one, then a `0` terminator), then its app id; so
/// games are ordered by lowercased name, then by app id.
pub open spec fn game_order_key(g: GameView) -> Seq<u32> {
    lowercase_of(g.name).map_values(|c: char| (c as u32 + 1) as u32) + seq![0u32, g.app_id]
}

/// The order keys of a sequence of games.
pub open spec fn game_order_keys(gs: Seq<GameView>) -> Seq<Seq<u32>> {
    gs.map_values(|g: GameView| game_order_key(g))
}

/// The views of a sequence of games.
pub open spec fn game_views(gs: Seq<Game>) -> Seq<GameView> {
    gs.map_values(|g: Game| g@)
}

/// The compatibility tool map discovery uses: the one read from
/// `config.vdf`, or an empty one when it could not be read (a corrupt
/// `config.vdf` only hides the per-game tool names).
pub open spec fn effective_map(compat_tools: Result<Vec<(String, String)>, SteamError>) -> Seq<
    (String, String),
> {
    match compat_tools {
        Ok(m) => m@,
        Err(_) => seq![],
    }
}

/// The key of `g` (see [`game_order_key`]).
pub fn game_key(g: &Game) -> (res: Vec<u32>)
    ensures
        res@ == game_order_key(g@),
{
    let lower = to_lowercase(g.name.as_str());
    let cs = chars_of(lower.as_str());
    let mut out: Vec<u32> = Vec::new();
    let mut i: usize = 0;
    while i < cs.len()
        invariant
            i <= cs@.len(),
            cs@ == lowercase_of(g.name@),
            out@ == cs@.take(i as int).map_values(|c: char| (c as u32 + 1) as u32),
        decreases cs@.len() - i,
    {
        proof {
            vstd::utf8::char_is_scalar(cs@[i as int]);
        }
        let v = cs[i] as u32 + 1;
        out.push(v);
        i = i + 1;
        assert(cs@.take(i as int).map_values(|c: char| (c as u32 + 1) as u32) =~= cs@.take(i - 1).map_values(
            |c: char| (c as u32 + 1) as u32,
        ).push(v));
    }
    out.push(0);
    out.push(g.app_id);
    assert(cs@.take(cs@.len() as int) =~= cs@);
    assert(out@ =~= game_order_key(g@));
    out
}

/// The code points of a text.
pub open spec fn char_codes(s: Seq<char>) -> Seq<u32> {
    s.map_values(|c: char| c as u32)
}

/// Game `a` may come before game `b` in the discovered list: its lowercased
/// name comes first in text order, or the lowercased names are equal and its
/// app id is not larger.
pub open spec fn name_then_id_le(a: GameView, b: GameView) -> bool {
    lex_lt(char_codes(lowercase_of(a.name)), char_codes(lowercase_of(b.name))) || (lowercase_of(
        a.name,
    ) == lowercase_of(b.name) && a.app_id <= b.app_id)
}

proof fn lemma_name_key(a: Seq<char>, x: u32, b: Seq<char>, y: u32)
    requires
        ({
            let ka = a.map_values(|c: char| (c as u32 + 1) as u32) + seq![0u32, x];
            let kb = b.map_values(|c: char| (c as u32 + 1) as u32) + seq![0u32, y];
            lex_lt(ka, kb) || ka == kb
        }),
    ensures
        lex_lt(char_codes(a), char_codes(b)) || (a == b && x <= y),
    decreases a.len(),
{
    let ka = a.map_values(|c: char| (c as u32 + 1) as u32) + seq![0u32, x];
    let kb = b.map_values(|c: char| (c as u32 + 1) as u32) + seq![0u32, y];
    if a.len() == 0 && b.len() == 0 {
        assert(ka =~= seq![0u32, x]);
        assert(kb =~= seq![0u32, y]);
        assert(ka.drop_first() =~= seq![x]);
        assert(kb.drop_first() =~= seq![y]);
        assert(seq![x].drop_first() =~= Seq::<u32>::empty());
        assert(seq![y].drop_first() =~= Seq::<u32>::empty());
        assert(!lex_lt(Seq::<u32>::empty(), Seq::<u32>::empty()));
        assert(lex_lt(seq![x], seq![y]) ==> x < y);
        assert(lex_lt(ka, kb) == lex_lt(ka.drop_first(), kb.drop_first()));
        assert(a =~= b);
    } else if a.len() == 0 {
        assert(char_codes(a).len() == 0);
        assert(char_codes(b).len() > 0);
        assert(lex_lt(char_codes(a), char_codes(b)));
    } else if b.len() == 0 {
        vstd::utf8::char_is_scalar(a[0]);
        assert(ka[0] == (a[0] as u32 + 1) as u32);
        assert(kb[0] == 0);
        assert(ka[0] != kb[0]);
        assert(!lex_lt(ka, kb));
    } else {
        vstd::utf8::char_is_scalar(a[0]);
        vstd::utf8::char_is_scalar(b[0]);
        assert(ka[0] == (a[0] as u32 + 1) as u32);
        assert(kb[0] == (b[0] as u32 + 1) as u32);
        assert(char_codes(a)[0] == a[0] as u32);
        assert(char_codes(b)[0] == b[0] as u32);
        if a[0] == b[0] {
            let (a1, b1) = (a.drop_first(), b.drop_first());
            assert(ka.drop_first() =~= a1.map_values(|c: char| (c as u32 + 1) as u32) + seq![0u32, x]);
            assert(kb.drop_first() =~= b1.map_values(|c: char| (c as u32 + 1) as u32) + seq![0u32, y]);
            if ka == kb {
                assert(ka.drop_first() == kb.drop_first());
            }
            lemma_name_key(a1, x, b1, y);
            assert(char_codes(a).drop_first() =~= char_codes(a1));
            assert(char_codes(b).drop_first() =~= char_codes(b1));
            if a1 == b1 {
                assert(a =~= seq![a[0]] + a1);
                assert(b =~= seq![b[0]] + b1);
            }
            assert(lex_lt(ka, kb) == lex_lt(ka.drop_first(), kb.drop_first()));
            assert(lex_lt(char_codes(a), char_codes(b)) == lex_lt(
                char_codes(a).drop_first(),
                char_codes(b).drop_first(),
            ));
        } else {
            assert((a[0] as u32) != (b[0] as u32)) by {
                vstd::utf8::char_u32_cast(a[0], a[0] as u32);
                vstd::utf8::char_u32_cast(b[0], b[0] as u32);
            }
        }
    }
}

/// A sort by [`game_order_key`] puts games in lowercased-name order, then
/// app id order.
pub proof fn lemma_game_order(gs: Seq<GameView>, perm: Seq<int>)
    requires
        is_stable_order(game_order_keys(gs), false, perm),
    ensures
        forall|i: int, j: int|
            0 <= i < j < perm.len() ==> name_then_id_le(
                #[trigger] permuted(gs, perm)[i],
                #[trigger] permuted(gs, perm)[j],
            ),
{
    let keys = game_order_keys(gs);
    let v = permuted(gs, perm);
    assert forall|i: int, j: int| 0 <= i < j < perm.len() implies name_then_id_le(
        #[trigger] v[i],
        #[trigger] v[j],
    ) by {
        assert(goes_before(keys, false, perm[i], perm[j]));
        assert(keys[perm[i]] == game_order_key(v[i]));
        assert(keys[perm[j]] == game_order_key(v[j]));
        lemma_name_key(lowercase_of(v[i].name), v[i].app_id, lowercase_of(v[j].name), v[j].app_id);
    }
}

/// Sorts games by lowercased name, then app id (a stable sort).
pub fn sort_games(games: Vec<Game>) -> (res: Vec<Game>)
    ensures
        forall|i: int, j: int|
            0 <= i < j < res@.len() ==> name_then_id_le((#[trigger] res@[i])@, (#[trigger] res@[j])@),
        exists|perm: Seq<int>|
            #[trigger] is_stable_order(game_order_keys(game_views(games@)), false, perm) && game_views(res@)
                == permuted(game_views(games@), perm),
{
    let mut keys: Vec<Vec<u32>> = Vec::new();
    let mut i: usize = 0;
    while i < games.len()
        invariant
            i <= games@.len(),
            keys@.len() == i,
            forall|k: int| 0 <= k < i ==> (#[trigger] keys@[k])@ == game_order_key(games@[k]@),
        decreases games@.len() - i,
    {
        keys.push(game_key(&games[i]));
        i = i + 1;
    }
    let ghost g0 = games@;
    assert(key_views(keys@) =~= game_order_keys(game_views(g0)));
    let (sorted, perm) = stable_sort(games, &keys, false);
    assert(game_views(sorted@) =~= permuted(game_views(g0), perm@));
    proof {
        lemma_game_order(game_views(g0), perm@);
        assert forall|i: int, j: int| 0 <= i < j < sorted@.len() implies name_then_id_le(
            (#[trigger] sorted@[i])@,
            (#[trigger] sorted@[j])@,
        ) by {
            assert(game_views(sorted@)[i] == sorted@[i]@);
            assert(game_views(sorted@)[j] == sorted@[j]@);
        }
    }
    sorted
}

proof fn lemma_apps_games_not_redist(
    steam_root: Seq<char>,
    library: Seq<char>,
    apps: Seq<AppScan>,
    map: Seq<(String, String)>,
    builtins: Option<Seq<BuiltinManifest>>,
)
    ensures
        forall|k: int|
            0 <= k < apps_games(steam_root, library, apps, map, builtins).len() ==> (#[trigger] apps_games(
                steam_root,
                library,
                apps,
                map,
                builtins,
            )[k]).app_id != 228980u32,
    decreases apps.len(),
{
    if apps.len() > 0 {
        lemma_apps_games_not_redist(steam_root, library, apps.drop_last(), map, builtins);
        let rest = apps_games(steam_root, library, apps.drop_last(), map, builtins);
        let all = apps_games(steam_root, library, apps, map, builtins);
        match app_game(steam_root, library, apps.last(), map, builtins) {
            Some(g) => {
                assert(g.app_id == apps.last().app.app_id);
                assert(g.app_id != 228980u32);
                assert(all == rest.push(g));
                assert forall|k: int| 0 <= k < all.len() implies (#[trigger] all[k]).app_id
                    != 228980u32 by {
                    if k < rest.len() {
                        assert(all[k] == rest[k]);
                    }
                }
            },
            None => {
                assert(all == rest);
            },
        }
    }
}

proof fn lemma_libraries_games_not_redist(
    steam_root: Seq<char>,
    libs: Seq<LibraryScan>,
    map: Seq<(String, String)>,
    builtins: Option<Seq<BuiltinManifest>>,
)
    ensures
        forall|k: int|
            0 <= k < libraries_games(steam_root, libs, map, builtins).len() ==> (
            #[trigger] libraries_games(steam_root, libs, map, builtins)[k]).app_id != 228980u32,
    decreases libs.len(),
{
    if libs.len() > 0 {
        lemma_libraries_games_not_redist(steam_root, libs.drop_last(), map, builtins);
        match libs.last().apps {
            Ok(apps) => {
                lemma_apps_games_not_redist(steam_root, libs.last().path@, apps@, map, builtins);
                let rest = libraries_games(steam_root, libs.drop_last(), map, builtins);
                let more = apps_games(steam_root, libs.last().path@, apps@, map, builtins);
                assert forall|k: int| 0 <= k < (rest + more).len() implies (#[trigger] (rest
                    + more)[k]).app_id != 228980u32 by {
                    if k >= rest.len() {
                        assert((rest + more)[k] == more[k - rest.len()]);
                    }
                }
            },
            Err(_) => {},
        }
    }
}

/// Discover the installed Steam games across all scanned library folders.
///
/// `steam_root` is the located Steam root (`None` when Steam could not be
/// found, which is the error `SteamNotFound`), `compat_tools` the result of
/// reading `config.vdf` (see `compat::compat_tool_map`), `builtins` the
/// built-in tool manifests of `<steam_root>/steamapps` (see
/// `compat::proton_dir_for_tool`), and `libraries` what the file system says
/// about each library to scan (see [`libraries_to_scan`]). The games (see
/// [`app_game`]) are ordered by lowercased name, then app id.
pub fn discover_games(
    steam_root: Option<&str>,
    compat_tools: Result<Vec<(String, String)>, SteamError>,
    builtins: Option<&Vec<BuiltinManifest>>,
    libraries: Vec<LibraryScan>,
) -> (res: Result<Vec<Game>, SteamError>)
    ensures
        steam_root is None ==> res matches Err(SteamError::SteamNotFound),
        steam_root is Some ==> res is Ok,
        res matches Ok(v) ==> exists|perm: Seq<int>|
            #[trigger] is_stable_order(
                game_order_keys(
                    libraries_games(
                        steam_root.unwrap()@,
                        libraries@,
                        effective_map(compat_tools),
                        builtins_view(builtins),
                    ),
                ),
                false,
                perm,
            ) && game_views(v@) == permuted(
                libraries_games(
                    steam_root.unwrap()@,
                    libraries@,
                    effective_map(compat_tools),
                    builtins_view(builtins),
                ),
                perm,
            ),
        res matches Ok(v) ==> forall|k: int| 0 <= k < v@.len() ==> (#[trigger] v@[k]).app_id != 228980u32,
        res matches Ok(v) ==> forall|i: int, j: int|
            0 <= i < j < v@.len() ==> name_then_id_le((#[trigger] v@[i])@, (#[trigger] v@[j])@),
{
    let root = match steam_root {
        Some(r) => r,
        None => return Err(SteamError::SteamNotFound),
    };
    let map: Vec<(String, String)> = match compat_tools {
        Ok(m) => m,
        Err(_) => Vec::new(),
    };
    let ghost mv = map@;
    let ghost bv = builtins_view(builtins);
    assert(mv == effective_map(compat_tools));
    let mut games: Vec<Game> = Vec::new();
    let mut li: usize = 0;
    while li < libraries.len()
        invariant
            li <= libraries@.len(),
            map@ == mv,
            bv == builtins_view(builtins),
            game_views(games@) == libraries_games(root@, libraries@.take(li as int), mv, bv),
        decreases libraries@.len() - li,
    {
        let lib = &libraries[li];
        assert(libraries@.take(li + 1).drop_last() =~= libraries@.take(li as int));
        assert(libraries@.take(li + 1).last() == libraries@[li as int]);
        match &lib.apps {
            Ok(apps) => {
                let ghost start = game_views(games@);
                let mut ai: usize = 0;
                while ai < apps.len()
                    invariant
                        ai <= apps@.len(),
                        map@ == mv,
                        bv == builtins_view(builtins),
                        game_views(games@) == start + apps_games(
                            root@,
                            lib.path@,
                            apps@.take(ai as int),
                            mv,
                            bv,
                        ),
                    decreases apps@.len() - ai,
                {
                    let s = &apps[ai];
                    assert(apps@.take(ai + 1).drop_last() =~= apps@.take(ai as int));
                    assert(apps@.take(ai + 1).last() == apps@[ai as int]);
                    let ghost before = game_views(games@);
                    let keep = match &s.app.install_dir {
                        Some(_) => s.install_dir_exists && !s.is_compat_tool && s.app.app_id
                            != STEAMWORKS_COMMON_REDISTRIBUTABLES_APPID,
                        None => false,
                    };
                    if keep {
                        let compat_tool = compat_tool_for_app(&map, s.app.app_id);
                        let proton_dir = match proton_dir_for_tool(
                            root,
                            compat_tool.as_str(),
                            s.custom_tool_has_script,
                            builtins,
                        ) {
                            Some(d) => d,
                            None => {
                                let recorded = match &s.config_info {
                                    Some(t) => proton_dir_for(
                                        Some(t.as_str()),
                                        &s.prefix_candidate_is_dir,
                                    ),
                                    None => proton_dir_for(None, &s.prefix_candidate_is_dir),
                                };
                                match recorded {
                                    Some(p) => p,
                                    None => String::new(),
                                }
                            },
                        };
                        assert(proton_dir@ == game_proton_dir(root@, *s, mv, bv));
                        let g = Game {
                            name: s.app.name.clone(),
                            app_id: s.app.app_id,
                            compat_tool,
                            library_path: lib.path.clone(),
                            proton_dir,
                        };
                        games.push(g);
                        assert(game_views(games@) =~= before.push(g@));
                    }
                    assert(game_views(games@) =~= start + apps_games(
                        root@,
                        lib.path@,
                        apps@.take(ai + 1),
                        mv,
                        bv,
                    ));
                    ai = ai + 1;
                }
                assert(apps@.take(apps@.len() as int) =~= apps@);
            },
            Err(_) => {},
        }
        li = li + 1;
    }
    assert(libraries@.take(libraries@.len() as int) =~= libraries@);
    let ghost all = game_views(games@);
    let sorted = sort_games(games);
    proof {
        lemma_libraries_games_not_redist(root@, libraries@, mv, bv);
        assert(all == libraries_games(root@, libraries@, mv, bv));
        assert(exists|perm: Seq<int>|
            #[trigger] is_stable_order(game_order_keys(all), false, perm) && game_views(sorted@)
                == permuted(all, perm));
        let perm = choose|perm: Seq<int>|
            #[trigger] is_stable_order(game_order_keys(all), false, perm) && game_views(sorted@)
                == permuted(all, perm);
        assert forall|k: int| 0 <= k < sorted@.len() implies (#[trigger] sorted@[k]).app_id
            != 228980u32 by {
            assert(game_views(sorted@)[k] == sorted@[k]@);
            assert(game_order_keys(all).len() == all.len());
            assert(0 <= perm[k] < all.len());
            assert(all[perm[k]].app_id != 228980u32);
        }
    }
    Ok(sorted)
}

} // verus!
