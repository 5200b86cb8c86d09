//! The `proton runinprefix` command that runs an executable inside a prefix:
//! which program to start, with which arguments and Steam compatibility
//! environment, and how the command reads in the launch log.

use crate::launcher::LaunchError;
use crate::models::{script_in, Game, GameView};
use crate::paths::{
    ancestor, ancestor_of, component, components, components_of, has_cur_dir_prefix, joined,
    path_join, range_equals,
};
use crate::steam::locations::string_views;
use crate::text::{
    chars_of, decimal, join_strings, join_with, opt_view, push_decimal, push_str, string_from,
};
use vstd::prelude::*;

verus! {

/// The walk up from the path made of the first `k` components of `s`
/// (`Path::parent` repeatedly) looking for a `common` or
/// `compatibilitytools.d` directory: for `common`
/// (`<root>/steamapps/common/<tool>`) the root is two levels above it, for
/// `compatibilitytools.d` one level above; the walk stops without a root at
/// a `..` component or when no component is left.
pub open spec fn root_search(s: Seq<char>, k: int) -> Option<Seq<char>>
    decreases k,
{
    if k <= 0 {
        None
    } else {
        let name = component(s, k - 1);
        if name == seq!['.', '.'] {
            None
        } else if name == "common"@ {
            if k >= 2 {
                Some(ancestor(s, k - 2))
            } else if has_cur_dir_prefix(s) {
                Some(seq![])
            } else {
                None
            }
        } else if name == "compatibilitytools.d"@ {
            Some(ancestor(s, k - 1))
        } else {
            root_search(s, k - 1)
        }
    }
}

/// The Steam root that a Proton directory path lies under.
pub open spec fn root_from_proton_dir(proton_dir: Seq<char>) -> Option<Seq<char>> {
    root_search(proton_dir, components(proton_dir).len() as int)
}

/// Derive the Steam root from a Proton directory path.
///
/// - Built-in tools: `<steam_root>/steamapps/common/<name>` → the Steam root
///   is two directories above the `common` marker.
/// - Custom tools: `<steam_root>/compatibilitytools.d/<name>` → the Steam
///   root is the `compatibilitytools.d` directory's parent.
pub fn steam_root_from_proton_dir(proton_dir: &str) -> (res: Option<String>)
    ensures
        res matches Some(r) ==> root_from_proton_dir(proton_dir@) == Some(r@),
        res is None ==> root_from_proton_dir(proton_dir@) is None,
{
    let cs = chars_of(proton_dir);
    let comps = components_of(&cs);
    let common = chars_of("common");
    let tools = chars_of("compatibilitytools.d");
    let dotdot = ['.', '.'];
    let mut k = comps.len();
    while k > 0
        invariant
            cs@ == proton_dir@,
            comps@.len() == components(cs@).len(),
            forall|j: int|
                0 <= j < comps@.len() ==> (#[trigger] comps@[j]).0 as int == components(cs@)[j].0
                    && comps@[j].1 as int == components(cs@)[j].1,
            forall|j: int| 0 <= j < comps@.len() ==> (#[trigger] comps@[j]).0 <= comps@[j].1 <= cs@.len(),
            k <= comps@.len(),
            common@ == "common"@,
            tools@ == "compatibilitytools.d"@,
            dotdot@ == seq!['.', '.'],
            root_from_proton_dir(proton_dir@) == root_search(cs@, k as int),
        decreases k,
    {
        let (a, b) = comps[k - 1];
        assert(component(cs@, k - 1) == cs@.subrange(a as int, b as int));
        if range_equals(&cs, a, b, &dotdot) {
            return None;
        }
        if range_equals(&cs, a, b, &common) {
            if k >= 2 {
                return Some(ancestor_of(&cs, &comps, k - 2));
            }
            let n = cs.len();
            let cur = n > 0 && cs[0] == '.' && (n == 1 || cs[1] == '/');
            if cur {
                let e = String::new();
                return Some(e);
            }
            return None;
        }
        if range_equals(&cs, a, b, &tools) {
            return Some(ancestor_of(&cs, &comps, k - 1));
        }
        k = k - 1;
    }
    None
}

/// The default Steam root under a home directory: `<home>/.local/share/Steam`.
pub open spec fn home_steam_in(home: Seq<char>) -> Seq<char> {
    joined(home, ".local/share/Steam"@)
}

/// The default Steam root under `home` (the value of `$HOME`), whose
/// existence as a directory [`steam_root_for`] is told about.
pub fn home_steam_dir(home: &str) -> (res: String)
    ensures
        res@ == home_steam_in(home@),
        res@ == joined(home@, ".local/share/Steam"@),
{
    path_join(home, ".local/share/Steam")
}

/// The Steam root a game is launched with: the root derived from its Proton
/// directory; failing that, the default `~/.local/share/Steam` when it
/// exists (`home_steam_default`, `None` when `$HOME` is unset or that is not
/// a directory); failing that, the game's library.
pub open spec fn game_steam_root(game: crate::models::GameView, home_steam_default: Option<Seq<char>>) -> Seq<char> {
    match root_from_proton_dir(game.proton_dir) {
        Some(r) => r,
        None => match home_steam_default {
            Some(d) => d,
            None => game.library_path,
        },
    }
}

/// Resolve the Steam installation root for a game (see [`game_steam_root`]).
pub fn steam_root_for(game: &Game, home_steam_default: Option<&str>) -> (res: String)
    ensures
        res@ == game_steam_root(
            game@,
            match home_steam_default {
                Some(d) => Some(d@),
                None => None,
            },
        ),
{
    match steam_root_from_proton_dir(game.proton_dir.as_str()) {
        Some(r) => r,
        None => match home_steam_default {
            Some(d) => string_from(d),
            None => game.library_path.clone(),
        },
    }
}

/// The prefix (compatdata) directory of an app in a library:
/// `<library>/steamapps/compatdata/<app_id>`.
pub open spec fn compat_data_in(library: Seq<char>, app_id: u32) -> Seq<char> {
    joined(joined(joined(library, "steamapps"@), "compatdata"@), decimal(app_id as nat))
}

/// The compatdata (prefix) directory for an app, under the library it is
/// installed in.
pub fn compat_data_dir_for(library: &str, app_id: u32) -> (res: String)
    ensures
        res@ == compat_data_in(library@, app_id),
        res@ == joined(joined(joined(library@, "steamapps"@), "compatdata"@), decimal(app_id as nat)),
{
    let a = path_join(library, "steamapps");
    let b = path_join(a.as_str(), "compatdata");
    let mut id = String::new();
    push_decimal(&mut id, app_id as u64);
    assert(id@ =~= decimal(app_id as nat));
    path_join(b.as_str(), id.as_str())
}

/// The Steam compatibility environment of a launch: the prefix
/// (`STEAM_COMPAT_DATA_PATH`), the Steam root
/// (`STEAM_COMPAT_CLIENT_INSTALL_PATH`) and the app id (`SteamGameId`,
/// `SteamAppId`).
pub open spec fn steam_env_spec(compat_data: Seq<char>, root: Seq<char>, app_id: u32) -> Seq<
    (Seq<char>, Seq<char>),
> {
    seq![
        ("STEAM_COMPAT_DATA_PATH"@, compat_data),
        ("STEAM_COMPAT_CLIENT_INSTALL_PATH"@, root),
        ("SteamGameId"@, decimal(app_id as nat)),
        ("SteamAppId"@, decimal(app_id as nat)),
    ]
}

/// The views of a list of variable assignments.
pub open spec fn env_views(v: Seq<(String, String)>) -> Seq<(Seq<char>, Seq<char>)> {
    v.map_values(|p: (String, String)| (p.0@, p.1@))
}

/// The Steam compatibility environment variables for a launch (see
/// [`steam_env_spec`]).
pub fn steam_env(compat_data: &str, root: &str, app_id: u32) -> (res: Vec<(String, String)>)
    ensures
        env_views(res@) == steam_env_spec(compat_data@, root@, app_id),
{
    let mut id = String::new();
    push_decimal(&mut id, app_id as u64);
    assert(id@ =~= decimal(app_id as nat));
    let id2 = id.clone();
    let mut v: Vec<(String, String)> = Vec::new();
    v.push((string_from("STEAM_COMPAT_DATA_PATH"), string_from(compat_data)));
    v.push((string_from("STEAM_COMPAT_CLIENT_INSTALL_PATH"), string_from(root)));
    v.push((string_from("SteamGameId"), id));
    v.push((string_from("SteamAppId"), id2));
    assert(env_views(v@) =~= steam_env_spec(compat_data@, root@, app_id));
    v
}

/// The `flatpak-spawn` arguments that run the Proton script on the host:
/// `--host`, one `--env=NAME=VALUE` per Steam variable, then
/// `<proton> runinprefix <args...>`.
pub open spec fn flatpak_args_spec(
    proton: Seq<char>,
    args: Seq<Seq<char>>,
    compat_data: Seq<char>,
    root: Seq<char>,
    app_id: u32,
) -> Seq<Seq<char>> {
    let env = steam_env_spec(compat_data, root, app_id);
    seq!["--host"@] + env.map_values(|p: (Seq<char>, Seq<char>)| "--env="@ + p.0 + "="@ + p.1) + seq![
        proton,
        "runinprefix"@,
    ] + args
}

/// The `flatpak-spawn` argument list for a host launch (see
/// [`flatpak_args_spec`]).
pub fn flatpak_spawn_args(
    proton: &str,
    args: &Vec<String>,
    compat_data: &str,
    root: &str,
    app_id: u32,
) -> (res: Vec<String>)
    ensures
        string_views(res@) == flatpak_args_spec(proton@, string_views(args@), compat_data@, root@, app_id),
{
    let env = steam_env(compat_data, root, app_id);
    let mut out: Vec<String> = Vec::new();
    out.push(string_from("--host"));
    let ghost ev = env_views(env@);
    let mut i: usize = 0;
    while i < env.len()
        invariant
            i <= env@.len(),
            ev == env_views(env@),
            string_views(out@) == seq!["--host"@] + ev.take(i as int).map_values(
                |p: (Seq<char>, Seq<char>)| "--env="@ + p.0 + "="@ + p.1,
            ),
        decreases env@.len() - i,
    {
        let mut a = string_from("--env=");
        push_str(&mut a, env[i].0.as_str());
        push_str(&mut a, "=");
        push_str(&mut a, env[i].1.as_str());
        let ghost before = string_views(out@);
        let ghost av = a@;
        out.push(a);
        assert(string_views(out@) =~= before.push(av));
        assert(ev.take(i + 1) =~= ev.take(i as int).push(ev[i as int]));
        assert(string_views(out@) =~= seq!["--host"@] + ev.take(i + 1).map_values(
            |p: (Seq<char>, Seq<char>)| "--env="@ + p.0 + "="@ + p.1,
        ));
        i = i + 1;
    }
    assert(ev.take(env@.len() as int) =~= ev);
    out.push(string_from(proton));
    out.push(string_from("runinprefix"));
    let ghost mid = string_views(out@);
    let mut j: usize = 0;
    while j < args.len()
        invariant
            j <= args@.len(),
            string_views(out@) == mid + string_views(args@).take(j as int),
        decreases args@.len() - j,
    {
        let ghost before = string_views(out@);
        let x = args[j].clone();
        let ghost xv = x@;
        out.push(x);
        assert(string_views(out@) =~= before.push(xv));
        assert(string_views(args@).take(j + 1) =~= string_views(args@).take(j as int).push(xv));
        assert(string_views(out@) =~= mid + string_views(args@).take(j + 1));
        j = j + 1;
    }
    assert(string_views(args@).take(args@.len() as int) =~= string_views(args@));
    assert(string_views(out@) =~= flatpak_args_spec(proton@, string_views(args@), compat_data@, root@, app_id));
    out
}

/// A process to start for a launch: the program, its arguments, the
/// environment variables to set on it, and the command line shown in the
/// launch log.
#[derive(Debug)]
pub struct PrefixCommand {
    pub program: String,
    pub args: Vec<String>,
    pub env: Vec<(String, String)>,
    pub command_line: String,
}

/// The command line shown in the launch log:
/// `[flatpak-spawn --host ]<proton> runinprefix <args joined by spaces> (prefix: <compat_data>)`.
pub open spec fn command_line_spec(
    in_flatpak: bool,
    proton: Seq<char>,
    args: Seq<Seq<char>>,
    compat_data: Seq<char>,
) -> Seq<char> {
    let body = proton + " runinprefix "@ + join_with(args, " "@) + " (prefix: "@ + compat_data
        + ")"@;
    if in_flatpak {
        "flatpak-spawn --host "@ + body
    } else {
        body
    }
}

/// `c` runs `args` inside the prefix of `game`: the game's `proton` script
/// with `runinprefix` and `args`, with the Steam environment for the prefix
/// `<library>/steamapps/compatdata/<app_id>` and the Steam root `root`
/// (see [`game_steam_root`]) set on the process, or, inside a Flatpak sandbox,
/// passed to `flatpak-spawn --host` as arguments; with the command line that
/// the launch log shows.
pub open spec fn is_prefix_command(
    game: GameView,
    args: Seq<Seq<char>>,
    home_steam_default: Option<Seq<char>>,
    in_flatpak: bool,
    c: PrefixCommand,
) -> bool {
    let proton = script_in(game.proton_dir);
    let root = game_steam_root(game, home_steam_default);
    let compat = compat_data_in(game.library_path, game.app_id);
    &&& c.command_line@ == command_line_spec(in_flatpak, proton, args, compat)
    &&& in_flatpak ==> c.program@ == "flatpak-spawn"@ && string_views(c.args@) == flatpak_args_spec(
        proton,
        args,
        compat,
        root,
        game.app_id,
    ) && c.env@.len() == 0
    &&& !in_flatpak ==> c.program@ == proton && string_views(c.args@) == seq!["runinprefix"@]
        + args && env_views(c.env@) == steam_env_spec(compat, root, game.app_id)
}

/// `c` runs the game's `<proton_dir>/proton` script with `runinprefix`
/// followed by exactly `args`, with the four Steam variables naming the
/// prefix `<library>/steamapps/compatdata/<app_id>`, the Steam root and the
/// app id: set on the process for a direct launch, or passed as
/// `--env=NAME=VALUE` arguments after `--host` to `flatpak-spawn`, which is
/// then given the same script, `runinprefix` and `args`.
pub open spec fn runs_in_prefix(
    game: GameView,
    args: Seq<Seq<char>>,
    home_steam_default: Option<Seq<char>>,
    in_flatpak: bool,
    c: PrefixCommand,
) -> bool {
    let script = joined(game.proton_dir, "proton"@);
    let prefix = joined(
        joined(joined(game.library_path, "steamapps"@), "compatdata"@),
        decimal(game.app_id as nat),
    );
    let root = game_steam_root(game, home_steam_default);
    let id = decimal(game.app_id as nat);
    &&& in_flatpak ==> {
        &&& c.program@ == "flatpak-spawn"@
        &&& string_views(c.args@) == seq![
            "--host"@,
            "--env="@ + "STEAM_COMPAT_DATA_PATH"@ + "="@ + prefix,
            "--env="@ + "STEAM_COMPAT_CLIENT_INSTALL_PATH"@ + "="@ + root,
            "--env="@ + "SteamGameId"@ + "="@ + id,
            "--env="@ + "SteamAppId"@ + "="@ + id,
            script,
            "runinprefix"@,
        ] + args
        &&& c.env@.len() == 0
    }
    &&& !in_flatpak ==> {
        &&& c.program@ == script
        &&& string_views(c.args@) == seq!["runinprefix"@] + args
        &&& env_views(c.env@) == seq![
            ("STEAM_COMPAT_DATA_PATH"@, prefix),
            ("STEAM_COMPAT_CLIENT_INSTALL_PATH"@, root),
            ("SteamGameId"@, id),
            ("SteamAppId"@, id),
        ]
    }
}

/// A prefix command for `args` runs the game's `proton` script with
/// `runinprefix` and exactly `args` (the requested executable or tool), in
/// the game's prefix, whether launched directly or through `flatpak-spawn`.
pub proof fn lemma_prefix_command_runs_args(
    game: GameView,
    args: Seq<Seq<char>>,
    home_steam_default: Option<Seq<char>>,
    in_flatpak: bool,
    c: PrefixCommand,
)
    requires
        is_prefix_command(game, args, home_steam_default, in_flatpak, c),
    ensures
        runs_in_prefix(game, args, home_steam_default, in_flatpak, c),
{
    let prefix = compat_data_in(game.library_path, game.app_id);
    let root = game_steam_root(game, home_steam_default);
    let env = steam_env_spec(prefix, root, game.app_id);
    if in_flatpak {
        let f = |p: (Seq<char>, Seq<char>)| "--env="@ + p.0 + "="@ + p.1;
        assert(env.map_values(f) =~= seq![f(env[0]), f(env[1]), f(env[2]), f(env[3])]);
        assert(string_views(c.args@) =~= seq![
            "--host"@,
            "--env="@ + "STEAM_COMPAT_DATA_PATH"@ + "="@ + prefix,
            "--env="@ + "STEAM_COMPAT_CLIENT_INSTALL_PATH"@ + "="@ + root,
            "--env="@ + "SteamGameId"@ + "="@ + decimal(game.app_id as nat),
            "--env="@ + "SteamAppId"@ + "="@ + decimal(game.app_id as nat),
            joined(game.proton_dir, "proton"@),
            "runinprefix"@,
        ] + args);
    }
}

/// The command for running `args` inside `game`'s prefix.
///
/// `script_is_file` tells whether the game's `proton` script (see
/// `Game::proton_script_path`) exists; without it the launch fails with
/// `NoProtonDir`. `home_steam_default` is the default Steam root when it
/// exists (see [`steam_root_for`]); `in_flatpak` whether the launcher runs
/// inside a Flatpak sandbox, where the script must run on the host through
/// `flatpak-spawn --host` with the Steam environment passed as arguments.
/// Otherwise the script is run directly with `runinprefix` and the
/// environment set on the process. The prefix is the game's library's
/// `steamapps/compatdata/<app_id>`.
pub fn prefix_command(
    game: &Game,
    args: &Vec<String>,
    script_is_file: bool,
    home_steam_default: Option<&str>,
    in_flatpak: bool,
) -> (res: Result<PrefixCommand, LaunchError>)
    ensures
        res is Err <==> !(game.proton_dir@.len() > 0 && script_is_file),
        res matches Err(e) ==> e is NoProtonDir,
        res matches Ok(c) ==> is_prefix_command(
            game@,
            string_views(args@),
            opt_view(home_steam_default),
            in_flatpak,
            c,
        ),
        res matches Ok(c) ==> runs_in_prefix(
            game@,
            string_views(args@),
            opt_view(home_steam_default),
            in_flatpak,
            c,
        ),
{
    let proton = match game.proton_script(script_is_file) {
        Some(p) => p,
        None => return Err(LaunchError::NoProtonDir),
    };
    let root = steam_root_for(game, home_steam_default);
    let compat = compat_data_dir_for(game.library_path.as_str(), game.app_id);
    let joined_args = join_strings(args, " ");
    let mut line = String::new();
    if in_flatpak {
        push_str(&mut line, "flatpak-spawn --host ");
    }
    push_str(&mut line, proton.as_str());
    push_str(&mut line, " runinprefix ");
    push_str(&mut line, joined_args.as_str());
    push_str(&mut line, " (prefix: ");
    push_str(&mut line, compat.as_str());
    push_str(&mut line, ")");
    assert(line@ =~= command_line_spec(in_flatpak, proton@, string_views(args@), compat@));
    if in_flatpak {
        let fargs = flatpak_spawn_args(proton.as_str(), args, compat.as_str(), root.as_str(), game.app_id);
        let c = PrefixCommand {
            program: string_from("flatpak-spawn"),
            args: fargs,
            env: Vec::new(),
            command_line: line,
        };
        proof {
            lemma_prefix_command_runs_args(
                game@,
                string_views(args@),
                opt_view(home_steam_default),
                in_flatpak,
                c,
            );
        }
        Ok(c)
    } else {
        let mut dargs: Vec<String> = Vec::new();
        dargs.push(string_from("runinprefix"));
        let mut j: usize = 0;
        while j < args.len()
            invariant
                j <= args@.len(),
                string_views(dargs@) == seq!["runinprefix"@] + string_views(args@).take(j as int),
            decreases args@.len() - j,
        {
            let ghost before = string_views(dargs@);
            let x = args[j].clone();
            let ghost xv = x@;
            dargs.push(x);
            assert(string_views(dargs@) =~= before.push(xv));
            assert(string_views(args@).take(j + 1) =~= string_views(args@).take(j as int).push(xv));
            assert(string_views(dargs@) =~= seq!["runinprefix"@] + string_views(args@).take(j + 1));
            j = j + 1;
        }
        assert(string_views(args@).take(args@.len() as int) =~= string_views(args@));
        let env = steam_env(compat.as_str(), root.as_str(), game.app_id);
        let c = PrefixCommand { program: proton, args: dargs, env, command_line: line };
        proof {
            lemma_prefix_command_runs_args(
                game@,
                string_views(args@),
                opt_view(home_steam_default),
                in_flatpak,
                c,
            );
        }
        Ok(c)
    }
}

} // verus!
