use protonctx::launcher::proton::{
    compat_data_dir_for, flatpak_spawn_args, home_steam_dir, prefix_command, steam_env,
    steam_root_for, steam_root_from_proton_dir,
};
use protonctx::launcher::tools::builtin_tools;
use protonctx::launcher::LaunchError;
use protonctx::models::Game;

fn game(proton_dir: &str, library: &str) -> Game {
    Game {
        name: "Broforce".to_string(),
        app_id: 274190,
        compat_tool: String::new(),
        library_path: library.to_string(),
        proton_dir: proton_dir.to_string(),
    }
}

#[test]
fn derives_root_from_builtin_proton() {
    let root = steam_root_from_proton_dir(
        "/home/u/.local/share/Steam/steamapps/common/Proton - Experimental",
    );
    assert_eq!(root, Some("/home/u/.local/share/Steam".to_string()));
}

#[test]
fn derives_root_from_custom_proton() {
    let root =
        steam_root_from_proton_dir("/home/u/.local/share/Steam/compatibilitytools.d/GE-Proton10-34");
    assert_eq!(root, Some("/home/u/.local/share/Steam".to_string()));
}

#[test]
fn none_when_no_marker_dir() {
    assert!(steam_root_from_proton_dir("/some/random/path").is_none());
}

#[test]
fn root_derivation_edge_cases() {
    // The innermost marker (nearest the end) decides.
    assert_eq!(
        steam_root_from_proton_dir("/a/compatibilitytools.d/b/steamapps/common/P").as_deref(),
        Some("/a/compatibilitytools.d/b")
    );
    // Trailing and doubled separators do not count as components.
    assert_eq!(steam_root_from_proton_dir("/s//steamapps/common/P/").as_deref(), Some("/s"));
    // `common` directly under the root: the root's parent does not exist.
    assert_eq!(steam_root_from_proton_dir("/common/P"), None);
    assert_eq!(steam_root_from_proton_dir("/steamapps/common/P").as_deref(), Some("/"));
    // The walk stops at `..`.
    assert_eq!(steam_root_from_proton_dir("/s/steamapps/common/../P"), None);
    assert_eq!(steam_root_from_proton_dir("compatibilitytools.d/x").as_deref(), Some(""));
    assert_eq!(steam_root_from_proton_dir(""), None);
}

#[test]
fn steam_root_falls_back_to_home_then_library() {
    let g = game("/opt/tools/Proton", "/mnt/lib");
    assert_eq!(steam_root_for(&g, Some("/home/u/.local/share/Steam")), "/home/u/.local/share/Steam");
    assert_eq!(steam_root_for(&g, None), "/mnt/lib");
    let g2 = game("/home/u/.local/share/Steam/steamapps/common/Proton 9.0", "/mnt/lib");
    assert_eq!(steam_root_for(&g2, None), "/home/u/.local/share/Steam");
    assert_eq!(home_steam_dir("/home/u"), "/home/u/.local/share/Steam");
}

#[test]
fn compat_data_is_under_the_library() {
    assert_eq!(
        compat_data_dir_for("/mnt/lib", 274190),
        "/mnt/lib/steamapps/compatdata/274190"
    );
    assert_eq!(compat_data_dir_for("/mnt/lib/", 0), "/mnt/lib/steamapps/compatdata/0");
}

#[test]
fn steam_environment_variables() {
    let env = steam_env("/p", "/r", 42);
    let expected = vec![
        ("STEAM_COMPAT_DATA_PATH".to_string(), "/p".to_string()),
        ("STEAM_COMPAT_CLIENT_INSTALL_PATH".to_string(), "/r".to_string()),
        ("SteamGameId".to_string(), "42".to_string()),
        ("SteamAppId".to_string(), "42".to_string()),
    ];
    assert_eq!(env, expected);
}

#[test]
fn flatpak_arguments_forward_the_environment() {
    let args = flatpak_spawn_args("/t/proton", &vec!["winecfg".to_string()], "/p", "/r", 7);
    assert_eq!(
        args,
        vec![
            "--host",
            "--env=STEAM_COMPAT_DATA_PATH=/p",
            "--env=STEAM_COMPAT_CLIENT_INSTALL_PATH=/r",
            "--env=SteamGameId=7",
            "--env=SteamAppId=7",
            "/t/proton",
            "runinprefix",
            "winecfg",
        ]
    );
}

#[test]
fn direct_launch_command() {
    let g = game("/s/steamapps/common/Proton 9.0", "/lib");
    let args = vec!["C:\\a b.exe".to_string(), "-x".to_string()];
    let cmd = prefix_command(&g, &args, true, None, false).unwrap();
    assert_eq!(cmd.program, "/s/steamapps/common/Proton 9.0/proton");
    assert_eq!(cmd.args, vec!["runinprefix", "C:\\a b.exe", "-x"]);
    assert_eq!(cmd.env[0].1, "/lib/steamapps/compatdata/274190");
    assert_eq!(cmd.env[1].1, "/s");
    assert_eq!(
        cmd.command_line,
        "/s/steamapps/common/Proton 9.0/proton runinprefix C:\\a b.exe -x (prefix: /lib/steamapps/compatdata/274190)"
    );
}

#[test]
fn flatpak_launch_command() {
    let g = game("/s/compatibilitytools.d/GE", "/lib");
    let cmd = prefix_command(&g, &vec!["taskmgr".to_string()], true, None, true).unwrap();
    assert_eq!(cmd.program, "flatpak-spawn");
    assert!(cmd.env.is_empty());
    assert_eq!(cmd.args[0], "--host");
    assert_eq!(cmd.args[2], "--env=STEAM_COMPAT_CLIENT_INSTALL_PATH=/s");
    assert_eq!(
        cmd.command_line,
        "flatpak-spawn --host /s/compatibilitytools.d/GE/proton runinprefix taskmgr (prefix: /lib/steamapps/compatdata/274190)"
    );
}

#[test]
fn no_proton_dir_is_an_error() {
    let g = game("", "/lib");
    let err = prefix_command(&g, &vec![], true, None, false).unwrap_err();
    assert!(matches!(err, LaunchError::NoProtonDir));
    assert_eq!(err.message(), "no Proton directory found for this game (has it been run yet?)");
    let g2 = game("/t", "/lib");
    assert!(matches!(prefix_command(&g2, &vec![], false, None, false), Err(LaunchError::NoProtonDir)));
}

#[test]
fn spawn_error_message() {
    let e = LaunchError::Spawn { path: "/t/proton".to_string(), message: "No such file".to_string() };
    assert_eq!(e.message(), "failed to start process `/t/proton`: No such file");
}

#[test]
fn proton_script_requires_dir_and_file() {
    let g = game("/t/P", "/lib");
    assert_eq!(g.proton_script_path().as_deref(), Some("/t/P/proton"));
    assert_eq!(g.proton_script(true).as_deref(), Some("/t/P/proton"));
    assert_eq!(g.proton_script(false), None);
    let g2 = game("", "/lib");
    assert_eq!(g2.proton_script(true), None);
    assert_eq!(g2.proton_script_path(), None);
}

#[test]
fn builtin_tool_list() {
    let tools = builtin_tools();
    let pairs: Vec<(&str, &str)> = tools.iter().map(|t| (t.label, t.arg)).collect();
    assert_eq!(
        pairs,
        vec![
            ("winecfg", "winecfg"),
            ("Task Manager", "taskmgr"),
            ("Explorer", "explorer"),
            ("Registry Editor", "regedit"),
        ]
    );
}
