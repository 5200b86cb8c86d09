use protonctx::steam::compat::{
    builtin_manifest_of, compat_tool_for_app, compat_tool_map, custom_tool_dir, manifest_for_builtin,
    parse_builtin_appmanifest, proton_dir_for_tool, tool_map_of, BuiltinManifest,
};
use protonctx::steam::compatdata::{config_info_path, prefix_tool_candidates, proton_dir_for, wine_version};
use protonctx::steam::libraryfolders::{library_folder_paths, library_folders, library_paths_of};
use protonctx::steam::locations::{find_steam_root, home_dir, steam_root_candidates};
use protonctx::steam::manifest::{
    installed_apps, is_manifest_file_name, manifest_of, parse_manifest, InstalledApp,
};
use protonctx::vdf::{VdfDocument, VdfValue};
use protonctx::steam::{
    app_install_path, compat_tool_markers, default_library_fallback, discover_games,
    fallback_marker, is_compat_tool, libraries_to_scan, sort_games, AppScan, LibraryScan,
    SteamError,
};
use protonctx::models::Game;

fn lookup<'a>(map: &'a [(String, String)], key: &str) -> Option<&'a str> {
    map.iter().find(|(k, _)| k == key).map(|(_, v)| v.as_str())
}

#[test]
fn parses_compat_tool_mapping() {
    let vdf = r#""InstallConfigStore"
{
	"Software"
	{
		"Valve"
		{
			"Steam"
			{
				"CompatToolMapping"
				{
					"274190"
					{
						"name"		"proton_experimental"
						"priority"		"250"
					}
					"0"
					{
						"name"		"proton_hotfix"
					}
				}
			}
		}
	}
}"#;
    let map = compat_tool_map(Some(vdf)).unwrap();
    assert_eq!(lookup(&map, "274190"), Some("proton_experimental"));
    assert_eq!(lookup(&map, "0"), Some("proton_hotfix"));
}

#[test]
fn empty_when_no_mapping() {
    let vdf = r#""InstallConfigStore"
{
	"Software"
	{
		"Valve"
		{
			"Steam"
			{
				"Other"		"thing"
			}
		}
	}
}"#;
    let map = compat_tool_map(Some(vdf)).unwrap();
    assert!(map.is_empty());
}

#[test]
fn lowercase_valve_key_and_missing_file() {
    let vdf = r#""InstallConfigStore" { "Software" { "valve" { "Steam" { "CompatToolMapping" { "10" { "name" "GE-Proton9-1" } "11" { "priority" "1" } } } } } }"#;
    let map = compat_tool_map(Some(vdf)).unwrap();
    assert_eq!(map.len(), 1);
    assert_eq!(compat_tool_for_app(&map, 10), "GE-Proton9-1");
    assert_eq!(compat_tool_for_app(&map, 11), "");
    assert!(compat_tool_map(None).unwrap().is_empty());
}

#[test]
fn corrupt_config_is_a_parse_error() {
    match compat_tool_map(Some("\"InstallConfigStore\"\n{\n\t\"Software\"\n")) {
        Err(SteamError::Parse(m)) => assert!(m.starts_with("config.vdf: ")),
        other => panic!("expected a parse error, got {:?}", other),
    }
}

fn write_builtin_appmanifest(name: &str, install_dir: &str, appid: u32) -> String {
    format!(
        "\"AppState\"\n{{\n  \"appid\"\t\t\"{appid}\"\n  \"name\"\t\t\"{name}\"\n  \"installdir\"\t\t\"{install_dir}\"\n}}\n"
    )
}

#[test]
fn resolves_custom_ge_proton() {
    let root = "/tmp/protonctx_test_tool_custom";
    let ge = custom_tool_dir(root, "GE-Proton10-34").unwrap();
    assert_eq!(ge, "/tmp/protonctx_test_tool_custom/compatibilitytools.d/GE-Proton10-34");
    let resolved = proton_dir_for_tool(root, "GE-Proton10-34", true, None);
    assert_eq!(resolved, Some(ge));
}

#[test]
fn resolves_builtin_experimental() {
    let root = "/tmp/protonctx_test_tool_builtin";
    let text = write_builtin_appmanifest("Proton Experimental", "Proton - Experimental", 1493710);
    let (internal, dir) = parse_builtin_appmanifest(&text).unwrap();
    assert_eq!(internal, "proton_experimental");
    assert_eq!(dir, "Proton - Experimental");
    let builtins = vec![BuiltinManifest { internal_name: internal, install_dir: dir, installed: true }];
    let resolved = proton_dir_for_tool(root, "proton_experimental", false, Some(&builtins));
    assert_eq!(
        resolved.as_deref(),
        Some("/tmp/protonctx_test_tool_builtin/steamapps/common/Proton - Experimental")
    );
}

#[test]
fn builtin_ignores_linux_runtime() {
    let root = "/tmp/protonctx_test_tool_runtime";
    let text = write_builtin_appmanifest("Steam Linux Runtime 4.0", "SteamLinuxRuntime_4", 4183110);
    // A runtime's manifest name starts with "Steam Linux Runtime", not "Proton".
    assert_eq!(parse_builtin_appmanifest(&text), None);
    let builtins: Vec<BuiltinManifest> = Vec::new();
    assert_eq!(proton_dir_for_tool(root, "steam_linux_runtime_4", false, Some(&builtins)), None);
    assert_eq!(proton_dir_for_tool(root, "proton_experimental", false, Some(&builtins)), None);
}

#[test]
fn none_when_tool_missing() {
    let root = "/tmp/protonctx_test_tool_missing";
    let builtins: Vec<BuiltinManifest> = Vec::new();
    assert_eq!(proton_dir_for_tool(root, "GE-Proton10-34", false, Some(&builtins)), None);
    assert_eq!(proton_dir_for_tool(root, "proton_experimental", false, None), None);
}

#[test]
fn custom_tool_without_proton_script_is_not_proton() {
    // Boxtron-like: its directory exists but holds no `proton` script.
    let builtins: Vec<BuiltinManifest> = Vec::new();
    assert_eq!(proton_dir_for_tool("/s", "boxtron", false, Some(&builtins)), None);
    assert_eq!(
        proton_dir_for_tool("/s", "boxtron", true, Some(&builtins)).as_deref(),
        Some("/s/compatibilitytools.d/boxtron")
    );
}

#[test]
fn none_for_empty_tool() {
    let root = "/tmp/protonctx_test_tool_empty";
    assert_eq!(proton_dir_for_tool(root, "", true, None), None);
    assert_eq!(custom_tool_dir(root, ""), None);
    let builtins: Vec<BuiltinManifest> = Vec::new();
    assert_eq!(proton_dir_for_tool(root, "default", false, Some(&builtins)), None);
}

#[test]
fn builtin_internal_name_joins_words() {
    let text = write_builtin_appmanifest("Proton  9.0 (Beta)", "Proton 9.0 (Beta)", 1);
    let (internal, _) = parse_builtin_appmanifest(&text).unwrap();
    assert_eq!(internal, "proton_9.0_(beta)");
}

#[test]
fn later_builtin_manifest_wins_and_must_be_installed() {
    let list = vec![
        BuiltinManifest { internal_name: "proton_hotfix".into(), install_dir: "A".into(), installed: true },
        BuiltinManifest { internal_name: "proton_hotfix".into(), install_dir: "B".into(), installed: false },
    ];
    assert_eq!(manifest_for_builtin(&list, "proton_hotfix").map(|m| m.install_dir.as_str()), Some("B"));
    assert!(manifest_for_builtin(&list, "hotfix").is_none());
    assert_eq!(proton_dir_for_tool("/s", "proton_hotfix", false, Some(&list)), None);
}

#[test]
fn resolves_builtin_proton_dir() {
    let dir = "/tmp/protonctx_test_cd";
    let proton = format!("{dir}/steamapps/common/Proton - Experimental");
    let content = format!(
        "11.0-100\n{0}/files/share/fonts/\n{0}/files/lib/\n{1}\n1788403030.0\n{0}/files/share/default_pfx/\n",
        proton, dir
    );
    assert_eq!(prefix_tool_candidates(&content), vec![proton.clone()]);
    let resolved = proton_dir_for(Some(&content), &vec![true]).unwrap();
    assert_eq!(resolved, proton);
    assert_eq!(wine_version(Some(&content)).as_deref(), Some("11.0-100"));
    assert_eq!(config_info_path(dir, 274190), format!("{dir}/steamapps/compatdata/274190/config_info"));
}

#[test]
fn none_when_no_prefix() {
    assert!(proton_dir_for(None, &vec![]).is_none());
    assert!(wine_version(None).is_none());
}

#[test]
fn first_existing_candidate_wins() {
    let text = "x\n/a/files/share/default_pfx/\n/b/files/share/default_pfx/files/share/default_pfx/\r\n";
    assert_eq!(prefix_tool_candidates(text), vec!["/a".to_string(), "/b/files/share/default_pfx".to_string()]);
    assert_eq!(proton_dir_for(Some(text), &vec![false, true]).as_deref(), Some("/b/files/share/default_pfx"));
    assert_eq!(proton_dir_for(Some(text), &vec![false]), None);
    assert_eq!(wine_version(Some("  \n\t 8.0-3 \n")).as_deref(), Some("8.0-3"));
}

#[test]
fn parses_typical_libraryfolders_vdf() {
    let lib_a = "/tmp/protonctx_test_lf/Steam";
    let lib_b = "/tmp/protonctx_test_lf/games";
    let vdf = format!(
        r#""libraryfolders"
{{
	"0"
	{{
		"path"		"{}"
		"apps"
		{{
			"274190"		"571899614"
		}}
	}}
	"1"
	{{
		"path"		"{}"
		"apps"
		{{
			"730"		"12345"
		}}
	}}
}}"#,
        lib_a, lib_b
    );
    let listed = library_folder_paths(&vdf).unwrap();
    assert_eq!(listed, vec![lib_a.to_string(), lib_b.to_string()]);
    let folders = library_folders(Some(&vdf), &vec![true, true]).unwrap();
    assert_eq!(folders.len(), 2);
    assert!(folders.contains(&lib_a.to_string()));
    assert!(folders.contains(&lib_b.to_string()));
}

#[test]
fn library_folders_sorted_deduplicated_and_existing() {
    let vdf = r#""libraryfolders" { "0" { "path" "/b" } "1" { "path" "/a" } "2" { "path" "/b/" } "3" { "path" "/c" } "4" "x" }"#;
    let folders = library_folders(Some(vdf), &vec![true, true, true, false]).unwrap();
    assert_eq!(folders, vec!["/a".to_string(), "/b".to_string()]);
    match library_folders(None, &vec![]) {
        Err(SteamError::Parse(m)) => assert_eq!(m, "libraryfolders.vdf not found"),
        other => panic!("unexpected {:?}", other),
    }
    // The parser itself refuses a document whose root is not an object.
    match library_folder_paths("\"libraryfolders\" \"x\"") {
        Err(SteamError::Parse(m)) => assert!(m.starts_with("libraryfolders.vdf: ")),
        other => panic!("unexpected {:?}", other),
    }
}

#[test]
fn candidates_are_relative_to_home() {
    let cands = steam_root_candidates(Some("/home/user"));
    assert_eq!(cands[0], "/home/user/.local/share/Steam");
    assert_eq!(cands.len(), 4);
    assert!(steam_root_candidates(Some("")).is_empty());
    assert_eq!(home_dir(Some("")), None);
    assert_eq!(home_dir(Some("/h")).as_deref(), Some("/h"));
}

#[test]
fn steam_root_is_first_candidate_with_steamapps() {
    assert_eq!(
        find_steam_root(Some("/h"), &vec![false, true, true, false]).as_deref(),
        Some("/h/.steam/root")
    );
    assert_eq!(find_steam_root(Some("/h"), &vec![false, false, false, false]), None);
    assert_eq!(find_steam_root(None, &vec![true, true, true, true]), None);
}

#[test]
fn parses_broforce_manifest() {
    let acf = r#""AppState"
{
	"appid"		"274190"
	"name"		"Broforce"
	"installdir"		"Broforce"
}"#;
    assert!(is_manifest_file_name("appmanifest_274190.acf"));
    let app = parse_manifest(acf).unwrap();
    let apps = installed_apps(vec![app]);
    assert_eq!(apps.len(), 1);
    assert_eq!(apps[0].app_id, 274190);
    assert_eq!(apps[0].name, "Broforce");
    assert_eq!(apps[0].install_dir.as_deref(), Some("Broforce"));
}

#[test]
fn skips_non_manifest_files() {
    assert!(!is_manifest_file_name("libraryfolders.vdf"));
    assert!(!is_manifest_file_name("appmanifest_1.acf.tmp"));
    assert!(!is_manifest_file_name("xappmanifest_1.acf"));
    assert!(is_manifest_file_name("appmanifest_.acf"));
}

#[test]
fn manifest_fields() {
    assert!(parse_manifest("\"AppState\" { \"name\" \"x\" }").is_none());
    assert!(parse_manifest("\"AppState\" { \"appid\" \"-1\" }").is_none());
    assert!(parse_manifest("\"AppState\" { \"appid\" \"4294967296\" }").is_none());
    let a = parse_manifest("\"AppState\" { \"appid\" \"+7\" \"installdir\" \"\" }").unwrap();
    assert_eq!(a.app_id, 7);
    assert_eq!(a.name, "");
    assert_eq!(a.install_dir, None);
    assert!(parse_manifest("not vdf {").is_none());
}

#[test]
fn installed_apps_sorted_by_app_id_stably() {
    let mk = |id: u32, name: &str| InstalledApp { app_id: id, name: name.to_string(), install_dir: None };
    let apps = installed_apps(vec![mk(30, "c"), mk(10, "a"), mk(30, "b"), mk(20, "d")]);
    let order: Vec<(u32, &str)> = apps.iter().map(|a| (a.app_id, a.name.as_str())).collect();
    assert_eq!(order, vec![(10, "a"), (20, "d"), (30, "c"), (30, "b")]);
}

#[test]
fn fallback_uses_steam_root_as_library() {
    let root = "/tmp/protonctx_test_fallback";
    assert_eq!(fallback_marker(root), "/tmp/protonctx_test_fallback/steamapps/libraryfolders.vdf");
    let libs = default_library_fallback(root, true);
    assert_eq!(libs, vec![root.to_string()]);
}

#[test]
fn fallback_empty_when_no_steamapps_vdf() {
    let root = "/tmp/protonctx_test_fallback_empty";
    assert!(default_library_fallback(root, false).is_empty());
}

#[test]
fn fallback_library_has_no_nested_steamapps() {
    let root = "/tmp/protonctx_test_fallback_nested";
    let libs = default_library_fallback(root, true);
    let lib = std::path::Path::new(&libs[0]);
    assert!(!lib.ends_with("steamapps"));
}

#[test]
fn libraries_fall_back_when_none_listed() {
    let fb = vec!["/root".to_string()];
    assert_eq!(libraries_to_scan(Ok(vec!["/a".to_string()]), fb.clone()), vec!["/a".to_string()]);
    assert_eq!(libraries_to_scan(Ok(vec![]), fb.clone()), fb);
    assert_eq!(libraries_to_scan(Err(SteamError::SteamNotFound), fb.clone()), fb);
}

#[test]
fn compat_tool_markers_and_install_path() {
    assert!(!is_compat_tool(false, false));
    assert!(is_compat_tool(true, false));
    assert!(is_compat_tool(false, true));
    let p = app_install_path("/lib", "Broforce");
    assert_eq!(p, "/lib/steamapps/common/Broforce");
    let (a, b) = compat_tool_markers(&p);
    assert_eq!(a, "/lib/steamapps/common/Broforce/toolmanifest.vdf");
    assert_eq!(b, "/lib/steamapps/common/Broforce/compatibilitytool.vdf");
}

fn scan(id: u32, name: &str, dir: Option<&str>, exists: bool, tool: bool) -> AppScan {
    AppScan {
        app: InstalledApp { app_id: id, name: name.to_string(), install_dir: dir.map(|d| d.to_string()) },
        install_dir_exists: exists,
        is_compat_tool: tool,
        custom_tool_has_script: false,
        config_info: None,
        prefix_candidate_is_dir: Vec::new(),
    }
}

#[test]
fn discovery_filters_and_orders_games() {
    let mut b = scan(2, "beta", Some("B"), true, false);
    b.custom_tool_has_script = true;
    // The prefix records another tool, but the selected one comes first.
    b.config_info = Some("9.0\n/s/steamapps/common/Proton 7.0/files/share/default_pfx/\n".to_string());
    b.prefix_candidate_is_dir = vec![true];
    let mut a2 = scan(9, "Alpha", Some("A2"), true, false);
    a2.config_info = Some(
        "/s/steamapps/common/Gone/files/share/default_pfx/\n/s/steamapps/common/Proton 8.0/files/share/default_pfx/\n"
            .to_string(),
    );
    a2.prefix_candidate_is_dir = vec![false, true];
    // A selected built-in tool resolves through the manifests.
    let c = scan(7, "gamma", Some("C"), true, false);
    // A custom tool without a `proton` script (e.g. Boxtron) is not used.
    let mut d = scan(8, "delta", Some("D"), true, false);
    d.config_info = Some("/s/compatibilitytools.d/GE/files/share/default_pfx/".to_string());
    d.prefix_candidate_is_dir = vec![true];
    let libs = vec![
        LibraryScan {
            path: "/lib1".to_string(),
            apps: Ok(vec![
                b,
                scan(3, "tool", Some("Proton"), true, true),
                scan(228980, "Steamworks Common Redistributables", Some("Steamworks Shared"), true, false),
                scan(4, "gone", Some("G"), false, false),
                scan(5, "nodir", None, true, false),
                a2,
                c,
                d,
            ]),
        },
        LibraryScan { path: "/lib2".to_string(), apps: Err(SteamError::Io("denied".to_string())) },
        LibraryScan { path: "/lib3".to_string(), apps: Ok(vec![scan(1, "alpha", Some("A"), true, false)]) },
    ];
    let map = vec![
        ("2".to_string(), "GE".to_string()),
        ("7".to_string(), "proton_hotfix".to_string()),
        ("8".to_string(), "boxtron".to_string()),
    ];
    let builtins = vec![BuiltinManifest {
        internal_name: "proton_hotfix".to_string(),
        install_dir: "Proton Hotfix".to_string(),
        installed: true,
    }];
    let games = discover_games(Some("/s"), Ok(map), Some(&builtins), libs).unwrap();
    let summary: Vec<(&str, u32, &str, &str, &str)> = games
        .iter()
        .map(|g| (g.name.as_str(), g.app_id, g.compat_tool.as_str(), g.library_path.as_str(), g.proton_dir.as_str()))
        .collect();
    assert_eq!(
        summary,
        vec![
            ("alpha", 1, "", "/lib3", ""),
            ("Alpha", 9, "", "/lib1", "/s/steamapps/common/Proton 8.0"),
            ("beta", 2, "GE", "/lib1", "/s/compatibilitytools.d/GE"),
            ("delta", 8, "boxtron", "/lib1", "/s/compatibilitytools.d/GE"),
            ("gamma", 7, "proton_hotfix", "/lib1", "/s/steamapps/common/Proton Hotfix"),
        ]
    );
}

#[test]
fn discovery_without_steam_fails() {
    assert!(matches!(discover_games(None, Ok(vec![]), None, vec![]), Err(SteamError::SteamNotFound)));
    // A broken config.vdf only hides the tool names.
    let libs = vec![LibraryScan { path: "/l".into(), apps: Ok(vec![scan(1, "x", Some("x"), true, false)]) }];
    let games = discover_games(Some("/s"), Err(SteamError::Parse("bad".into())), None, libs).unwrap();
    assert_eq!(games.len(), 1);
    assert_eq!(games[0].compat_tool, "");
}

#[test]
fn sort_games_orders_by_lowercase_name_then_id() {
    let g = |n: &str, id: u32| Game {
        name: n.to_string(),
        app_id: id,
        compat_tool: String::new(),
        library_path: String::new(),
        proton_dir: String::new(),
    };
    let sorted = sort_games(vec![g("b", 1), g("B", 0), g("a", 5), g("ab", 2), g("A", 3)]);
    let v: Vec<(&str, u32)> = sorted.iter().map(|x| (x.name.as_str(), x.app_id)).collect();
    assert_eq!(v, vec![("A", 3), ("a", 5), ("ab", 2), ("B", 0), ("b", 1)]);
}

#[test]
fn steam_error_messages() {
    assert_eq!(SteamError::Io("boom".into()).message(), "I/O error: boom");
    assert_eq!(SteamError::Parse("bad".into()).message(), "parse error: bad");
    assert_eq!(SteamError::SteamNotFound.message(), "Steam installation not found");
}

fn obj(entries: Vec<(&str, VdfValue)>) -> VdfValue {
    VdfValue::Obj(entries.into_iter().map(|(k, v)| (k.to_string(), v)).collect())
}

fn text(s: &str) -> VdfValue {
    VdfValue::Str(s.to_string())
}

#[test]
fn walks_parsed_documents() {
    let manifest = VdfDocument {
        key: "AppState".to_string(),
        value: obj(vec![("appid", text("+42")), ("name", text("Game")), ("installdir", text(""))]),
    };
    let app = manifest_of(&manifest).unwrap();
    assert_eq!((app.app_id, app.name.as_str(), app.install_dir), (42, "Game", None));
    let bad_id = VdfDocument { key: "AppState".to_string(), value: obj(vec![("appid", text("x"))]) };
    assert!(manifest_of(&bad_id).is_none());
    let not_obj = VdfDocument { key: "AppState".to_string(), value: text("x") };
    assert!(manifest_of(&not_obj).is_none());
    assert!(library_paths_of(&not_obj).is_none());
    assert!(builtin_manifest_of(&not_obj).is_none());
    assert!(tool_map_of(&not_obj).is_empty());

    let folders = VdfDocument {
        key: "libraryfolders".to_string(),
        value: obj(vec![
            ("0", obj(vec![("path", text("/a"))])),
            ("1", text("skip")),
            ("2", obj(vec![("label", text("no path"))])),
            ("3", obj(vec![("path", text("/b"))])),
        ]),
    };
    assert_eq!(library_paths_of(&folders), Some(vec!["/a".to_string(), "/b".to_string()]));

    let tool = VdfDocument {
        key: "AppState".to_string(),
        value: obj(vec![("name", text("Proton  9.0 (Beta)")), ("installdir", text("Proton 9.0"))]),
    };
    assert_eq!(
        builtin_manifest_of(&tool),
        Some(("proton_9.0_(beta)".to_string(), "Proton 9.0".to_string()))
    );

    let mapping = |valve_key: &str| VdfDocument {
        key: "InstallConfigStore".to_string(),
        value: obj(vec![(
            "Software",
            obj(vec![(
                valve_key,
                obj(vec![(
                    "Steam",
                    obj(vec![(
                        "CompatToolMapping",
                        obj(vec![
                            ("10", obj(vec![("name", text("proton_9"))])),
                            ("20", obj(vec![("config", text("x"))])),
                        ]),
                    )]),
                )]),
            )]),
        )]),
    };
    for key in ["Valve", "valve"] {
        let m = tool_map_of(&mapping(key));
        assert_eq!(m, vec![("10".to_string(), "proton_9".to_string())]);
    }
    assert!(tool_map_of(&mapping("Other")).is_empty());
}
