use protonctx::config::last_dir_of;
use protonctx::launcher::LaunchError;
use protonctx::models::Game;
use protonctx::steam::SteamError;
use protonctx::app_backend::{
    display_compat_tool, exit_message, first_row_with, launch_failure_message, load_status_text,
    running_status, starting_line,
    sort_games_by_column, sort_key, text_order_key, ExitOutcome, AppBackendRust, HeaderValue,
    COLUMN_APP_ID, COLUMN_COMPAT_TOOL, COLUMN_COUNT, COLUMN_NAME, ROLE_DISPLAY,
};

fn game(name: &str, id: u32, tool: &str, proton_dir: &str) -> Game {
    Game {
        name: name.to_string(),
        app_id: id,
        compat_tool: tool.to_string(),
        library_path: "/lib".to_string(),
        proton_dir: proton_dir.to_string(),
    }
}

fn loaded(games: Vec<Game>) -> AppBackendRust {
    let mut t = AppBackendRust::new(true);
    let g = t.begin_load();
    assert!(t.finish_load(g, Ok(games)));
    t
}

fn names(t: &AppBackendRust) -> Vec<String> {
    t.games().iter().map(|g| g.name.clone()).collect()
}

#[test]
fn new_table_is_empty_and_ready() {
    let t = AppBackendRust::new(false);
    assert_eq!(t.row_count(), 0);
    assert_eq!(t.column_count(), COLUMN_COUNT);
    assert_eq!(t.selected_row(), -1);
    assert_eq!(t.status_text(), "Ready");
    assert!(!t.launch_running());
    assert!(!t.remember_last_dir());
    assert!(t.selected_game().is_none());
}

#[test]
fn compat_tool_column_text() {
    assert_eq!(display_compat_tool(&game("a", 1, "proton_9", "/x/Proton 8.0")), "proton_9");
    assert_eq!(
        display_compat_tool(&game("a", 1, "", "/s/steamapps/common/Proton - Experimental")),
        "Proton - Experimental (default)"
    );
    assert_eq!(display_compat_tool(&game("a", 1, "", "")), "(default)");
    assert_eq!(display_compat_tool(&game("a", 1, "", "/")), "(default)");
}

#[test]
fn sort_keys_per_column() {
    let g = game("Broforce", 274190, "", "/p/GE-Proton10");
    assert_eq!(sort_key(&g, COLUMN_NAME), "broforce");
    assert_eq!(sort_key(&g, COLUMN_APP_ID), "0000274190");
    assert_eq!(sort_key(&g, COLUMN_COMPAT_TOOL), "ge-proton10 (default)");
    assert_eq!(sort_key(&g, 7), "");
    assert_eq!(text_order_key("aB"), vec![97, 66]);
}

#[test]
fn load_sorts_by_name_and_reports_count() {
    let t = loaded(vec![game("beta", 2, "", ""), game("Alpha", 1, "", ""), game("alpha", 3, "", "")]);
    assert_eq!(names(&t), vec!["Alpha", "alpha", "beta"]);
    assert_eq!(t.status_text(), "3 games loaded");
    assert_eq!(t.row_count(), 3);
    assert_eq!(t.selected_row(), -1);
}

#[test]
fn load_status_texts() {
    assert_eq!(load_status_text(&Ok(vec![])), "No games found");
    assert_eq!(load_status_text(&Ok(vec![game("a", 1, "", "")])), "1 game loaded");
    assert_eq!(load_status_text(&Err(SteamError::SteamNotFound)), "Steam not found");
    assert_eq!(
        load_status_text(&Err(SteamError::Io("boom".to_string()))),
        "Failed to discover games: I/O error: boom"
    );
}

#[test]
fn failed_load_clears_the_table() {
    let mut t = loaded(vec![game("a", 1, "", "")]);
    t.select_row(0);
    let g = t.begin_load();
    assert_eq!(t.status_text(), "Loading games...");
    assert!(t.finish_load(g, Err(SteamError::SteamNotFound)));
    assert_eq!(t.row_count(), 0);
    assert_eq!(t.selected_row(), -1);
    assert_eq!(t.status_text(), "Steam not found");
}

#[test]
fn stale_load_result_is_dropped() {
    let mut t = AppBackendRust::new(true);
    let first = t.begin_load();
    let second = t.begin_load();
    assert_ne!(first, second);
    assert!(!t.finish_load(first, Ok(vec![game("old", 1, "", "")])));
    assert_eq!(t.row_count(), 0);
    assert_eq!(t.status_text(), "Loading games...");
    assert!(t.finish_load(second, Ok(vec![game("new", 2, "", "")])));
    assert_eq!(names(&t), vec!["new"]);
    assert_eq!(t.status_text(), "1 game loaded");
}

#[test]
fn selection_is_clamped() {
    let mut t = loaded(vec![game("a", 1, "", ""), game("b", 2, "", "")]);
    t.select_row(1);
    assert_eq!(t.selected_row(), 1);
    assert_eq!(t.selected_game().unwrap().app_id, 2);
    t.select_row(2);
    assert_eq!(t.selected_row(), -1);
    t.select_row(0);
    t.select_row(-5);
    assert_eq!(t.selected_row(), -1);
    t.select_row(-1);
    assert!(t.selected_game().is_none());
}

#[test]
fn cells_and_row_accessors() {
    let t = loaded(vec![game("Broforce", 274190, "", "/s/steamapps/common/Proton 9.0")]);
    assert_eq!(t.cell_text(0, COLUMN_NAME, ROLE_DISPLAY), Some("Broforce".to_string()));
    assert_eq!(t.cell_text(0, COLUMN_APP_ID, ROLE_DISPLAY), Some("274190".to_string()));
    assert_eq!(t.cell_text(0, COLUMN_COMPAT_TOOL, ROLE_DISPLAY), Some("Proton 9.0 (default)".to_string()));
    assert_eq!(t.cell_text(0, 3, ROLE_DISPLAY), None);
    assert_eq!(t.cell_text(1, 0, ROLE_DISPLAY), None);
    assert_eq!(t.cell_text(-1, 0, ROLE_DISPLAY), None);
    assert_eq!(t.cell_text(0, COLUMN_NAME, 1), None);
    assert_eq!(t.selected_app_id(0), 274190);
    assert_eq!(t.selected_app_id(1), 0);
    assert_eq!(t.selected_app_id(-1), 0);
    assert_eq!(t.compat_data_path(0), "/lib/steamapps/compatdata/274190");
    assert_eq!(t.compat_data_path(4), "");
    assert_eq!(t.proton_dir_path(0), "/s/steamapps/common/Proton 9.0");
    assert_eq!(t.proton_dir_path(-2), "");
}

#[test]
fn header_cells() {
    let t = AppBackendRust::new(true);
    assert_eq!(t.header(0, false, ROLE_DISPLAY), HeaderValue::Text("Game".to_string()));
    assert_eq!(t.header(1, false, ROLE_DISPLAY), HeaderValue::Text("App ID".to_string()));
    assert_eq!(t.header(2, false, ROLE_DISPLAY), HeaderValue::Text("Compatibility Tool".to_string()));
    assert_eq!(t.header(3, false, ROLE_DISPLAY), HeaderValue::Empty);
    assert_eq!(t.header(4, true, ROLE_DISPLAY), HeaderValue::Number(5));
    assert_eq!(t.header(-1, true, ROLE_DISPLAY), HeaderValue::Empty);
    assert_eq!(t.header(0, false, 1), HeaderValue::Empty);
}

#[test]
fn sort_by_keeps_the_selected_game() {
    let mut t = loaded(vec![game("c", 30, "", ""), game("a", 10, "", ""), game("b", 20, "", "")]);
    t.select_row(0);
    assert_eq!(t.selected_game().unwrap().name, "a");
    t.sort_by(COLUMN_NAME, false);
    assert_eq!(names(&t), vec!["c", "b", "a"]);
    assert_eq!(t.selected_row(), 2);
    assert_eq!(t.selected_game().unwrap().name, "a");
    t.sort_by(COLUMN_APP_ID, true);
    assert_eq!(names(&t), vec!["a", "b", "c"]);
    assert_eq!(t.selected_row(), 0);
}

#[test]
fn sort_by_outside_the_table_changes_nothing() {
    let mut t = loaded(vec![game("b", 2, "", ""), game("a", 1, "", "")]);
    t.select_row(1);
    t.sort_by(3, false);
    t.sort_by(-1, false);
    assert_eq!(names(&t), vec!["a", "b"]);
    assert_eq!(t.selected_row(), 1);
}

#[test]
fn sort_without_selection_selects_nothing() {
    let mut t = loaded(vec![game("b", 2, "", ""), game("a", 1, "", "")]);
    t.sort_by(COLUMN_NAME, false);
    assert_eq!(t.selected_row(), -1);
}

#[test]
fn sort_is_stable_in_both_directions() {
    let gs = vec![game("x", 1, "", ""), game("X", 2, "", ""), game("a", 3, "", "")];
    let up = sort_games_by_column(gs, COLUMN_NAME, true);
    let ids: Vec<u32> = up.iter().map(|g| g.app_id).collect();
    assert_eq!(ids, vec![3, 1, 2]);
    let down = sort_games_by_column(up, COLUMN_NAME, false);
    let ids: Vec<u32> = down.iter().map(|g| g.app_id).collect();
    assert_eq!(ids, vec![1, 2, 3]);
}

#[test]
fn sort_by_tool_column_uses_display_text() {
    let gs = vec![
        game("a", 1, "", ""),
        game("b", 2, "Zeta", ""),
        game("c", 3, "", "/t/alpha"),
    ];
    let sorted = sort_games_by_column(gs, COLUMN_COMPAT_TOOL, true);
    let ids: Vec<u32> = sorted.iter().map(|g| g.app_id).collect();
    // "(default)" < "alpha (default)" < "zeta"
    assert_eq!(ids, vec![1, 3, 2]);
}

#[test]
fn first_row_lookup() {
    let gs = vec![game("a", 5, "", ""), game("b", 7, "", ""), game("c", 7, "", "")];
    assert_eq!(first_row_with(&gs, 7), 1);
    assert_eq!(first_row_with(&gs, 5), 0);
    assert_eq!(first_row_with(&gs, 9), -1);
}

#[test]
fn exit_messages() {
    assert_eq!(exit_message(&ExitOutcome::Code(0)), "Exit code: 0");
    assert_eq!(exit_message(&ExitOutcome::Code(-3)), "Exit code: -3");
    assert_eq!(exit_message(&ExitOutcome::Signal), "Process terminated by signal");
    assert_eq!(exit_message(&ExitOutcome::Error("gone".to_string())), "Launch error: gone");
    assert_eq!(running_status("winecfg"), "Running winecfg...");
}

#[test]
fn latest_launch_owns_the_status() {
    let mut t = AppBackendRust::new(true);
    let first = t.launch_started(running_status("winecfg"));
    assert!(t.launch_running());
    assert_eq!(t.status_text(), "Running winecfg...");
    let second = t.launch_started(running_status("regedit"));
    assert_ne!(first, second);
    let line = t.launch_finished(first, &ExitOutcome::Code(1));
    assert_eq!(line, "Exit code: 1");
    assert_eq!(t.status_text(), "Running regedit...");
    assert!(t.launch_running());
    let line = t.launch_finished(second, &ExitOutcome::Signal);
    assert_eq!(line, "Process terminated by signal");
    assert_eq!(t.status_text(), "Process terminated by signal");
    assert!(!t.launch_running());
}

#[test]
fn extra_finish_does_not_underflow() {
    let mut t = AppBackendRust::new(true);
    let g = t.launch_started("Running x...".to_string());
    t.launch_finished(g, &ExitOutcome::Code(0));
    t.launch_finished(g, &ExitOutcome::Code(0));
    assert!(!t.launch_running());
    assert_eq!(t.status_text(), "Exit code: 0");
}

#[test]
fn remember_last_dir_preference() {
    let mut t = AppBackendRust::new(true);
    let st = t.state_to_save(b"/home/u/games").unwrap();
    assert_eq!(st.last_dir.as_deref(), Some("/home/u/games"));
    assert_eq!(last_dir_of(&st), Some(b"/home/u/games".to_vec()));
    let cfg = t.apply_remember_last_dir(false);
    assert!(!cfg.remember_last_dir);
    assert!(!t.remember_last_dir());
    assert!(t.state_to_save(b"/home/u/games").is_none());
}

#[test]
fn launch_requests() {
    let mut t = loaded(vec![game("Broforce", 274190, "", "/s/steamapps/common/Proton 9.0")]);
    assert_eq!(t.launch_command("winecfg", true, true, None, false).unwrap_err(), "No game selected");
    t.select_row(0);
    let c = t.launch_command("winecfg", true, true, None, false).unwrap();
    assert_eq!(c.program, "/s/steamapps/common/Proton 9.0/proton");
    assert_eq!(c.args, vec!["runinprefix".to_string(), "winecfg".to_string()]);
    assert_eq!(
        c.command_line,
        "/s/steamapps/common/Proton 9.0/proton runinprefix winecfg (prefix: /lib/steamapps/compatdata/274190)"
    );
    assert_eq!(starting_line(&c.command_line), format!("Starting {}", c.command_line));
    // The launch runs in the prefix the table offers for copying.
    assert_eq!(c.env[0], ("STEAM_COMPAT_DATA_PATH".to_string(), t.compat_data_path(0)));
    assert_eq!(
        t.launch_command("winecfg", true, false, None, false).unwrap_err(),
        "Failed to launch winecfg: no Proton directory found for this game (has it been run yet?)"
    );
    assert_eq!(
        t.launch_command("/x/setup.exe", false, false, None, true).unwrap_err(),
        "Failed to launch: no Proton directory found for this game (has it been run yet?)"
    );
    let c = t.launch_command("/x/setup.exe", false, true, None, true).unwrap();
    assert_eq!(c.program, "flatpak-spawn");
    assert_eq!(c.args[1], format!("--env=STEAM_COMPAT_DATA_PATH={}", t.compat_data_path(0)));
    assert!(c.env.is_empty());
    assert!(c.command_line.starts_with("flatpak-spawn --host "));
}

#[test]
fn spawn_failure_message() {
    let e = LaunchError::Spawn { path: "/p/proton".to_string(), message: "denied".to_string() };
    assert_eq!(
        launch_failure_message(Some("regedit"), &e),
        "Failed to launch regedit: failed to start process `/p/proton`: denied"
    );
    assert_eq!(launch_failure_message(None, &e), "Failed to launch: failed to start process `/p/proton`: denied");
}

#[test]
fn app_id_column_sorts_numerically() {
    let gs = vec![game("a", 10, "", ""), game("b", 9, "", ""), game("c", 100, "", ""), game("d", u32::MAX, "", "")];
    let sorted = sort_games_by_column(gs, COLUMN_APP_ID, true);
    let ids: Vec<u32> = sorted.iter().map(|g| g.app_id).collect();
    assert_eq!(ids, vec![9, 10, 100, u32::MAX]);
    assert_eq!(sort_key(&game("x", u32::MAX, "", ""), COLUMN_APP_ID), "4294967295");
}

#[test]
fn overlapping_launches_count_down() {
    let mut t = AppBackendRust::new(true);
    let a = t.launch_started("Running a...".to_string());
    let b = t.launch_started("Running b...".to_string());
    let c = t.launch_started("Running c...".to_string());
    t.launch_finished(b, &ExitOutcome::Code(0));
    assert!(t.launch_running());
    t.launch_finished(a, &ExitOutcome::Code(0));
    assert!(t.launch_running());
    assert_eq!(t.status_text(), "Running c...");
    t.launch_finished(c, &ExitOutcome::Code(2));
    assert!(!t.launch_running());
    assert_eq!(t.status_text(), "Exit code: 2");
}
