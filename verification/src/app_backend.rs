//! The state behind the games table of the user interface: the discovered
//! games in display order, the selected row, the status text, and the
//! bookkeeping of background loads and running launches.

use crate::config::{encoded_dir, state_for_dir, AppConfig, AppState};
use crate::launcher::proton::{
    command_line_spec, compat_data_dir_for, compat_data_in, env_views, flatpak_args_spec,
    game_steam_root, is_prefix_command, prefix_command, steam_env_spec, PrefixCommand,
};
use crate::launcher::{launch_error_text, LaunchError};
use crate::models::{script_in, Game, GameView};
use crate::order::{
    goes_before, is_stable_order, key_views, lemma_stable_order_is_permutation, lex_lt, permuted,
    stable_sort,
};
use crate::paths::{file_name, path_file_name};
use crate::steam::locations::string_views;
use crate::steam::{game_views, steam_error_text, SteamError};
use crate::text::{
    chars_of, decimal, digit_char, i32_decimal, lowercase_of, opt_view, push_decimal, push_str,
    signed_decimal, string_from, to_lowercase, zero_padded, zero_padded_decimal,
};
use vstd::prelude::*;

verus! {

/// Qt's display role, the only role the table reports.
pub const ROLE_DISPLAY: i32 = 0;

/// Column of the game name.
pub const COLUMN_NAME: i32 = 0;

/// Column of the app id.
pub const COLUMN_APP_ID: i32 = 1;

/// Column of the compatibility tool.
pub const COLUMN_COMPAT_TOOL: i32 = 2;

/// Number of columns.
pub const COLUMN_COUNT: i32 = 3;

/// The text of the "Compatibility Tool" column: the explicitly mapped tool;
/// otherwise the name of the resolved Proton directory followed by
/// ` (default)`; otherwise `(default)`.
pub open spec fn display_tool(g: GameView) -> Seq<char> {
    if g.compat_tool.len() > 0 {
        g.compat_tool
    } else if g.proton_dir.len() > 0 && file_name(g.proton_dir) is Some {
        file_name(g.proton_dir).unwrap() + " (default)"@
    } else {
        "(default)"@
    }
}

/// The value shown in the "Compatibility Tool" column (see [`display_tool`]).
pub fn display_compat_tool(game: &Game) -> (res: String)
    ensures
        res@ == display_tool(game@),
        game.compat_tool@.len() > 0 ==> res@ == game.compat_tool@,
        game.compat_tool@.len() == 0 && game.proton_dir@.len() > 0 && file_name(game.proton_dir@) is Some
            ==> res@ == file_name(game.proton_dir@).unwrap() + " (default)"@,
        game.compat_tool@.len() == 0 && !(game.proton_dir@.len() > 0 && file_name(game.proton_dir@) is Some)
            ==> res@ == "(default)"@,
{
    if !game.compat_tool.as_str().is_empty() {
        return game.compat_tool.clone();
    }
    if !game.proton_dir.as_str().is_empty() {
        if let Some(name) = path_file_name(game.proton_dir.as_str()) {
            let mut out = name;
            push_str(&mut out, " (default)");
            return out;
        }
    }
    string_from("(default)")
}

/// The sort key of a game for a column: the lowercased name, the app id
/// zero-padded to ten digits (so that text order is numeric order), or the
/// lowercased compatibility tool text; empty for other columns.
pub open spec fn sort_key_spec(g: GameView, column: int) -> Seq<char> {
    if column == COLUMN_NAME {
        lowercase_of(g.name)
    } else if column == COLUMN_APP_ID {
        zero_padded(g.app_id as nat, 10)
    } else if column == COLUMN_COMPAT_TOOL {
        lowercase_of(display_tool(g))
    } else {
        seq![]
    }
}

/// The sort key for a given column (see [`sort_key_spec`]).
pub fn sort_key(game: &Game, column: i32) -> (res: String)
    ensures
        res@ == sort_key_spec(game@, column as int),
{
    if column == COLUMN_NAME {
        to_lowercase(game.name.as_str())
    } else if column == COLUMN_APP_ID {
        zero_padded_decimal(game.app_id as u64, 10)
    } else if column == COLUMN_COMPAT_TOOL {
        let d = display_compat_tool(game);
        to_lowercase(d.as_str())
    } else {
        String::new()
    }
}

/// The order key of a text: its characters as numbers (the order of `String`).
pub open spec fn text_key(s: Seq<char>) -> Seq<u32> {
    s.map_values(|c: char| c as u32)
}

/// The order key of a text (see [`text_key`]).
pub fn text_order_key(s: &str) -> (res: Vec<u32>)
    ensures
        res@ == text_key(s@),
{
    let cs = chars_of(s);
    let mut out: Vec<u32> = Vec::new();
    let mut i: usize = 0;
    while i < cs.len()
        invariant
            i <= cs@.len(),
            cs@ == s@,
            out@ == cs@.take(i as int).map_values(|c: char| c as u32),
        decreases cs@.len() - i,
    {
        let v = cs[i] as u32;
        out.push(v);
        i = i + 1;
        assert(cs@.take(i as int).map_values(|c: char| c as u32) =~= cs@.take(i - 1).map_values(
            |c: char| c as u32,
        ).push(v));
    }
    assert(cs@.take(cs@.len() as int) =~= cs@);
    out
}

/// The number a key of decimal digit codes (`'0'` is 48) spells.
pub open spec fn digit_key_value(k: Seq<u32>) -> int
    decreases k.len(),
{
    if k.len() == 0 {
        0
    } else {
        digit_key_value(k.drop_last()) * 10 + (k.last() - 48)
    }
}

/// Every number of `k` is the code of a decimal digit.
pub open spec fn is_digit_key(k: Seq<u32>) -> bool {
    forall|i: int| 0 <= i < k.len() ==> 48 <= #[trigger] k[i] <= 57
}

/// `10` to the power `k`.
pub open spec fn pow10(k: nat) -> nat
    decreases k,
{
    if k == 0 {
        1
    } else {
        10 * pow10((k - 1) as nat)
    }
}

/// On sequences of one length, the lexicographic order is decided by the
/// sequences without their last elements, and then by the last elements.
proof fn lemma_lex_by_last(s: Seq<u32>, t: Seq<u32>)
    requires
        s.len() == t.len(),
        s.len() > 0,
    ensures
        lex_lt(s, t) <==> (lex_lt(s.drop_last(), t.drop_last()) || (s.drop_last() == t.drop_last()
            && s.last() < t.last())),
    decreases s.len(),
{
    if s.len() == 1 {
        assert(s.drop_last() =~= t.drop_last());
        assert(!lex_lt(s.drop_last(), t.drop_last()));
        assert(!lex_lt(s.drop_first(), t.drop_first()));
    } else if s[0] == t[0] {
        lemma_lex_by_last(s.drop_first(), t.drop_first());
        assert(s.drop_last()[0] == t.drop_last()[0]);
        assert(lex_lt(s.drop_last(), t.drop_last()) == lex_lt(
            s.drop_last().drop_first(),
            t.drop_last().drop_first(),
        ));
        assert(s.drop_first().drop_last() =~= s.drop_last().drop_first());
        assert(t.drop_first().drop_last() =~= t.drop_last().drop_first());
        assert(s.drop_first().last() == s.last());
        assert(t.drop_first().last() == t.last());
        if s.drop_first().drop_last() == t.drop_first().drop_last() {
            assert(s.drop_last() =~= t.drop_last()) by {
                assert(s.drop_last() =~= seq![s[0]] + s.drop_last().drop_first());
                assert(t.drop_last() =~= seq![t[0]] + t.drop_last().drop_first());
            }
        }
    } else {
        assert(s.drop_last()[0] == s[0]);
        assert(t.drop_last()[0] == t[0]);
        assert(s.drop_last() != t.drop_last());
    }
}

/// Keys of decimal digits of one length order, and are equal, as the
/// numbers they spell.
proof fn lemma_digit_key_order(s: Seq<u32>, t: Seq<u32>)
    requires
        s.len() == t.len(),
        is_digit_key(s),
        is_digit_key(t),
    ensures
        lex_lt(s, t) <==> digit_key_value(s) < digit_key_value(t),
        s == t <==> digit_key_value(s) == digit_key_value(t),
    decreases s.len(),
{
    if s.len() == 0 {
        assert(s =~= t);
    } else {
        let (s1, t1) = (s.drop_last(), t.drop_last());
        assert(is_digit_key(s1));
        assert(is_digit_key(t1));
        lemma_digit_key_order(s1, t1);
        lemma_lex_by_last(s, t);
        assert(48 <= s[s.len() - 1] <= 57);
        assert(48 <= t[t.len() - 1] <= 57);
        if s1 == t1 && s.last() == t.last() {
            assert(s =~= s1.push(s.last()));
            assert(t =~= t1.push(t.last()));
        }
    }
}

/// A run of `n` zero digits.
pub open spec fn zero_key(n: nat) -> Seq<u32> {
    Seq::new(n, |i: int| 48u32)
}

proof fn lemma_zeros_value(z: nat, d: Seq<u32>)
    ensures
        digit_key_value(zero_key(z) + d) == digit_key_value(d),
    decreases d.len(), z,
{
    if d.len() > 0 {
        lemma_zeros_value(z, d.drop_last());
        assert((zero_key(z) + d).drop_last() =~= zero_key(z) + d.drop_last());
    } else if z > 0 {
        lemma_zeros_value((z - 1) as nat, d);
        assert((zero_key(z) + d).drop_last() =~= zero_key((z - 1) as nat) + d);
    } else {
        assert(zero_key(z) + d =~= Seq::<u32>::empty());
    }
}

proof fn lemma_decimal_key(n: nat)
    ensures
        is_digit_key(text_key(decimal(n))),
        digit_key_value(text_key(decimal(n))) == n,
        forall|k: nat| n < pow10(k) && k > 0 ==> decimal(n).len() <= k,
    decreases n,
{
    let d = n % 10;
    assert((digit_char(d) as u32) == 48 + d) by {
        assert(48 + d < 58);
    }
    assert(n == (n / 10) * 10 + n % 10);
    if n < 10 {
        assert(text_key(decimal(n)) =~= seq![(48 + n) as u32]);
        assert(text_key(decimal(n)).drop_last() =~= Seq::<u32>::empty());
        assert(digit_key_value(Seq::<u32>::empty()) == 0);
        assert(text_key(decimal(n)).last() == 48 + n);
    } else {
        lemma_decimal_key(n / 10);
        assert(text_key(decimal(n)) =~= text_key(decimal(n / 10)).push((48 + d) as u32));
        assert(text_key(decimal(n)).drop_last() =~= text_key(decimal(n / 10)));
        assert forall|k: nat| n < pow10(k) && k > 0 implies decimal(n).len() <= k by {
            if k == 1 {
                assert(pow10(1) == 10) by {
                    reveal_with_fuel(pow10, 2);
                }
            } else {
                assert(pow10(k) == 10 * pow10((k - 1) as nat));
                assert(n / 10 < pow10((k - 1) as nat));
            }
        }
    }
}

/// The key of the app id column, the app id zero-padded to ten digits, is a
/// run of exactly ten digit codes that spells the app id.
proof fn lemma_padded_id_key(id: u32)
    ensures
        text_key(zero_padded(id as nat, 10)).len() == 10,
        is_digit_key(text_key(zero_padded(id as nat, 10))),
        digit_key_value(text_key(zero_padded(id as nat, 10))) == id,
{
    let n = id as nat;
    lemma_decimal_key(n);
    assert(pow10(10) == 10000000000) by {
        reveal_with_fuel(pow10, 11);
    }
    let dk = text_key(decimal(n));
    let dl = decimal(n).len();
    assert(dl <= 10);
    if dl < 10 {
        let z = (10 - dl) as nat;
        assert(text_key(zero_padded(n, 10)) =~= zero_key(z) + dk);
        lemma_zeros_value(z, dk);
        assert(is_digit_key(zero_key(z) + dk)) by {
            assert forall|i: int| 0 <= i < (zero_key(z) + dk).len() implies 48 <= #[trigger] (
            zero_key(z) + dk)[i] <= 57 by {
                if i >= z {
                    assert((zero_key(z) + dk)[i] == dk[i - z]);
                }
            }
        }
    }
}

/// Sorting by the app id column orders games by app id: the zero-padded
/// app-id texts compare as the app ids do, and are equal exactly for equal
/// app ids.
pub proof fn lemma_app_id_key_order(g: GameView, h: GameView)
    ensures
        lex_lt(
            text_key(sort_key_spec(g, COLUMN_APP_ID as int)),
            text_key(sort_key_spec(h, COLUMN_APP_ID as int)),
        ) <==> g.app_id < h.app_id,
        text_key(sort_key_spec(g, COLUMN_APP_ID as int)) == text_key(
            sort_key_spec(h, COLUMN_APP_ID as int),
        ) <==> g.app_id == h.app_id,
{
    lemma_padded_id_key(g.app_id);
    lemma_padded_id_key(h.app_id);
    lemma_digit_key_order(
        text_key(zero_padded(g.app_id as nat, 10)),
        text_key(zero_padded(h.app_id as nat, 10)),
    );
}

/// The sort keys of games for a column.
pub open spec fn column_keys(gs: Seq<GameView>, column: int) -> Seq<Seq<u32>> {
    gs.map_values(|g: GameView| text_key(sort_key_spec(g, column)))
}

/// Text `a` is not after `b` in the requested direction (text order
/// ascending, its reverse descending).
pub open spec fn text_in_order(a: Seq<char>, b: Seq<char>, ascending: bool) -> bool {
    if ascending {
        lex_lt(text_key(a), text_key(b)) || a == b
    } else {
        lex_lt(text_key(b), text_key(a)) || a == b
    }
}

/// Games `a` before `b` respect a sort by `column`: by lowercased name, by
/// app id (numerically), or by lowercased compatibility tool text.
pub open spec fn column_in_order(a: GameView, b: GameView, column: int, ascending: bool) -> bool {
    if column == COLUMN_NAME {
        text_in_order(lowercase_of(a.name), lowercase_of(b.name), ascending)
    } else if column == COLUMN_APP_ID {
        if ascending {
            a.app_id <= b.app_id
        } else {
            a.app_id >= b.app_id
        }
    } else if column == COLUMN_COMPAT_TOOL {
        text_in_order(lowercase_of(display_tool(a)), lowercase_of(display_tool(b)), ascending)
    } else {
        true
    }
}

proof fn lemma_text_key_injective(a: Seq<char>, b: Seq<char>)
    requires
        text_key(a) == text_key(b),
    ensures
        a == b,
{
    assert(a.len() == text_key(a).len());
    assert(b.len() == text_key(b).len());
    assert forall|i: int| 0 <= i < a.len() implies a[i] == b[i] by {
        let (x, y) = (a[i], b[i]);
        assert(text_key(a)[i] == x as u32);
        assert(text_key(b)[i] == y as u32);
        vstd::utf8::char_u32_cast(x, x as u32);
        vstd::utf8::char_u32_cast(y, y as u32);
        assert((x as u32) as char == x);
        assert((y as u32) as char == y);
    }
    assert(a =~= b);
}

/// A stable sort by the keys of `column` puts games in that column's order.
pub proof fn lemma_column_order(gs: Seq<GameView>, column: int, ascending: bool, perm: Seq<int>)
    requires
        is_stable_order(column_keys(gs, column), !ascending, perm),
    ensures
        forall|i: int, j: int|
            0 <= i < j < perm.len() ==> column_in_order(
                #[trigger] permuted(gs, perm)[i],
                #[trigger] permuted(gs, perm)[j],
                column,
                ascending,
            ),
{
    let keys = column_keys(gs, column);
    let v = permuted(gs, perm);
    assert forall|i: int, j: int| 0 <= i < j < perm.len() implies column_in_order(
        #[trigger] v[i],
        #[trigger] v[j],
        column,
        ascending,
    ) by {
        assert(goes_before(keys, !ascending, perm[i], perm[j]));
        assert(keys[perm[i]] == text_key(sort_key_spec(v[i], column)));
        assert(keys[perm[j]] == text_key(sort_key_spec(v[j], column)));
        if keys[perm[i]] == keys[perm[j]] {
            lemma_text_key_injective(sort_key_spec(v[i], column), sort_key_spec(v[j], column));
        }
        if column == COLUMN_APP_ID {
            lemma_app_id_key_order(v[i], v[j]);
            lemma_app_id_key_order(v[j], v[i]);
        }
    }
}

/// Sorts games stably by their key for `column`, ascending or descending.
pub fn sort_games_by_column(games: Vec<Game>, column: i32, ascending: bool) -> (res: Vec<Game>)
    ensures
        forall|i: int, j: int|
            0 <= i < j < res@.len() ==> column_in_order(
                (#[trigger] res@[i])@,
                (#[trigger] res@[j])@,
                column as int,
                ascending,
            ),
        exists|perm: Seq<int>|
            is_stable_order(column_keys(game_views(games@), column as int), !ascending, perm)
                && game_views(res@) == #[trigger] permuted(game_views(games@), perm),
{
    let mut keys: Vec<Vec<u32>> = Vec::new();
    let mut i: usize = 0;
    while i < games.len()
        invariant
            i <= games@.len(),
            keys@.len() == i,
            forall|k: int|
                0 <= k < i ==> (#[trigger] keys@[k])@ == text_key(sort_key_spec(games@[k]@, column as int)),
        decreases games@.len() - i,
    {
        let sk = sort_key(&games[i], column);
        keys.push(text_order_key(sk.as_str()));
        i = i + 1;
    }
    let ghost g0 = games@;
    assert(key_views(keys@) =~= column_keys(game_views(g0), column as int));
    let (sorted, perm) = stable_sort(games, &keys, !ascending);
    assert(game_views(sorted@) =~= permuted(game_views(g0), perm@));
    proof {
        lemma_column_order(game_views(g0), column as int, ascending, perm@);
        assert forall|i: int, j: int| 0 <= i < j < sorted@.len() implies column_in_order(
            (#[trigger] sorted@[i])@,
            (#[trigger] sorted@[j])@,
            column as int,
            ascending,
        ) by {
            assert(game_views(sorted@)[i] == sorted@[i]@);
            assert(game_views(sorted@)[j] == sorted@[j]@);
        }
    }
    sorted
}

/// A header cell: nothing, a row number, or a column title.
#[derive(Debug, PartialEq, Eq)]
pub enum HeaderValue {
    Empty,
    Number(i32),
    Text(String),
}

/// How a launched process ended: with an exit code, killed by a signal, or
/// waiting for it failed (with the system's description).
#[derive(Debug)]
pub enum ExitOutcome {
    Code(i32),
    Signal,
    Error(String),
}

/// The log line for how a launched process ended.
pub open spec fn exit_text(o: ExitOutcome) -> Seq<char> {
    match o {
        ExitOutcome::Code(c) => "Exit code: "@ + signed_decimal(c as int),
        ExitOutcome::Signal => "Process terminated by signal"@,
        ExitOutcome::Error(e) => "Launch error: "@ + e@,
    }
}

/// The log line for how a launched process ended (see [`exit_text`]).
pub fn exit_message(o: &ExitOutcome) -> (res: String)
    ensures
        res@ == exit_text(*o),
        *o matches ExitOutcome::Code(c) ==> res@ == "Exit code: "@ + signed_decimal(c as int),
        *o is Signal ==> res@ == "Process terminated by signal"@,
        *o matches ExitOutcome::Error(e) ==> res@ == "Launch error: "@ + e@,
{
    let mut out = String::new();
    match o {
        ExitOutcome::Code(c) => {
            push_str(&mut out, "Exit code: ");
            let d = i32_decimal(*c);
            push_str(&mut out, d.as_str());
        },
        ExitOutcome::Signal => {
            push_str(&mut out, "Process terminated by signal");
        },
        ExitOutcome::Error(e) => {
            push_str(&mut out, "Launch error: ");
            push_str(&mut out, e.as_str());
        },
    }
    out
}

/// The status text after a load: how many games were found, or why none
/// could be listed.
pub open spec fn load_status(result: Result<Vec<Game>, SteamError>) -> Seq<char> {
    match result {
        Ok(gs) => if gs@.len() == 0 {
            "No games found"@
        } else if gs@.len() == 1 {
            "1 game loaded"@
        } else {
            decimal(gs@.len() as nat) + " games loaded"@
        },
        Err(SteamError::SteamNotFound) => "Steam not found"@,
        Err(e) => "Failed to discover games: "@ + steam_error_text(e),
    }
}

/// The status text while a launch runs: `Running <what>...`.
pub open spec fn running_text(what: Seq<char>) -> Seq<char> {
    "Running "@ + what + "..."@
}

/// The status text while a launch of `what` runs (see [`running_text`]).
pub fn running_status(what: &str) -> (res: String)
    ensures
        res@ == running_text(what@),
        res@ == "Running "@ + what@ + "..."@,
{
    let mut out = string_from("Running ");
    push_str(&mut out, what);
    push_str(&mut out, "...");
    out
}

/// The message shown when a launch fails: `Failed to launch <tool>: <error>`
/// for a built-in tool, `Failed to launch: <error>` for a browsed executable.
pub open spec fn launch_failure_text(tool: Option<Seq<char>>, e: LaunchError) -> Seq<char> {
    match tool {
        Some(t) => "Failed to launch "@ + t + ": "@ + launch_error_text(e),
        None => "Failed to launch: "@ + launch_error_text(e),
    }
}

/// The message shown when a launch fails (see [`launch_failure_text`]).
pub fn launch_failure_message(tool: Option<&str>, e: &LaunchError) -> (res: String)
    ensures
        res@ == launch_failure_text(opt_view(tool), *e),
        tool matches Some(t) ==> res@ == "Failed to launch "@ + t@ + ": "@ + launch_error_text(*e),
        tool is None ==> res@ == "Failed to launch: "@ + launch_error_text(*e),
{
    let m = e.message();
    match tool {
        Some(t) => {
            let mut out = string_from("Failed to launch ");
            push_str(&mut out, t);
            push_str(&mut out, ": ");
            push_str(&mut out, m.as_str());
            out
        },
        None => {
            let mut out = string_from("Failed to launch: ");
            push_str(&mut out, m.as_str());
            out
        },
    }
}

/// The log line written when a launch starts: `Starting <command line>`.
pub fn starting_line(command_line: &str) -> (res: String)
    ensures
        res@ == "Starting "@ + command_line@,
{
    let mut out = string_from("Starting ");
    push_str(&mut out, command_line);
    out
}

/// The prefix a launch runs in is the one the table offers for copying
/// (`compat_data_path`, [`compat_data_in`] of the game): the launch sets it as
/// `STEAM_COMPAT_DATA_PATH`, on the process or, inside a Flatpak sandbox,
/// through `flatpak-spawn --env`, and names it in its command line.
pub proof fn lemma_launch_uses_copied_prefix(
    g: GameView,
    args: Seq<Seq<char>>,
    home_steam_default: Option<Seq<char>>,
    in_flatpak: bool,
    c: PrefixCommand,
)
    requires
        is_prefix_command(g, args, home_steam_default, in_flatpak, c),
    ensures
        !in_flatpak ==> env_views(c.env@)[0] == ("STEAM_COMPAT_DATA_PATH"@, compat_data_in(
            g.library_path,
            g.app_id,
        )),
        in_flatpak ==> string_views(c.args@)[1] == "--env="@ + "STEAM_COMPAT_DATA_PATH"@ + "="@
            + compat_data_in(g.library_path, g.app_id),
        c.command_line@ == command_line_spec(
            in_flatpak,
            script_in(g.proton_dir),
            args,
            compat_data_in(g.library_path, g.app_id),
        ),
{
    let compat = compat_data_in(g.library_path, g.app_id);
    let root = game_steam_root(g, home_steam_default);
    let env = steam_env_spec(compat, root, g.app_id);
    if in_flatpak {
        let fa = flatpak_args_spec(script_in(g.proton_dir), args, compat, root, g.app_id);
        assert(fa[1] == env.map_values(|p: (Seq<char>, Seq<char>)| "--env="@ + p.0 + "="@ + p.1)[0]);
    }
}

/// The selected row is `-1` or a valid row of the table.
pub open spec fn selection_valid(v: AppBackendView) -> bool {
    -1 <= v.selected_row < v.games.len()
}

/// The launch-in-flight indicator is on exactly while some launch is active,
/// so overlapping launches clear it only when the last one ends.
pub open spec fn running_matches_launches(v: AppBackendView) -> bool {
    v.launch_running == (v.active_launches > 0)
}

/// The number of active launches after one more has started (saturating).
pub open spec fn count_after_start(n: nat) -> nat {
    if n < usize::MAX {
        n + 1
    } else {
        n
    }
}

/// The number of active launches after one has ended (saturating at zero).
pub open spec fn count_after_finish(n: nat) -> nat {
    if n > 0 {
        (n - 1) as nat
    } else {
        0
    }
}

/// The number of active launches after `events`, starting from `n`: each
/// `true` is a launch that started ([`AppBackendRust::launch_started`]),
/// each `false` a launch that ended ([`AppBackendRust::launch_finished`]).
pub open spec fn launches_after(n: nat, events: Seq<bool>) -> nat
    decreases events.len(),
{
    if events.len() == 0 {
        n
    } else {
        let m = launches_after(n, events.drop_last());
        if events.last() {
            count_after_start(m)
        } else {
            count_after_finish(m)
        }
    }
}

/// How many of `events` are `v`.
pub open spec fn count_of(events: Seq<bool>, v: bool) -> nat
    decreases events.len(),
{
    if events.len() == 0 {
        0
    } else {
        count_of(events.drop_last(), v) + if events.last() == v {
            1nat
        } else {
            0nat
        }
    }
}

/// Every launch that ends has started before: no prefix of `events` holds
/// more ends than starts.
pub open spec fn ends_follow_starts(events: Seq<bool>) -> bool {
    forall|k: int|
        0 <= k <= events.len() ==> count_of(#[trigger] events.take(k), false) <= count_of(
            events.take(k),
            true,
        )
}

/// From a fresh table, after `k` launches started and `j` of them ended (in
/// any interleaving where a launch ends after it started), `k - j` launches
/// are active, so the launch-in-flight indicator is on exactly while
/// `j < k`: overlapping launches clear it only when the last one ends.
pub proof fn lemma_active_launches(events: Seq<bool>)
    requires
        ends_follow_starts(events),
        count_of(events, true) < usize::MAX,
    ensures
        launches_after(0, events) == count_of(events, true) - count_of(events, false),
        launches_after(0, events) > 0 <==> count_of(events, false) < count_of(events, true),
    decreases events.len(),
{
    if events.len() > 0 {
        let p = events.drop_last();
        assert(ends_follow_starts(p)) by {
            assert forall|k: int| 0 <= k <= p.len() implies count_of(#[trigger] p.take(k), false)
                <= count_of(p.take(k), true) by {
                assert(p.take(k) =~= events.take(k));
            }
        }
        assert(count_of(p, true) <= count_of(events, true));
        lemma_active_launches(p);
        assert(events.take(events.len() as int) =~= events);
        assert(count_of(events.take(events.len() as int), false) <= count_of(
            events.take(events.len() as int),
            true,
        ));
    }
}

/// The plain contents of an [`AppBackendRust`].
pub struct AppBackendView {
    pub games: Seq<GameView>,
    pub selected_row: int,
    pub status_text: Seq<char>,
    pub remember_last_dir: bool,
    pub launch_running: bool,
    pub active_launches: nat,
    pub launch_generation: u64,
    pub load_generation: u64,
}

/// The state behind the games table: the games in display order, the
/// selected row (`-1` for none; always `-1` or a valid row), the status-bar
/// text, the "remember last directory" preference, the number of launches
/// still running (a launch is shown as in flight while it is not zero), and
/// the counters that let overlapping background loads and launches be told
/// apart.
pub struct AppBackendRust {
    games: Vec<Game>,
    selected_row: i32,
    status_text: String,
    remember_last_dir: bool,
    active_launches: usize,
    launch_generation: u64,
    load_generation: u64,
}

impl View for AppBackendRust {
    type V = AppBackendView;

    closed spec fn view(&self) -> AppBackendView {
        AppBackendView {
            games: game_views(self.games@),
            selected_row: self.selected_row as int,
            status_text: self.status_text@,
            remember_last_dir: self.remember_last_dir,
            launch_running: self.active_launches > 0,
            active_launches: self.active_launches as nat,
            launch_generation: self.launch_generation,
            load_generation: self.load_generation,
        }
    }
}

/// The first row of `gs` holding the app `id`, or `-1`.
pub open spec fn row_of(gs: Seq<GameView>, id: u32) -> int
    decreases gs.len(),
{
    if gs.len() == 0 {
        -1
    } else if gs[0].app_id == id {
        0
    } else {
        let r = row_of(gs.drop_first(), id);
        if r < 0 {
            -1
        } else {
            r + 1
        }
    }
}

proof fn lemma_row_of_bounds(gs: Seq<GameView>, id: u32)
    ensures
        -1 <= row_of(gs, id) < gs.len(),
        row_of(gs, id) >= 0 ==> gs[row_of(gs, id)].app_id == id,
        row_of(gs, id) < 0 ==> forall|k: int| 0 <= k < gs.len() ==> (#[trigger] gs[k]).app_id != id,
    decreases gs.len(),
{
    if gs.len() > 0 && gs[0].app_id != id {
        lemma_row_of_bounds(gs.drop_first(), id);
        assert forall|k: int| 0 < k < gs.len() implies gs[k] == gs.drop_first()[k - 1] by {}
    }
}

/// The row of the first game with app id `id` as an `i32`, or `-1` (also
/// when that row does not fit in an `i32`).
pub open spec fn found_row(gs: Seq<GameView>, id: u32) -> int {
    let r = row_of(gs, id);
    if r <= i32::MAX {
        r
    } else {
        -1
    }
}

/// The first row of `games` holding the app `id` (see [`found_row`]).
pub fn first_row_with(games: &Vec<Game>, id: u32) -> (res: i32)
    ensures
        res as int == found_row(game_views(games@), id),
        -1 <= res < games@.len(),
{
    let ghost gv = game_views(games@);
    let mut r: usize = 0;
    assert(gv.skip(0) =~= gv);
    while r < games.len()
        invariant
            gv == game_views(games@),
            r <= games@.len(),
            row_of(gv, id) == (if row_of(gv.skip(r as int), id) < 0 {
                -1
            } else {
                row_of(gv.skip(r as int), id) + r
            }),
        decreases games@.len() - r,
    {
        if games[r].app_id == id {
            assert(gv.skip(r as int)[0].app_id == id);
            if r > 0x7fff_ffff {
                return -1;
            }
            return r as i32;
        }
        assert(gv.skip(r as int).drop_first() =~= gv.skip(r + 1));
        r = r + 1;
    }
    -1
}

/// A game stays in a table reordered by a stable sort: the first row with
/// its app id holds a game with that app id.
proof fn lemma_sort_keeps_game(
    gs: Seq<GameView>,
    keys: Seq<Seq<u32>>,
    d: bool,
    perm: Seq<int>,
    s: int,
)
    requires
        is_stable_order(keys, d, perm),
        keys.len() == gs.len(),
        0 <= s < gs.len(),
        gs.len() <= i32::MAX,
    ensures
        found_row(permuted(gs, perm), gs[s].app_id) >= 0,
        permuted(gs, perm)[found_row(permuted(gs, perm), gs[s].app_id)].app_id == gs[s].app_id,
{
    let sorted = permuted(gs, perm);
    lemma_stable_order_is_permutation(keys, d, perm);
    assert(perm.contains(s));
    let k = choose|k: int| 0 <= k < perm.len() && perm[k] == s;
    assert(sorted[k].app_id == gs[s].app_id);
    lemma_row_of_bounds(sorted, gs[s].app_id);
}

/// The row a clamped selection request selects: `row` when it is `-1` or a
/// valid row (compared with the row count as Qt sees it, an `i32`), else
/// `-1`.
pub open spec fn clamped_row(row: i32, len: nat) -> int {
    if row < -1 || row >= len as i32 {
        -1
    } else {
        row as int
    }
}

impl AppBackendRust {
    /// The selected row is `-1` or a valid row.
    #[verifier::type_invariant]
    closed spec fn inv(self) -> bool {
        -1 <= self.selected_row && self.selected_row < self.games@.len()
    }

    /// An empty table with nothing selected and the status `Ready`.
    pub fn new(remember_last_dir: bool) -> (res: Self)
        ensures
            selection_valid(res@),
            running_matches_launches(res@),
            res@.games.len() == 0,
            res@.selected_row == -1,
            res@.status_text == "Ready"@,
            res@.remember_last_dir == remember_last_dir,
            !res@.launch_running,
            res@.active_launches == 0,
            res@.launch_generation == 0,
            res@.load_generation == 0,
    {
        AppBackendRust {
            games: Vec::new(),
            selected_row: -1,
            status_text: string_from("Ready"),
            remember_last_dir,
            active_launches: 0,
            launch_generation: 0,
            load_generation: 0,
        }
    }

    /// The games, in display order.
    pub fn games(&self) -> (res: &Vec<Game>)
        ensures
            game_views(res@) == self@.games,
    {
        &self.games
    }

    /// The selected row, or `-1`.
    pub fn selected_row(&self) -> (res: i32)
        ensures
            res as int == self@.selected_row,
    {
        self.selected_row
    }

    /// The status-bar text.
    pub fn status_text(&self) -> (res: &String)
        ensures
            res@ == self@.status_text,
    {
        &self.status_text
    }

    /// Whether a launch is in flight.
    pub fn launch_running(&self) -> (res: bool)
        ensures
            res == self@.launch_running,
    {
        self.active_launches > 0
    }

    /// Whether the "Browse…" dialog remembers the last directory.
    pub fn remember_last_dir(&self) -> (res: bool)
        ensures
            res == self@.remember_last_dir,
    {
        self.remember_last_dir
    }

    /// The number of rows, as Qt's `rowCount` reports it (an `i32`).
    pub fn row_count(&self) -> (res: i32)
        ensures
            res == self@.games.len() as i32,
    {
        self.games.len() as i32
    }

    /// The number of columns.
    pub fn column_count(&self) -> (res: i32)
        ensures
            res == COLUMN_COUNT,
    {
        COLUMN_COUNT
    }

    /// The text of a cell for the display role: the name, the app id in
    /// decimal, or the compatibility tool text; `None` outside the table or
    /// for another role.
    pub fn cell_text(&self, row: i32, column: i32, role: i32) -> (res: Option<String>)
        ensures
            !(0 <= row < self@.games.len() && 0 <= column < COLUMN_COUNT && role == ROLE_DISPLAY)
                ==> res is None,
            0 <= row < self@.games.len() && 0 <= column < COLUMN_COUNT && role == ROLE_DISPLAY ==> (
            res matches Some(t) && t@
                == (if column == COLUMN_NAME {
                self@.games[row as int].name
            } else if column == COLUMN_APP_ID {
                decimal(self@.games[row as int].app_id as nat)
            } else {
                display_tool(self@.games[row as int])
            })),
    {
        if row < 0 || row as usize >= self.games.len() || role != ROLE_DISPLAY {
            return None;
        }
        let g = &self.games[row as usize];
        if column == COLUMN_NAME {
            Some(g.name.clone())
        } else if column == COLUMN_APP_ID {
            let mut s = String::new();
            push_decimal(&mut s, g.app_id as u64);
            assert(s@ =~= decimal(g.app_id as nat));
            Some(s)
        } else if column == COLUMN_COMPAT_TOOL {
            Some(display_compat_tool(g))
        } else {
            None
        }
    }

    /// A header cell: for the display role and a non-negative section, the
    /// row number (`section + 1`) of a vertical header, or the title of a
    /// column ("Game", "App ID", "Compatibility Tool"); otherwise nothing.
    pub fn header(&self, section: i32, vertical: bool, role: i32) -> (res: HeaderValue)
        requires
            section < i32::MAX,
        ensures
            (role != ROLE_DISPLAY || section < 0) ==> res == HeaderValue::Empty,
            (role == ROLE_DISPLAY && section >= 0 && vertical) ==> res == HeaderValue::Number(
                (section + 1) as i32,
            ),
            (role == ROLE_DISPLAY && section >= 0 && !vertical) ==> (match res {
                HeaderValue::Text(t) => (section == COLUMN_NAME && t@ == "Game"@) || (section
                    == COLUMN_APP_ID && t@ == "App ID"@) || (section == COLUMN_COMPAT_TOOL && t@
                    == "Compatibility Tool"@),
                HeaderValue::Empty => section >= COLUMN_COUNT,
                HeaderValue::Number(_) => false,
            }),
    {
        if role != ROLE_DISPLAY || section < 0 {
            return HeaderValue::Empty;
        }
        if vertical {
            return HeaderValue::Number(section + 1);
        }
        if section == COLUMN_NAME {
            HeaderValue::Text(string_from("Game"))
        } else if section == COLUMN_APP_ID {
            HeaderValue::Text(string_from("App ID"))
        } else if section == COLUMN_COMPAT_TOOL {
            HeaderValue::Text(string_from("Compatibility Tool"))
        } else {
            HeaderValue::Empty
        }
    }

    /// Select `row`, clamping anything that is not `-1` or a valid row to
    /// `-1`, so that a stale row can never select the wrong game.
    pub fn select_row(&mut self, row: i32)
        ensures
            selection_valid(final(self)@),
            running_matches_launches(final(self)@),
            final(self)@.selected_row == clamped_row(row, old(self)@.games.len()),
            final(self)@.games == old(self)@.games,
            final(self)@.status_text == old(self)@.status_text,
            final(self)@.launch_running == old(self)@.launch_running,
            final(self)@.active_launches == old(self)@.active_launches,
            final(self)@.launch_generation == old(self)@.launch_generation,
            final(self)@.load_generation == old(self)@.load_generation,
            final(self)@.remember_last_dir == old(self)@.remember_last_dir,
    {
        proof {
            use_type_invariant(&*self);
        }
        let len = self.games.len() as i32;
        let clamped = if row < -1 || row >= len {
            -1
        } else {
            row
        };
        proof {
            if clamped >= 0 && self.games@.len() <= i32::MAX {
                assert(clamped < self.games@.len());
            }
        }
        self.selected_row = clamped;
    }

    /// The currently selected game, if any.
    pub fn selected_game(&self) -> (res: Option<&Game>)
        ensures
            self@.selected_row < 0 ==> res is None,
            self@.selected_row >= 0 ==> (res matches Some(g) && g@ == self@.games[self@.selected_row]),
    {
        proof {
            use_type_invariant(self);
        }
        if self.selected_row < 0 {
            return None;
        }
        Some(&self.games[self.selected_row as usize])
    }

    /// The Steam App ID at `row`, or `0` when the row is out of range.
    pub fn selected_app_id(&self, row: i32) -> (res: u32)
        ensures
            0 <= row < self@.games.len() ==> res == self@.games[row as int].app_id,
            !(0 <= row < self@.games.len()) ==> res == 0,
    {
        if row < 0 || row as usize >= self.games.len() {
            return 0;
        }
        self.games[row as usize].app_id
    }

    /// The prefix (compatdata) directory of the game at `row`, under the
    /// library it is installed in (the same path a launch uses), or the empty
    /// string when the row is out of range.
    pub fn compat_data_path(&self, row: i32) -> (res: String)
        ensures
            0 <= row < self@.games.len() ==> res@ == compat_data_in(
                self@.games[row as int].library_path,
                self@.games[row as int].app_id,
            ),
            !(0 <= row < self@.games.len()) ==> res@.len() == 0,
    {
        if row < 0 || row as usize >= self.games.len() {
            return String::new();
        }
        let g = &self.games[row as usize];
        compat_data_dir_for(g.library_path.as_str(), g.app_id)
    }

    /// The Proton directory of the game at `row` (empty when unresolved or
    /// when the row is out of range).
    pub fn proton_dir_path(&self, row: i32) -> (res: String)
        ensures
            0 <= row < self@.games.len() ==> res@ == self@.games[row as int].proton_dir,
            !(0 <= row < self@.games.len()) ==> res@.len() == 0,
    {
        if row < 0 || row as usize >= self.games.len() {
            return String::new();
        }
        self.games[row as usize].proton_dir.clone()
    }

    /// Sort the table by `column`, ascending or descending (a stable sort by
    /// [`sort_key_spec`]); a column outside the table leaves it unchanged.
    /// The selected game stays selected at its new row (the first row with
    /// its app id); with no selection, none remains.
    pub fn sort_by(&mut self, column: i32, ascending: bool)
        ensures
            selection_valid(final(self)@),
            running_matches_launches(final(self)@),
            (column < 0 || column >= COLUMN_COUNT) ==> final(self)@ == old(self)@,
            0 <= column < COLUMN_COUNT ==> exists|perm: Seq<int>|
                is_stable_order(column_keys(old(self)@.games, column as int), !ascending, perm)
                    && final(self)@.games == #[trigger] permuted(old(self)@.games, perm),
            0 <= column < COLUMN_COUNT ==> forall|i: int, j: int|
                0 <= i < j < final(self)@.games.len() ==> column_in_order(
                    #[trigger] final(self)@.games[i],
                    #[trigger] final(self)@.games[j],
                    column as int,
                    ascending,
                ),
            0 <= column < COLUMN_COUNT ==> final(self)@.selected_row == (if old(self)@.selected_row
                < 0 {
                -1
            } else {
                found_row(final(self)@.games, old(self)@.games[old(self)@.selected_row].app_id)
            }),
            0 <= column < COLUMN_COUNT && old(self)@.selected_row >= 0 && old(self)@.games.len()
                <= i32::MAX ==> ({
                let after = final(self)@;
                &&& after.selected_row >= 0
                &&& after.games[after.selected_row].app_id == old(
                    self,
                )@.games[old(self)@.selected_row].app_id
            }),
            final(self)@.status_text == old(self)@.status_text,
            final(self)@.launch_running == old(self)@.launch_running,
            final(self)@.active_launches == old(self)@.active_launches,
            final(self)@.launch_generation == old(self)@.launch_generation,
            final(self)@.load_generation == old(self)@.load_generation,
            final(self)@.remember_last_dir == old(self)@.remember_last_dir,
    {
        proof {
            use_type_invariant(&*self);
        }
        if column < 0 || column >= COLUMN_COUNT {
            return;
        }
        let selected_id: Option<u32> = if self.selected_row < 0 {
            None
        } else {
            Some(self.games[self.selected_row as usize].app_id)
        };
        self.selected_row = -1;
        let ghost before = game_views(self.games@);
        let mut games: Vec<Game> = Vec::new();
        std::mem::swap(&mut games, &mut self.games);
        assert(game_views(games@) == before);
        let sorted = sort_games_by_column(games, column, ascending);
        proof {
            assert forall|i: int, j: int| 0 <= i < j < sorted@.len() implies column_in_order(
                #[trigger] game_views(sorted@)[i],
                #[trigger] game_views(sorted@)[j],
                column as int,
                ascending,
            ) by {
                assert(game_views(sorted@)[i] == sorted@[i]@);
                assert(game_views(sorted@)[j] == sorted@[j]@);
            }
        }
        let ghost perm = choose|perm: Seq<int>|
            is_stable_order(column_keys(before, column as int), !ascending, perm)
                && game_views(sorted@) == #[trigger] permuted(before, perm);
        self.games = sorted;
        let new_row: i32 = match selected_id {
            None => -1,
            Some(id) => first_row_with(&self.games, id),
        };
        self.selected_row = new_row;
        proof {
            assert(old(self)@.games == before);
            assert(is_stable_order(column_keys(old(self)@.games, column as int), !ascending, perm)
                && self@.games == permuted(old(self)@.games, perm));
            if old(self)@.selected_row >= 0 && before.len() <= i32::MAX {
                lemma_sort_keeps_game(
                    before,
                    column_keys(before, column as int),
                    !ascending,
                    perm,
                    old(self)@.selected_row,
                );
            }
        }
    }

    /// Start a background load of the games: the status becomes
    /// `Loading games...` and the load generation advances (wrapping); the
    /// returned generation identifies this load, so that the result of an
    /// earlier, superseded load can be recognised and dropped.
    pub fn begin_load(&mut self) -> (res: u64)
        ensures
            selection_valid(final(self)@),
            running_matches_launches(final(self)@),
            res == final(self)@.load_generation,
            final(self)@.load_generation == old(self)@.load_generation.wrapping_add(1),
            final(self)@.status_text == "Loading games..."@,
            final(self)@.games == old(self)@.games,
            final(self)@.selected_row == old(self)@.selected_row,
            final(self)@.launch_running == old(self)@.launch_running,
            final(self)@.active_launches == old(self)@.active_launches,
            final(self)@.launch_generation == old(self)@.launch_generation,
            final(self)@.remember_last_dir == old(self)@.remember_last_dir,
    {
        proof {
            use_type_invariant(&*self);
        }
        self.status_text = string_from("Loading games...");
        self.load_generation = self.load_generation.wrapping_add(1);
        self.load_generation
    }

    /// Deliver the result of the load started with `generation`. A result
    /// from a superseded load (another load began since) is dropped and
    /// changes nothing. Otherwise the table shows the discovered games sorted
    /// by name (a stable sort by the lowercased name), or no games when
    /// discovery failed; the selection is cleared and the status tells the
    /// outcome (see [`load_status`]). Returns whether the result was applied.
    pub fn finish_load(&mut self, generation: u64, result: Result<Vec<Game>, SteamError>) -> (res: bool)
        ensures
            selection_valid(final(self)@),
            running_matches_launches(final(self)@),
            res == (generation == old(self)@.load_generation),
            !res ==> final(self)@ == old(self)@,
            res ==> final(self)@.selected_row == -1,
            res ==> forall|i: int, j: int|
                0 <= i < j < final(self)@.games.len() ==> column_in_order(
                    #[trigger] final(self)@.games[i],
                    #[trigger] final(self)@.games[j],
                    COLUMN_NAME as int,
                    true,
                ),
            res ==> final(self)@.status_text == load_status(result),
            res ==> (match result {
                Ok(gs) => exists|perm: Seq<int>|
                    is_stable_order(column_keys(game_views(gs@), COLUMN_NAME as int), false, perm)
                        && final(self)@.games == #[trigger] permuted(game_views(gs@), perm),
                Err(_) => final(self)@.games.len() == 0,
            }),
            final(self)@.load_generation == old(self)@.load_generation,
            final(self)@.launch_running == old(self)@.launch_running,
            final(self)@.active_launches == old(self)@.active_launches,
            final(self)@.launch_generation == old(self)@.launch_generation,
            final(self)@.remember_last_dir == old(self)@.remember_last_dir,
    {
        proof {
            use_type_invariant(&*self);
        }
        if generation != self.load_generation {
            return false;
        }
        let ghost r0 = result;
        let status = load_status_text(&result);
        self.selected_row = -1;
        match result {
            Ok(gs) => {
                let ghost gv = game_views(gs@);
                let sorted = sort_games_by_column(gs, COLUMN_NAME, true);
                proof {
                    assert forall|i: int, j: int| 0 <= i < j < sorted@.len() implies column_in_order(
                        #[trigger] game_views(sorted@)[i],
                        #[trigger] game_views(sorted@)[j],
                        COLUMN_NAME as int,
                        true,
                    ) by {
                        assert(game_views(sorted@)[i] == sorted@[i]@);
                        assert(game_views(sorted@)[j] == sorted@[j]@);
                    }
                }
                let ghost perm = choose|perm: Seq<int>|
                    is_stable_order(column_keys(gv, COLUMN_NAME as int), false, perm)
                        && game_views(sorted@) == #[trigger] permuted(gv, perm);
                self.games = sorted;
                proof {
                    assert(is_stable_order(column_keys(gv, COLUMN_NAME as int), false, perm)
                        && self@.games == permuted(gv, perm));
                }
            },
            Err(_) => {
                self.games = Vec::new();
            },
        }
        self.status_text = status;
        true
    }

    /// Record that a launch has started: the launch generation advances
    /// (wrapping), one more launch is active (saturating), the table shows a
    /// launch in flight and `status` as its status text. Returns the
    /// generation identifying this launch.
    pub fn launch_started(&mut self, status: String) -> (res: u64)
        ensures
            selection_valid(final(self)@),
            running_matches_launches(final(self)@),
            res == final(self)@.launch_generation,
            final(self)@.launch_generation == old(self)@.launch_generation.wrapping_add(1),
            final(self)@.active_launches == count_after_start(old(self)@.active_launches),
            final(self)@.launch_running,
            final(self)@.status_text == status@,
            final(self)@.games == old(self)@.games,
            final(self)@.selected_row == old(self)@.selected_row,
            final(self)@.load_generation == old(self)@.load_generation,
            final(self)@.remember_last_dir == old(self)@.remember_last_dir,
    {
        proof {
            use_type_invariant(&*self);
        }
        self.launch_generation = self.launch_generation.wrapping_add(1);
        self.active_launches = self.active_launches.saturating_add(1);
        self.status_text = status;
        self.launch_generation
    }

    /// Record that the launch identified by `generation` has ended with
    /// `outcome`, and return the log line for it. One launch fewer is active
    /// (saturating at zero); the launch-in-flight indicator stays on while
    /// any launch is still active; the status text shows the outcome only
    /// when this is the latest launch, so a stale launch cannot overwrite the
    /// status of a newer one.
    pub fn launch_finished(&mut self, generation: u64, outcome: &ExitOutcome) -> (res: String)
        ensures
            selection_valid(final(self)@),
            running_matches_launches(final(self)@),
            res@ == exit_text(*outcome),
            final(self)@.active_launches == count_after_finish(old(self)@.active_launches),
            final(self)@.launch_running == (final(self)@.active_launches > 0),
            generation == old(self)@.launch_generation ==> final(self)@.status_text == res@,
            generation != old(self)@.launch_generation ==> final(self)@.status_text == old(
                self,
            )@.status_text,
            final(self)@.launch_generation == old(self)@.launch_generation,
            final(self)@.games == old(self)@.games,
            final(self)@.selected_row == old(self)@.selected_row,
            final(self)@.load_generation == old(self)@.load_generation,
            final(self)@.remember_last_dir == old(self)@.remember_last_dir,
    {
        proof {
            use_type_invariant(&*self);
        }
        self.active_launches = self.active_launches.saturating_sub(1);
        let finished = exit_message(outcome);
        if generation == self.launch_generation {
            self.status_text = finished.clone();
        }
        finished
    }

    /// What a launch request of the user leads to: the command that runs `arg`
    /// (a built-in tool's argument when `is_tool`, otherwise the path of a
    /// browsed executable) inside the selected game's prefix, or the message
    /// to show instead: `No game selected` without a selection, and the
    /// failure message (see [`launch_failure_text`]) when the game has no
    /// Proton script. `script_is_file`, `home_steam_default` and `in_flatpak`
    /// are what [`prefix_command`] takes for the selected game.
    pub fn launch_command(
        &self,
        arg: &str,
        is_tool: bool,
        script_is_file: bool,
        home_steam_default: Option<&str>,
        in_flatpak: bool,
    ) -> (res: Result<PrefixCommand, String>)
        ensures
            self@.selected_row < 0 ==> (res matches Err(m) && m@ == "No game selected"@),
            self@.selected_row >= 0 ==> {
                let g = self@.games[self@.selected_row];
                &&& res is Err <==> !(g.proton_dir.len() > 0 && script_is_file)
                &&& res matches Err(m) ==> m@ == launch_failure_text(
                    if is_tool {
                        Some(arg@)
                    } else {
                        None
                    },
                    LaunchError::NoProtonDir,
                )
                &&& res matches Ok(c) ==> is_prefix_command(
                    g,
                    seq![arg@],
                    opt_view(home_steam_default),
                    in_flatpak,
                    c,
                )
            },
    {
        let game = match self.selected_game() {
            Some(g) => g,
            None => return Err(string_from("No game selected")),
        };
        let mut args: Vec<String> = Vec::new();
        args.push(string_from(arg));
        assert(string_views(args@) =~= seq![arg@]);
        match prefix_command(game, &args, script_is_file, home_steam_default, in_flatpak) {
            Ok(c) => Ok(c),
            Err(e) => {
                let tool = if is_tool {
                    Some(arg)
                } else {
                    None
                };
                Err(launch_failure_message(tool, &e))
            },
        }
    }

    /// Toggle the "remember last directory" preference; returns the
    /// configuration to persist.
    pub fn apply_remember_last_dir(&mut self, enabled: bool) -> (res: AppConfig)
        ensures
            selection_valid(final(self)@),
            running_matches_launches(final(self)@),
            res.remember_last_dir == enabled,
            final(self)@.remember_last_dir == enabled,
            final(self)@.games == old(self)@.games,
            final(self)@.selected_row == old(self)@.selected_row,
            final(self)@.status_text == old(self)@.status_text,
            final(self)@.launch_running == old(self)@.launch_running,
            final(self)@.active_launches == old(self)@.active_launches,
            final(self)@.launch_generation == old(self)@.launch_generation,
            final(self)@.load_generation == old(self)@.load_generation,
    {
        proof {
            use_type_invariant(&*self);
        }
        self.remember_last_dir = enabled;
        AppConfig { remember_last_dir: enabled }
    }

    /// The state to persist when the user picks a file in `dir` (its raw
    /// bytes): the directory recorded as the last one, or nothing when the
    /// "remember last directory" preference is off.
    pub fn state_to_save(&self, dir: &[u8]) -> (res: Option<AppState>)
        ensures
            !self@.remember_last_dir ==> res is None,
            self@.remember_last_dir ==> (res matches Some(st) && st.last_dir matches Some(s) && s@
                == encoded_dir(dir@)),
    {
        if !self.remember_last_dir {
            return None;
        }
        Some(state_for_dir(dir))
    }
}

/// The status text after a load (see [`load_status`]).
pub fn load_status_text(result: &Result<Vec<Game>, SteamError>) -> (res: String)
    ensures
        res@ == load_status(*result),
        *result matches Ok(gs) ==> (gs@.len() == 0 ==> res@ == "No games found"@),
        *result matches Ok(gs) ==> (gs@.len() == 1 ==> res@ == "1 game loaded"@),
        *result matches Ok(gs) ==> (gs@.len() > 1 ==> res@ == decimal(gs@.len() as nat) + " games loaded"@),
        *result is Err && (*result)->Err_0 is SteamNotFound ==> res@ == "Steam not found"@,
        *result is Err && !((*result)->Err_0 is SteamNotFound) ==> res@ == "Failed to discover games: "@
            + steam_error_text((*result)->Err_0),
{
    match result {
        Ok(gs) => {
            let n = gs.len();
            if n == 0 {
                string_from("No games found")
            } else if n == 1 {
                string_from("1 game loaded")
            } else {
                let mut out = String::new();
                push_decimal(&mut out, n as u64);
                push_str(&mut out, " games loaded");
                out
            }
        },
        Err(SteamError::SteamNotFound) => string_from("Steam not found"),
        Err(e) => {
            let mut out = string_from("Failed to discover games: ");
            let m = e.message();
            push_str(&mut out, m.as_str());
            out
        },
    }
}

} // verus!
