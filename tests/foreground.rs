use fas_rs::config::Config;
use fas_rs::foreground::{focusable_packages_in, pick_game, resolve};
use fas_rs::game_list::GameList;

fn window(pkg: &str, keys: bool) -> String {
    format!(
        "  Window #0 Window{{1a2b u0 {pkg}/.Main}}:\n    mOwnerUid=10123 showForAllUsers=false package={pkg} appop=NONE\n    isOnScreen=true isVisible=true canReceiveKeys()={keys}\n"
    )
}

fn one_game() -> GameList {
    let mut list = GameList::new();
    list.insert("com.example.game".to_string(), 60);
    list
}

#[test]
fn lookup_finds_focused_configured_game() {
    let dump = window("com.example.game", true);
    assert_eq!(
        resolve(&one_game(), &dump),
        Some(("com.example.game".to_string(), 60))
    );
}

#[test]
fn pick_game_from_candidate_set() {
    let cands = vec!["com.example.game".to_string()];
    assert_eq!(
        pick_game(&one_game(), &cands),
        Some(("com.example.game".to_string(), 60))
    );
}

#[test]
fn pick_game_takes_first_configured_candidate() {
    let mut list = one_game();
    list.insert("com.second.game".to_string(), 120);
    let cands = vec![
        "com.other.app".to_string(),
        "com.second.game".to_string(),
        "com.example.game".to_string(),
    ];
    assert_eq!(
        pick_game(&list, &cands),
        Some(("com.second.game".to_string(), 120))
    );
}

#[test]
fn no_match_for_other_app() {
    let dump = window("com.other.app", true);
    assert_eq!(resolve(&one_game(), &dump), None);
    let cands = vec!["com.other.app".to_string()];
    assert_eq!(pick_game(&one_game(), &cands), None);
}

#[test]
fn no_match_for_empty_candidates() {
    assert_eq!(pick_game(&one_game(), &Vec::new()), None);
    assert_eq!(resolve(&one_game(), ""), None);
}

#[test]
fn unfocused_window_is_not_a_candidate() {
    let dump = window("com.example.game", false);
    assert!(focusable_packages_in(&dump).is_empty());
    assert_eq!(resolve(&one_game(), &dump), None);
}

#[test]
fn command_failure_gives_absence() {
    let mut config = Config::new();
    config.replace_all(one_game());
    assert_eq!(config.cur_game_fps(None), None);
}

#[test]
fn config_answers_from_published_mapping() {
    let mut config = Config::new();
    let dump = window("com.example.game", true);
    assert_eq!(config.cur_game_fps(Some(&dump)), None);
    config.replace_all(one_game());
    assert_eq!(
        config.cur_game_fps(Some(&dump)),
        Some(("com.example.game".to_string(), 60))
    );
}

#[test]
fn unmatched_package_markers_give_empty_set() {
    let dump = format!(
        "{}    mOwnerUid=1 showForAllUsers=false package=com.extra.app appop=NONE\n",
        window("com.example.game", true)
    );
    assert!(focusable_packages_in(&dump).is_empty());
    assert_eq!(resolve(&one_game(), &dump), None);
}

#[test]
fn unmatched_key_markers_give_empty_set() {
    let dump = format!("{}    canReceiveKeys()=true\n", window("com.example.game", true));
    assert!(focusable_packages_in(&dump).is_empty());
}

#[test]
fn package_line_without_third_token_gives_empty_set() {
    let dump = "  package=com.example.game\n  canReceiveKeys()=true\n";
    assert!(focusable_packages_in(dump).is_empty());
}

#[test]
fn third_token_without_equals_gives_empty_set() {
    let dump = "a b com.example.game package=x\n  canReceiveKeys()=true\n";
    assert!(focusable_packages_in(dump).is_empty());
}

#[test]
fn windows_pair_up_in_order() {
    let dump = format!(
        "{}{}{}",
        window("com.a", false),
        window("com.b", true),
        window("com.c", true)
    );
    let mut got = focusable_packages_in(&dump);
    got.sort();
    assert_eq!(got, vec!["com.b".to_string(), "com.c".to_string()]);
}

#[test]
fn duplicate_packages_are_collapsed() {
    let dump = format!(
        "{}{}",
        window("com.example.game", true),
        window("com.example.game", true)
    );
    assert_eq!(
        focusable_packages_in(&dump),
        vec!["com.example.game".to_string()]
    );
}

#[test]
fn package_stops_at_next_equals() {
    let dump = "x y package=com.game=extra z\ncanReceiveKeys()=true\n";
    assert_eq!(focusable_packages_in(dump), vec!["com.game".to_string()]);
}

#[test]
fn crlf_lines_and_tabs_are_handled() {
    let dump = "x\ty   package=com.game\r\n canReceiveKeys()=true\r\n";
    assert_eq!(focusable_packages_in(dump), vec!["com.game".to_string()]);
}

#[test]
fn unicode_whitespace_separates_tokens() {
    let dump = "x\u{3000}y\u{a0}package=com.game\ncanReceiveKeys()=true";
    assert_eq!(focusable_packages_in(dump), vec!["com.game".to_string()]);
}

#[test]
fn one_line_with_both_markers() {
    let dump = "a b package=com.game canReceiveKeys()=true";
    assert_eq!(focusable_packages_in(dump), vec!["com.game".to_string()]);
}

#[test]
fn empty_package_name_is_kept() {
    let dump = "a b package= \ncanReceiveKeys()=true\n";
    assert_eq!(focusable_packages_in(dump), vec![String::new()]);
}

#[test]
fn config_no_match_for_other_app() {
    let mut config = Config::new();
    config.replace_all(one_game());
    let dump = window("com.other.app", true);
    assert_eq!(config.cur_game_fps(Some(&dump)), None);
    assert_eq!(config.cur_game_fps(Some("")), None);
}
