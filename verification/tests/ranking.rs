use crowbar::store::ActionStore;
use crowbar::rank::{
    get_actions_filtered, get_popular_actions, combined_relevance, ExecutableType,
};
use crowbar::score::{decay, popularity, hour_of};
use crowbar::matching::{match_quality_chars, generate_trigrams, token_sum_chars, split_tokens};
use crowbar::scan::{ActionScanner, FileInfo, FileType, parse_desktop_file};

fn chars(s: &str) -> Vec<char> {
    s.chars().collect()
}

// A timestamp whose local hour of day is 14: minutes are folded to
// hours by division, so any multiple of 60 with quotient 14 mod 24 works.
const HOUR14: u64 = (24 * 1000 + 14) * 60;

#[test]
fn decay_is_full_when_fresh_and_halves_after_a_day() {
    let now = 10_000_000;
    assert_eq!(decay(now, now), 1000);
    assert_eq!(decay(now, now - 1440), 500);
    assert_eq!(decay(now, now - 3 * 1440), 250);
    assert_eq!(decay(now, 0), 0);
}

#[test]
fn popularity_applies_hour_bonus_and_kind_multiplier() {
    assert_eq!(popularity(1000, 0, false), 1000);
    assert_eq!(popularity(1000, 2, false), 2000);
    assert_eq!(popularity(1000, 0, true), 1100);
    assert_eq!(hour_of(HOUR14), 14);
}

#[test]
fn relevance_formula_exact_value() {
    // base 1000, exact match, one token contained at the very start:
    // 1000 * 100 * (10 + 15) / 10
    assert_eq!(combined_relevance(1000, 100, 1, 15), 250_000);
    // same base and tokens, prefix tier
    assert_eq!(combined_relevance(1000, 50, 1, 15), 125_000);
}

#[test]
fn higher_base_outranks_within_a_tier() {
    assert!(combined_relevance(2000, 50, 1, 10) > combined_relevance(1000, 50, 1, 10));
}

#[test]
fn match_tiers_have_their_values() {
    assert_eq!(match_quality_chars(&chars("firefox"), &chars("firefox")), 100);
    assert_eq!(match_quality_chars(&chars("firefox"), &chars("fire")), 50);
    assert_eq!(match_quality_chars(&chars("firefox"), &chars("refo")), 10);
    assert_eq!(match_quality_chars(&chars("firefox"), &chars("gimp")), 1);
}

#[test]
fn token_points_reward_word_starts() {
    let toks = split_tokens(&chars("gimp editor"));
    // "gimp" starts the name (15), "editor" starts a word (13)
    assert_eq!(token_sum_chars(&chars("gimp image editor"), &toks), 28);
}

#[test]
fn trigrams_of_short_and_long_strings() {
    let t = generate_trigrams(&chars("gimp"));
    assert_eq!(t.len(), 2);
    assert_eq!(t[0], chars("gim"));
    assert_eq!(t[1], chars("imp"));
    let s = generate_trigrams(&chars("ab"));
    assert_eq!(s.len(), 1);
    assert_eq!(s[0], chars("ab"));
}

#[test]
fn empty_query_ranks_by_base_score() {
    let mut store = ActionStore::new();
    let quiet = store.insert_program("quiet", "/bin/quiet");
    let busy = store.insert_program("busy", "/bin/busy");
    let now = 20_000_000;
    store.log_execution_at(&busy.to_string(), now - 10);
    store.log_execution_at(&busy.to_string(), now - 20);
    store.log_execution_at(&quiet.to_string(), now - 5000);
    let r = get_popular_actions(&store, now);
    assert_eq!(r.len(), 2);
    assert_eq!(r[0].name, "busy");
    assert_eq!(r[1].name, "quiet");
    assert!(r[0].relevance > r[1].relevance);
}

#[test]
fn empty_query_breaks_ties_by_name() {
    let mut store = ActionStore::new();
    store.insert_program("zsh", "/bin/zsh");
    store.insert_program("awk", "/bin/awk");
    let r = get_actions_filtered(&store, "  ", 1000);
    assert_eq!(r.len(), 2);
    assert_eq!(r[0].name, "awk");
    assert_eq!(r[1].name, "zsh");
}

#[test]
fn prefix_match_is_found_with_its_payload() {
    let mut store = ActionStore::new();
    store.insert_program("ls", "/usr/bin/ls");
    store.insert_desktop("Firefox", "firefox", true);
    let r = get_actions_filtered(&store, "fire", 1000);
    assert_eq!(r.len(), 1);
    assert_eq!(r[0].name, "Firefox");
    match &r[0].executable_type {
        ExecutableType::Application(cmd) => assert_eq!(cmd, "firefox"),
        ExecutableType::Binary(_) => panic!("expected a desktop payload"),
    }
}

#[test]
fn scan_then_query_scenario() {
    let mut store = ActionStore::new();
    assert!(ActionScanner::needs_scan(&store));
    let execs = vec![FileInfo {
        name: "ls".to_string(),
        path: "/usr/bin/ls".to_string(),
        file_type: FileType::Elf,
    }];
    let text: Vec<String> = [
        "[Desktop Entry]",
        "Type=Application",
        "Name=Firefox",
        "Exec=firefox %u",
        "Categories=Network;WebBrowser;",
    ]
        .iter()
        .map(|s| s.to_string())
        .collect();
    let entry = parse_desktop_file(&text, "firefox.desktop").expect("entry");
    assert!(entry.takes_args);
    let entries = vec![entry];
    ActionScanner::scan_system(&mut store, &execs, &entries);
    assert!(!ActionScanner::needs_scan(&store));
    let r = get_actions_filtered(&store, "fire", 1000);
    assert_eq!(r.len(), 1);
    assert_eq!(r[0].name, "Firefox");
    assert_eq!(match_quality_chars(&chars("firefox"), &chars("fire")), 50);
    // the firefox row kept its accepts-arguments flag
    let d = &store.desktops()[0];
    assert!(d.accepts_args);
}

#[test]
fn fuzzy_tier_catches_reordered_words() {
    let mut store = ActionStore::new();
    store.insert_desktop("GIMP Image Editor", "gimp", false);
    // no direct match: "gimp editor" is not a substring of the name
    let r = get_actions_filtered(&store, "gimp editor", 1000);
    assert_eq!(r.len(), 1);
    assert_eq!(r[0].name, "GIMP Image Editor");
    // while an unrelated query stays empty
    let none = get_actions_filtered(&store, "spreadsheet", 1000);
    assert!(none.is_empty());
}

#[test]
fn hour_of_day_bonus_beats_spread_executions() {
    let mut store_a = ActionStore::new();
    let mut store_b = ActionStore::new();
    let now = HOUR14;
    // three runs at hour fourteen
    store_a.log_execution_at("42", now);
    store_a.log_execution_at("42", now);
    store_a.log_execution_at("42", now);
    // three runs spread across hours 2, 9 and 20 of the previous day
    store_b.log_execution_at("42", now - 12 * 60);
    store_b.log_execution_at("42", now - 5 * 60);
    store_b.log_execution_at("42", now - 18 * 60);
    let (score_a, count_a) = store_a.get_action_relevance("42", now);
    let (score_b, count_b) = store_b.get_action_relevance("42", now);
    assert_eq!(count_a, 3);
    assert_eq!(count_b, 3);
    assert!(score_a > score_b);
}

#[test]
fn results_cap_at_ten() {
    let mut store = ActionStore::new();
    for i in 0..15 {
        store.insert_program(&format!("tool{:02}", i), &format!("/bin/tool{:02}", i));
    }
    let r = get_actions_filtered(&store, "tool", 1000);
    assert_eq!(r.len(), 10);
}

#[test]
fn single_id_relevance_applies_the_desktop_multiplier() {
    let mut desktop_store = ActionStore::new();
    let did = desktop_store.insert_desktop("Files", "nautilus", false);
    let mut program_store = ActionStore::new();
    let pid = program_store.insert_program("ls", "/usr/bin/ls");
    let now = 30_000_000;
    desktop_store.log_execution_at(&did.to_string(), now);
    program_store.log_execution_at(&pid.to_string(), now);
    // one fresh run at the matching hour: base 1000, bonus (2+1)/2
    let (dscore, dcount) = desktop_store.get_action_relevance(&did.to_string(), now);
    let (pscore, pcount) = program_store.get_action_relevance(&pid.to_string(), now);
    assert_eq!(pscore, 1500);
    assert_eq!(dscore, 1650);
    assert_eq!(dcount, 1);
    assert_eq!(pcount, 1);
    // builtin string keys never get the multiplier
    let mut builtin = ActionStore::new();
    builtin.log_execution_at("google-search", now);
    let (bscore, _c) = builtin.get_action_relevance("google-search", now);
    assert_eq!(bscore, 1500);
}
