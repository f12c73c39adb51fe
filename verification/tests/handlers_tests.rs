use crowbar::handlers::{
    ActionId, ActionItem, GoogleHandler, DuckDuckGoHandler, PerplexityHandler, YandexHandler,
    UrlHandler, UrlHandlerFactory, matches_action_id, merge_with_fallbacks,
};
use crowbar::history::{
    HistoryEntry, deduplicate_entries, HistoryCache, BrowserHistoryHandler, BrowserType,
    InstallType, get_install_prefix, build_browser_paths, browser_type_to_string,
    firefox_history_query, chromium_history_query, supported_install_types,
};
use crowbar::commands::{CommandRegistry, mode_of_query, ItemMode};
use crowbar::store::ActionStore;
use crowbar::config::Color;
use crowbar::scan::{classify_executable, strip_field_codes, expand_tilde, get_additional_paths, FileType};

fn entry(title: &str, url: &str, visits: i64, last: i64) -> HistoryEntry {
    HistoryEntry {
        title: title.to_string(),
        url: url.to_string(),
        visit_count: visits,
        last_visit: last,
    }
}

#[test]
fn duplicate_urls_keep_the_later_visit() {
    let merged = deduplicate_entries(vec![
        entry("Docs from chrome", "https://docs.example", 3, 100),
        entry("Docs from firefox", "https://docs.example", 9, 250),
        entry("Other", "https://other.example", 1, 50),
    ]);
    assert_eq!(merged.len(), 2);
    assert_eq!(merged[0].url, "https://docs.example");
    assert_eq!(merged[0].last_visit, 250);
    assert_eq!(merged[0].title, "Docs from firefox");
    assert_eq!(merged[1].url, "https://other.example");
}

#[test]
fn history_cache_serves_only_fresh_empty_queries() {
    let mut cache = HistoryCache::new();
    assert!(!cache.is_fresh(1000));
    let first = BrowserHistoryHandler::get_history_entries_for_query(
        &mut cache,
        "",
        vec![entry("A", "https://a.example", 1, 10)],
        1000,
    );
    assert_eq!(first.len(), 1);
    assert!(cache.is_fresh(1002));
    // a fresh read ignores what the collector brought
    let second = BrowserHistoryHandler::get_history_entries_for_query(
        &mut cache,
        "",
        Vec::new(),
        1002,
    );
    assert_eq!(second.len(), 1);
    // five minutes later the cache is stale again
    assert!(!cache.is_fresh(1005));
}

#[test]
fn fallbacks_always_come_last() {
    let normal = vec![ActionItem::new(
        ActionId::Builtin("url-open"),
        "Open URL".to_string(),
        "URL Handler".to_string(),
        1,
        10,
        false,
    )];
    let fallback = vec![ActionItem::new(
        ActionId::Builtin("google-search"),
        "Google Search".to_string(),
        "Search Engine".to_string(),
        1_000_000,
        1,
        true,
    )];
    let merged = merge_with_fallbacks(normal, fallback);
    assert_eq!(merged.len(), 2);
    assert!(!merged[0].is_fallback);
    assert!(merged[1].is_fallback);
    assert!(merged[1].relevance() > merged[0].relevance());
}

#[test]
fn search_urls_are_percent_encoded() {
    assert_eq!(
        GoogleHandler.search_url("rust lang"),
        "https://www.google.com/search?q=rust%20lang"
    );
    assert_eq!(DuckDuckGoHandler.search_url("a&b"), "https://duckduckgo.com/?q=a%26b");
    assert_eq!(PerplexityHandler.search_url("x"), "https://www.perplexity.ai/?q=x");
    assert_eq!(YandexHandler.search_url("x y"), "https://yandex.com/search/?text=x%20y");
}

#[test]
fn handler_identities() {
    assert_eq!(GoogleHandler.get_name(), "Google Search");
    assert!(GoogleHandler.is_fallback());
    assert!(!DuckDuckGoHandler.is_fallback());
    assert!(!YandexHandler.is_fallback());
    assert!(GoogleHandler.accepts("x"));
    assert!(!GoogleHandler.accepts(""));
    assert_eq!(UrlHandler.get_name(), "Open URL");
    assert!(matches_action_id(&GoogleHandler.get_id(), &ActionId::Builtin("google-search")));
    assert!(!matches_action_id(&ActionId::Builtin("a"), &ActionId::Dynamic(1)));
    assert!(matches_action_id(&ActionId::Dynamic(7), &ActionId::Dynamic(7)));
    assert_eq!(ActionId::Dynamic(42).as_str(), "42");
    assert_eq!(ActionId::Builtin("url-open").as_str(), "url-open");
}

#[test]
fn url_factory_accepts_only_parsable_urls() {
    let f = UrlHandlerFactory;
    assert!(f.accepts_query("https://example.com"));
    assert!(!f.accepts_query("just words"));
    assert!(!f.accepts_query(""));
}

#[test]
fn item_relevance_saturates() {
    let it = ActionItem::new(
        ActionId::Dynamic(1),
        "x".to_string(),
        "".to_string(),
        u64::MAX,
        3,
        false,
    );
    assert_eq!(it.relevance(), u64::MAX);
}

#[test]
fn commands_flip_handler_enablement() {
    let mut store = ActionStore::new();
    store.register_handler("google-search");
    let reg = CommandRegistry::new();
    assert_eq!(reg.get_command_list(), vec!["disable".to_string(), "enable".to_string()]);
    let r = reg.execute_command(&mut store, ":disable google-search");
    assert!(r.success);
    assert!(!store.is_handler_enabled("google-search"));
    let r2 = reg.execute_command(&mut store, ":enable google-search");
    assert!(r2.success);
    assert!(store.is_handler_enabled("google-search"));
    let bad = reg.execute_command(&mut store, ":frobnicate thing");
    assert!(!bad.success);
    let missing = reg.execute_command(&mut store, ":disable");
    assert!(!missing.success);
    assert_eq!(mode_of_query(":disable x"), ItemMode::Command);
    assert_eq!(mode_of_query("firefox"), ItemMode::Action);
}

#[test]
fn colors_round_trip_and_reject_garbage() {
    let c = Color::new(0xcd, 0xd6, 0xf4);
    assert_eq!(c.to_hex(), "#cdd6f4");
    assert_eq!(Color::from_hex("#cdd6f4").unwrap(), c);
    assert_eq!(Color::from_hex("CDD6F4").unwrap(), c);
    assert!(Color::from_hex("#12345").is_err());
    assert!(Color::from_hex("zzzzzz").is_err());
}

#[test]
fn magic_numbers_classify_files() {
    assert_eq!(classify_executable(&vec![0x7f, 0x45, 0x4c, 0x46]), FileType::Elf);
    assert_eq!(classify_executable(&vec![0xfe, 0xed, 0xfa, 0xce]), FileType::MachO);
    assert_eq!(classify_executable(&vec![0xfe, 0xed, 0xfa, 0xcf]), FileType::MachO);
    assert_eq!(classify_executable(&vec![0x23, 0x21, 0x2f, 0x62]), FileType::Script);
    assert_eq!(classify_executable(&vec![0x00, 0x01]), FileType::Other);
    assert_eq!(classify_executable(&Vec::new()), FileType::Other);
}

#[test]
fn field_codes_are_stripped() {
    assert_eq!(strip_field_codes("firefox %u"), "firefox");
    assert_eq!(strip_field_codes("app %F --flag %i"), "app  --flag");
    assert_eq!(strip_field_codes("plain"), "plain");
}

#[test]
fn tilde_and_extra_paths() {
    assert_eq!(expand_tilde("~/bin", "/home/u"), "/home/u/bin");
    assert_eq!(expand_tilde("/snap/bin/", "/home/u"), "/snap/bin/");
    let paths = get_additional_paths("/home/u");
    assert_eq!(paths, vec![
        "/home/u/.local/bin".to_string(),
        "/home/u/bin".to_string(),
        "/snap/bin/".to_string(),
    ]);
}

#[test]
fn browser_paths_follow_install_layout() {
    assert_eq!(get_install_prefix(InstallType::Standard, BrowserType::Chrome), "");
    assert_eq!(
        get_install_prefix(InstallType::Snap, BrowserType::Firefox),
        "snap/firefox/common"
    );
    assert_eq!(get_install_prefix(InstallType::Snap, BrowserType::Brave), "snap/brave/current");
    assert_eq!(
        get_install_prefix(InstallType::Flatpak, BrowserType::Chrome),
        ".var/app/com.google.Chrome"
    );
    let its = supported_install_types(BrowserType::Firefox);
    let paths = build_browser_paths("/home/u", BrowserType::Firefox, &its);
    assert_eq!(paths, vec![
        "/home/u/.mozilla/firefox".to_string(),
        "/home/u/snap/firefox/common/.mozilla/firefox".to_string(),
        "/home/u/.var/app/org.mozilla.firefox/.mozilla/firefox".to_string(),
    ]);
    assert_eq!(supported_install_types(BrowserType::OperaDeveloper).len(), 1);
    assert_eq!(browser_type_to_string(BrowserType::OperaDeveloper), "Opera Developer");
}

#[test]
fn history_queries_filter_by_term_only_when_given() {
    let plain = firefox_history_query("");
    assert!(!plain.contains("p.title LIKE '%"));
    assert!(plain.ends_with("LIMIT 5"));
    let filtered = firefox_history_query("rust");
    assert!(filtered.contains("AND (p.title LIKE '%rust%' OR p.url LIKE '%rust%')"));
    let chromium = chromium_history_query("rust");
    assert!(chromium.contains("AND (title LIKE '%rust%' OR url LIKE '%rust%')"));
    assert!(chromium.contains("FROM urls"));
}
