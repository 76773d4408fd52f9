use pass_query::cache::{get_cached_vault, get_current_timestamp, set_cached_vault, timestamp_from, Cache, CachedVault, CACHE_TTL_SECONDS};
use pass_query::models::{ContentDoc, FieldValue, Item, ItemContent, ItemList, ItemView, ItemViewContent, ItemViewItem, LoginFields, Match, Vault, VaultList};
use pass_query::pass_cli::{fetch_vaults, get_item_credentials, list_vault_items, CliError, Outcome};
use pass_query::search::{merge_results, search_cached, search_lowered, search_vault, FanOut, VaultStep, MAX_CONCURRENT};
use pass_query::selection::{candidate_lines, parse_choice, resolve_choice, select_item, SelectError, Selection};

fn text(s: &str) -> Option<FieldValue> {
    Some(FieldValue::Text(s.to_string()))
}

fn login(username: Option<FieldValue>, email: Option<FieldValue>, password: Option<FieldValue>) -> Option<ContentDoc> {
    Some(ContentDoc { login: Some(LoginFields { username, email, password }) })
}

fn live_item(title: &str, user: &str, pass: &str) -> Item {
    Item {
        content: ItemContent { title: title.to_string(), content: login(text(user), None, text(pass)) },
        cached_username: None,
    }
}

fn hit(title: &str, vault: &str, user: Option<&str>) -> Match {
    Match {
        title: title.to_string(),
        vault_name: vault.to_string(),
        username: user.map(|u| u.to_string()),
        password: None,
    }
}

fn entries_named(cache: &Cache, name: &str) -> usize {
    cache.vaults.iter().filter(|v| v.vault_name == name).count()
}

#[test]
fn password_comes_from_login_record() {
    let c = ItemContent { title: "mail".to_string(), content: login(text("bob"), None, text("s3cret")) };
    assert_eq!(c.get_password(), Some("s3cret".to_string()));
    let none = ItemContent { title: "note".to_string(), content: None };
    assert_eq!(none.get_password(), None);
    let no_login = ItemContent { title: "card".to_string(), content: Some(ContentDoc { login: None }) };
    assert_eq!(no_login.get_password(), None);
    let other = ItemContent { title: "x".to_string(), content: login(None, None, Some(FieldValue::Other)) };
    assert_eq!(other.get_password(), None);
}

#[test]
fn empty_password_is_still_a_password() {
    let c = ItemViewContent { content: login(None, None, text("")) };
    assert_eq!(c.get_password(), Some(String::new()));
}

#[test]
fn username_falls_back_to_email() {
    let c = ItemContent { title: "a".to_string(), content: login(text(""), text("a@b.c"), text("p")) };
    assert_eq!(c.get_username(), Some("a@b.c".to_string()));
    let c = ItemContent { title: "a".to_string(), content: login(Some(FieldValue::Other), text("a@b.c"), None) };
    assert_eq!(c.get_username(), Some("a@b.c".to_string()));
    let c = ItemViewContent { content: login(text("alice"), text("a@b.c"), None) };
    assert_eq!(c.get_username(), Some("alice".to_string()));
    let c = ItemViewContent { content: login(text(""), text(""), None) };
    assert_eq!(c.get_username(), None);
}

#[test]
fn item_prefers_cached_username() {
    let mut it = live_item("a", "from-payload", "p");
    assert_eq!(it.get_username(), Some("from-payload".to_string()));
    it.cached_username = Some("kept".to_string());
    assert_eq!(it.get_username(), Some("kept".to_string()));
}

#[test]
fn cache_ttl_boundary() {
    let mut cache = Cache::new();
    let items = ItemList { items: vec![live_item("GitHub", "octo", "pw")] };
    set_cached_vault(&mut cache, "Personal", &items, 1000);
    let early = get_cached_vault(&cache, "Personal", 1000 + CACHE_TTL_SECONDS - 1);
    assert_eq!(early.map(|l| l.items.len()), Some(1));
    assert!(get_cached_vault(&cache, "Personal", 1000 + CACHE_TTL_SECONDS).is_none());
    assert!(get_cached_vault(&cache, "Personal", 5000).is_none());
    assert!(get_cached_vault(&cache, "Work", 1000).is_none());
}

#[test]
fn cache_read_of_empty_cache_misses() {
    let cache = Cache::new();
    assert!(get_cached_vault(&cache, "Personal", 0).is_none());
}

#[test]
fn cache_keeps_no_password() {
    let mut cache = Cache::new();
    let items = ItemList { items: vec![live_item("GitHub", "octo", "hunter2")] };
    set_cached_vault(&mut cache, "Personal", &items, 10);
    let back = get_cached_vault(&cache, "Personal", 10).unwrap();
    let it = &back.items[0];
    assert!(it.content.content.is_none());
    assert_eq!(it.content.get_password(), None);
    assert_eq!(it.content.title, "GitHub");
    assert_eq!(it.cached_username, Some("octo".to_string()));
    assert!(cache.vaults[0].items.items[0].content.content.is_none());
}

#[test]
fn cache_upsert_replaces_entry() {
    let mut cache = Cache::new();
    let first = ItemList { items: vec![live_item("a", "u", "p")] };
    let second = ItemList { items: vec![live_item("b", "u", "p"), live_item("c", "u", "p")] };
    set_cached_vault(&mut cache, "Other", &first, 5);
    set_cached_vault(&mut cache, "Personal", &first, 10);
    set_cached_vault(&mut cache, "Personal", &second, 20);
    assert_eq!(cache.vaults.len(), 2);
    assert_eq!(entries_named(&cache, "Personal"), 1);
    let entry: &CachedVault = cache.vaults.iter().find(|v| v.vault_name == "Personal").unwrap();
    assert_eq!(entry.timestamp, 20);
    assert_eq!(entry.items.items.len(), 2);
    assert_eq!(entry.items.items[0].content.title, "b");
    assert_eq!(cache.vaults[0].vault_name, "Other");
}

#[test]
fn cache_same_snapshot_twice_one_entry() {
    let mut cache = Cache::new();
    let items = ItemList { items: vec![live_item("a", "u", "p")] };
    set_cached_vault(&mut cache, "Personal", &items, 10);
    set_cached_vault(&mut cache, "Personal", &items, 11);
    assert_eq!(cache.vaults.len(), 1);
    assert_eq!(cache.vaults[0].timestamp, 11);
}

#[test]
fn cache_snapshot_from_the_future_is_usable() {
    let mut cache = Cache::new();
    set_cached_vault(&mut cache, "Personal", &ItemList { items: vec![] }, 100);
    assert!(get_cached_vault(&cache, "Personal", 50).is_some());
}

#[test]
fn clock_reads_after_epoch() {
    assert!(get_current_timestamp() > 1_500_000_000);
}

#[test]
fn search_is_case_insensitive() {
    let items = ItemList { items: vec![live_item("GitHub", "octo", "pw"), live_item("Bank", "me", "x"), live_item("github-enterprise", "", "y")] };
    let found = search_vault(&"Work".to_string(), &items, "GITHUB");
    assert_eq!(found.len(), 2);
    assert_eq!(found[0].title, "GitHub");
    assert_eq!(found[0].vault_name, "Work");
    assert_eq!(found[0].username, Some("octo".to_string()));
    assert_eq!(found[0].password, Some("pw".to_string()));
    assert_eq!(found[1].title, "github-enterprise");
    assert_eq!(found[1].username, None);
}

#[test]
fn search_matches_substring_only() {
    let items = ItemList { items: vec![live_item("Mailbox", "u", "p"), live_item("Bank", "u", "p")] };
    assert_eq!(search_vault(&"V".to_string(), &items, "box").len(), 1);
    assert_eq!(search_vault(&"V".to_string(), &items, "xyz").len(), 0);
    assert_eq!(search_vault(&"V".to_string(), &items, "").len(), 2);
}

#[test]
fn search_on_lowered_titles() {
    let items = ItemList { items: vec![live_item("A", "u", "p"), live_item("B", "u", "p")] };
    let titles = vec!["alpha".to_string(), "beta".to_string()];
    let found = search_lowered(&"V".to_string(), &items, &titles, "et");
    assert_eq!(found.len(), 1);
    assert_eq!(found[0].title, "B");
}

#[test]
fn cached_items_give_no_password() {
    let mut cache = Cache::new();
    let items = ItemList { items: vec![live_item("GitHub", "octo", "pw")] };
    set_cached_vault(&mut cache, "V", &items, 0);
    let cached = get_cached_vault(&cache, "V", 1).unwrap();
    let found = search_vault(&"V".to_string(), &cached, "git");
    assert_eq!(found.len(), 1);
    assert_eq!(found[0].password, None);
    assert_eq!(found[0].username, Some("octo".to_string()));
}

#[test]
fn one_failed_vault_keeps_the_others() {
    let results: Vec<Result<Vec<Match>, String>> = vec![
        Ok(vec![hit("a", "V1", None)]),
        Err("boom".to_string()),
        Ok(vec![hit("b", "V3", None), hit("c", "V3", None)]),
    ];
    let (matches, errors) = merge_results(results);
    let titles: Vec<&str> = matches.iter().map(|m| m.title.as_str()).collect();
    assert_eq!(titles, vec!["a", "b", "c"]);
    assert_eq!(errors, vec!["boom".to_string()]);
}

#[test]
fn merge_of_nothing_is_empty() {
    let (matches, errors) = merge_results::<String>(vec![]);
    assert!(matches.is_empty());
    assert!(errors.is_empty());
}

#[test]
fn fan_out_of_25_vaults_keeps_ten_in_flight() {
    let mut s = FanOut::new(25);
    let mut started = Vec::new();
    while let Some(i) = s.start_next() {
        started.push(i);
    }
    assert_eq!(started.len(), MAX_CONCURRENT);
    assert_eq!(s.running(), 10);
    let mut peak = s.running();
    while !s.is_done() {
        s.finish_one();
        while let Some(i) = s.start_next() {
            started.push(i);
        }
        peak = peak.max(s.running());
    }
    assert_eq!(peak, 10);
    assert_eq!(started, (0..25).collect::<Vec<usize>>());
}

#[test]
fn fan_out_of_no_vaults_is_done() {
    let mut s = FanOut::new(0);
    assert!(s.is_done());
    assert_eq!(s.start_next(), None);
}

#[test]
fn select_none_fails() {
    assert!(matches!(select_item(vec![]), Err(SelectError::NoMatches)));
}

#[test]
fn select_one_is_taken() {
    match select_item(vec![hit("only", "V", None)]) {
        Ok(Selection::Picked(m)) => assert_eq!(m.title, "only"),
        _ => panic!("one match must be taken without asking"),
    }
}

#[test]
fn select_two_asks() {
    match select_item(vec![hit("a", "V", None), hit("b", "W", None)]) {
        Ok(Selection::Choose(ms)) => assert_eq!(ms.len(), 2),
        _ => panic!("two matches must go to the picker"),
    }
}

#[test]
fn picker_lines() {
    let ms = vec![hit("GitHub", "Work", Some("octo")), hit("Bank", "Home", None)];
    assert_eq!(candidate_lines(&ms), "0|[Work] GitHub \u{2014} octo\n1|[Home] Bank \u{2014} (no username)");
    assert_eq!(candidate_lines(&vec![]), "");
}

#[test]
fn picker_lines_number_past_nine() {
    let ms: Vec<Match> = (0..12).map(|i| hit(&format!("t{}", i), "V", None)).collect();
    let text = candidate_lines(&ms);
    let last = text.lines().last().unwrap();
    assert_eq!(last, "11|[V] t11 \u{2014} (no username)");
}

#[test]
fn picker_answer_parsing() {
    assert_eq!(parse_choice("1|[Home] Bank \u{2014} (no username)\n"), Some(1));
    assert_eq!(parse_choice("  12 |x"), Some(12));
    assert_eq!(parse_choice("7"), Some(7));
    assert_eq!(parse_choice(""), None);
    assert_eq!(parse_choice("|x"), None);
    assert_eq!(parse_choice("1a|x"), None);
    assert_eq!(parse_choice("-1|x"), None);
    assert_eq!(parse_choice("99999999999999999999999|x"), None);
}

#[test]
fn picker_choice_maps_back() {
    let ms = vec![hit("a", "V", None), hit("b", "V", None), hit("c", "W", None)];
    let lines = candidate_lines(&ms);
    let chosen = lines.lines().nth(2).unwrap().to_string() + "\n";
    let m = resolve_choice(ms, Some(chosen.as_str())).ok().unwrap();
    assert_eq!(m.title, "c");
    assert_eq!(m.vault_name, "W");
}

#[test]
fn picker_cancel_and_bad_answers() {
    let ms = || vec![hit("a", "V", None), hit("b", "V", None)];
    assert!(matches!(resolve_choice(ms(), None), Err(SelectError::Cancelled)));
    assert!(matches!(resolve_choice(ms(), Some("5|x")), Err(SelectError::InvalidChoice)));
    assert!(matches!(resolve_choice(ms(), Some("junk")), Err(SelectError::InvalidChoice)));
}

#[test]
fn vault_listing_failures_are_errors() {
    assert!(matches!(fetch_vaults(Outcome::Failed("denied".to_string())), Err(CliError::CommandFailed(m)) if m == "denied"));
    assert!(matches!(fetch_vaults(Outcome::Malformed), Err(CliError::InvalidOutput)));
    let list = VaultList { vaults: vec![Vault { name: "V".to_string(), vault_id: "1".to_string(), share_id: "2".to_string() }] };
    let got = fetch_vaults(Outcome::Parsed(list)).ok().unwrap();
    assert_eq!(got.vaults[0].name, "V");
}

#[test]
fn item_listing_failure_is_empty_vault() {
    let got = list_vault_items(Outcome::Failed("no access".to_string())).ok().unwrap();
    assert!(got.items.is_empty());
    assert!(matches!(list_vault_items(Outcome::Malformed), Err(CliError::InvalidOutput)));
    let got = list_vault_items(Outcome::Parsed(ItemList { items: vec![live_item("a", "u", "p")] })).ok().unwrap();
    assert_eq!(got.items.len(), 1);
}

#[test]
fn credentials_from_fresh_view() {
    let view = ItemView { item: ItemViewItem { content: ItemViewContent { content: login(text(""), text("me@x.y"), text("pw")) } } };
    let (user, pass) = get_item_credentials(Outcome::Parsed(view)).ok().unwrap();
    assert_eq!(user, Some("me@x.y".to_string()));
    assert_eq!(pass, "pw");
}

#[test]
fn credentials_without_password_fail() {
    let view = ItemView { item: ItemViewItem { content: ItemViewContent { content: login(text("u"), None, None) } } };
    assert!(matches!(get_item_credentials(Outcome::Parsed(view)), Err(CliError::NoPassword)));
    assert!(matches!(get_item_credentials(Outcome::Failed("gone".to_string())), Err(CliError::CommandFailed(_))));
    assert!(matches!(get_item_credentials(Outcome::Malformed), Err(CliError::InvalidOutput)));
}

#[test]
fn timestamp_of_clock_reading() {
    assert_eq!(timestamp_from(Some(1_700_000_000)), 1_700_000_000);
    assert_eq!(timestamp_from(None), 0);
}

#[test]
fn picker_answer_trims_all_white_space() {
    assert_eq!(parse_choice("\u{0C}1|x"), Some(1));
    assert_eq!(parse_choice("\u{A0}3\u{3000}|x"), Some(3));
    assert_eq!(parse_choice("\u{2003}\u{0B}4\u{85}"), Some(4));
    assert_eq!(parse_choice("\u{200B}4|x"), None);
}

#[test]
fn picker_answer_takes_one_plus_sign() {
    assert_eq!(parse_choice("+2|x"), Some(2));
    assert_eq!(parse_choice(" +2 |x"), Some(2));
    assert_eq!(parse_choice("+|x"), None);
    assert_eq!(parse_choice("++2|x"), None);
    assert_eq!(parse_choice("+ 2|x"), None);
}

#[test]
fn picker_form_feed_answer_maps_back() {
    let ms = vec![hit("a", "V", None), hit("b", "W", None)];
    let m = resolve_choice(ms, Some("\u{0C}1|x")).ok().unwrap();
    assert_eq!(m.title, "b");
}

#[test]
fn empty_query_matches_every_item() {
    let items = ItemList { items: vec![live_item("One", "u", "p"), live_item("Two", "v", "q"), live_item("", "w", "r")] };
    let found = search_vault(&"V".to_string(), &items, "");
    let titles: Vec<&str> = found.iter().map(|m| m.title.as_str()).collect();
    assert_eq!(titles, vec!["One", "Two", ""]);
}

#[test]
fn cached_step_uses_fresh_snapshot() {
    let mut cache = Cache::new();
    let items = ItemList { items: vec![live_item("GitHub", "octo", "pw"), live_item("Bank", "me", "x")] };
    set_cached_vault(&mut cache, "V", &items, 100);
    match search_cached(&cache, &"V".to_string(), "HUB", 150) {
        VaultStep::Found(ms) => {
            assert_eq!(ms.len(), 1);
            assert_eq!(ms[0].title, "GitHub");
            assert_eq!(ms[0].username, Some("octo".to_string()));
            assert_eq!(ms[0].password, None);
        }
        VaultStep::NeedListing => panic!("a fresh snapshot must be used"),
    }
}

#[test]
fn cached_step_asks_for_listing_when_stale_or_absent() {
    let mut cache = Cache::new();
    set_cached_vault(&mut cache, "V", &ItemList { items: vec![live_item("a", "u", "p")] }, 100);
    assert!(matches!(search_cached(&cache, &"V".to_string(), "a", 100 + CACHE_TTL_SECONDS), VaultStep::NeedListing));
    assert!(matches!(search_cached(&cache, &"W".to_string(), "a", 100), VaultStep::NeedListing));
}
