use search_launcher::config::OpenersConfig;
use search_launcher::controller::{Action, Mode, Request, Session, MAX_ROWS};
use search_launcher::dispatch::{file_extension, open_command, parse_exec_line, web_search_url};
use search_launcher::icon::{resolve_icon, IconSource};
use search_launcher::search::{get_files, search_apps, AppFile, IconDescriptor, SearchResult, WalkEntry};
use search_launcher::text::{compare_chars, contains_chars, replace_all, split_words, starts_with_chars};

fn chars(s: &str) -> Vec<char> {
    s.chars().collect()
}

fn app(name: &str, dir: &str) -> AppFile {
    AppFile { file_name: name.to_string(), path: format!("{}/{}", dir, name) }
}

fn walk(name: &str, path: &str, is_file: bool) -> WalkEntry {
    WalkEntry { file_name: name.to_string(), path: path.to_string(), is_file }
}

fn result(label: &str, path: &str) -> SearchResult {
    SearchResult { label: label.to_string(), path: path.to_string(), icon: IconDescriptor::Fallback }
}

fn sample_config() -> OpenersConfig {
    let mut c = OpenersConfig::new();
    c.insert_opener("txt".to_string(), "edit {file}".to_string());
    c.app_dirs.push("/apps".to_string());
    c
}

#[test]
fn app_search_prefix_ignoring_case() {
    let listing = vec![
        app("firefox.desktop", "/apps"),
        app("Firefox-dev.desktop", "/apps"),
        app("thunderbird.desktop", "/apps"),
        app("firewall.txt", "/apps"),
        app("myfirefox.desktop", "/apps"),
    ];
    let r = search_apps("FiRe", &listing);
    let labels: Vec<&str> = r.iter().map(|x| x.label.as_str()).collect();
    assert_eq!(labels, vec!["firefox", "Firefox-dev"]);
    assert_eq!(r[0].path, "/apps/firefox.desktop");
    assert!(r.iter().all(|x| matches!(x.icon, IconDescriptor::Fallback)));
}

#[test]
fn app_search_keeps_scan_order_and_duplicates_across_dirs() {
    let listing = vec![app("zed.desktop", "/a"), app("zed.desktop", "/b"), app("zeal.desktop", "/a")];
    let r = search_apps("ze", &listing);
    let paths: Vec<&str> = r.iter().map(|x| x.path.as_str()).collect();
    assert_eq!(paths, vec!["/a/zed.desktop", "/b/zed.desktop", "/a/zeal.desktop"]);
}

#[test]
fn app_search_matcher_accepts_every_descriptor_for_empty_text() {
    let listing = vec![app("a.desktop", "/apps"), app("b.desktop", "/apps"), app("c.png", "/apps")];
    assert_eq!(search_apps("", &listing).len(), 2);
}

#[test]
fn empty_text_requests_no_search() {
    let mut s = Session::new();
    s.show_results(vec![result("x", "/x")]);
    let r = s.text_changed("");
    assert!(matches!(r, Request::Clear));
    assert!(s.results.is_empty());
    assert_eq!(s.selected, 0);
    assert!(!s.shows_placeholder());
}

#[test]
fn text_change_requests_search_in_current_mode() {
    let mut s = Session::new();
    match s.text_changed("fire") {
        Request::Search { mode, query } => {
            assert_eq!(mode, Mode::Apps);
            assert_eq!(query, "fire");
        }
        Request::Clear => panic!("expected a search"),
    }
    assert!(s.shows_placeholder());
}

#[test]
fn file_search_substring_ignoring_case_regular_files_only() {
    let entries = vec![
        walk("home", "/home/u", false),
        walk("MyNotes.TXT", "/home/u/MyNotes.TXT", true),
        walk("notes", "/home/u/notes", false),
        walk("other.txt", "/home/u/other.txt", true),
        walk("footnotes.md", "/home/u/doc/footnotes.md", true),
    ];
    let r = get_files("NOTE", &entries);
    let paths: Vec<&str> = r.iter().map(|x| x.path.as_str()).collect();
    assert_eq!(paths, vec!["/home/u/MyNotes.TXT", "/home/u/doc/footnotes.md"]);
    assert_eq!(r[0].label, "MyNotes.TXT");
}

#[test]
fn file_search_sorted_by_path_without_duplicates() {
    let entries = vec![
        walk("a.txt", "/h/z/a.txt", true),
        walk("a.txt", "/h/b/a.txt", true),
        walk("first", "/h/dup", true),
        walk("a.txt", "/h/a.txt", true),
        walk("second", "/h/dup", true),
        walk("B.txt", "/h/B.txt", true),
    ];
    let r = get_files("", &entries);
    let paths: Vec<&str> = r.iter().map(|x| x.path.as_str()).collect();
    assert_eq!(paths, vec!["/h/B.txt", "/h/a.txt", "/h/b/a.txt", "/h/dup", "/h/z/a.txt"]);
    let dup = r.iter().find(|x| x.path == "/h/dup").unwrap();
    assert_eq!(dup.label, "first");
}

#[test]
fn file_search_no_match() {
    let entries = vec![walk("a.txt", "/h/a.txt", true)];
    assert!(get_files("zzzzz-nonexistent", &entries).is_empty());
}

#[test]
fn selection_stays_within_rows() {
    let mut s = Session::new();
    s.text_changed("x");
    s.show_results(vec![result("a", "/a"), result("b", "/b"), result("c", "/c")]);
    s.navigate_up();
    assert_eq!(s.selected, 0);
    s.navigate_down();
    s.navigate_down();
    assert_eq!(s.selected, 2);
    s.navigate_down();
    assert_eq!(s.selected, 2);
    s.navigate_up();
    assert_eq!(s.selected, 1);
}

#[test]
fn navigation_without_rows_is_a_no_op() {
    let mut s = Session::new();
    s.navigate_down();
    assert_eq!(s.selected, 0);
    s.navigate_up();
    assert_eq!(s.selected, 0);
}

#[test]
fn shown_rows_are_capped() {
    let mut s = Session::new();
    let many: Vec<SearchResult> = (0..70).map(|i| result("r", &format!("/r{}", i))).collect();
    s.show_results(many);
    assert_eq!(s.results.len(), MAX_ROWS);
    assert_eq!(s.results[49].path, "/r49");
}

#[test]
fn mode_toggle_resets_selection_and_requests_other_listing() {
    let mut s = Session::new();
    s.text_changed("fi");
    s.show_results(vec![result("a", "/a"), result("b", "/b")]);
    s.navigate_down();
    assert_eq!(s.selected, 1);
    match s.toggle_mode() {
        Request::Search { mode, query } => {
            assert_eq!(mode, Mode::Files);
            assert_eq!(query, "fi");
        }
        Request::Clear => panic!("expected a search"),
    }
    assert_eq!(s.selected, 0);
    assert!(s.results.is_empty());
    assert_eq!(s.query, "fi");
    assert!(matches!(s.toggle_mode(), Request::Search { mode: Mode::Apps, .. }));
}

#[test]
fn files_mode_dispatches_configured_opener() {
    let config = sample_config();
    assert_eq!(open_command(&config, "/home/u/notes.txt"), "edit /home/u/notes.txt");
    assert_eq!(open_command(&config, "/home/u/data.bin"), "xdg-open /home/u/data.bin");
    assert_eq!(open_command(&config, "/home/u/NOTES.TXT"), "edit /home/u/NOTES.TXT");

    let mut s = Session::new();
    s.toggle_mode();
    s.text_changed("notes");
    let fresh = vec![result("notes.txt", "/home/u/notes.txt")];
    match s.dispatch(&fresh, &config) {
        Action::RunShell(cmd) => assert_eq!(cmd, "edit /home/u/notes.txt"),
        _ => panic!("expected a shell command"),
    }
}

#[test]
fn opener_path_is_shell_escaped() {
    let config = sample_config();
    assert_eq!(open_command(&config, "/home/u/my notes.txt"), "edit '/home/u/my notes.txt'");
    assert_eq!(open_command(&config, "/tmp/it's!.bin"), "xdg-open '/tmp/it'\\''s'\\!'.bin'");
}

#[test]
fn template_placeholder_replaced_everywhere() {
    let mut config = OpenersConfig::new();
    config.insert_opener("md".to_string(), "cp {file} {file}.bak".to_string());
    assert_eq!(open_command(&config, "/a.md"), "cp /a.md /a.md.bak");
}

#[test]
fn insert_opener_replaces_earlier_template() {
    let mut config = sample_config();
    config.insert_opener("txt".to_string(), "less {file}".to_string());
    assert_eq!(config.openers.len(), 1);
    assert_eq!(open_command(&config, "/n.txt"), "less /n.txt");
    assert_eq!(config.find_opener(&chars("txt")), Some(0));
    assert_eq!(config.find_opener(&chars("pdf")), None);
}

#[test]
fn apps_mode_launches_descriptor_without_placeholder() {
    let listing = vec![app("firefox.desktop", "/apps")];
    let r = search_apps("fire", &listing);
    assert_eq!(r.len(), 1);
    assert_eq!(r[0].label, "firefox");

    let cmd = parse_exec_line("[Desktop Entry]\nName=Firefox\nExec=firefox %u\n").unwrap();
    assert_eq!(cmd.program, "firefox");
    assert!(cmd.args.is_empty());

    let mut s = Session::new();
    s.text_changed("fire");
    match s.dispatch(&r, &sample_config()) {
        Action::LaunchDescriptor(p) => assert_eq!(p, "/apps/firefox.desktop"),
        _ => panic!("expected a descriptor launch"),
    }
}

#[test]
fn exec_line_parsing_details() {
    let cmd = parse_exec_line("Name=X\r\nExec=Exec=code --new-window %F\tfile%fx\r\nExec=other").unwrap();
    assert_eq!(cmd.program, "code");
    assert_eq!(cmd.args, vec!["--new-window".to_string(), "filex".to_string()]);
    assert!(parse_exec_line("Name=X\nTryExec=y\n").is_none());
    assert!(parse_exec_line("Exec=%U %f").is_none());
    assert!(parse_exec_line(" Exec=x").is_none());
    assert!(parse_exec_line("").is_none());
}

#[test]
fn no_match_falls_back_to_web_search() {
    let config = sample_config();
    for toggle in [false, true] {
        let mut s = Session::new();
        if toggle {
            s.toggle_mode();
        }
        s.text_changed("zzzzz-nonexistent");
        let fresh: Vec<SearchResult> = Vec::new();
        match s.dispatch(&fresh, &config) {
            Action::OpenUrl(u) => assert_eq!(u, "https://www.duckduckgo.com/search?q=zzzzz-nonexistent"),
            _ => panic!("expected a web search"),
        }
    }
}

#[test]
fn activation_needs_text() {
    let mut s = Session::new();
    assert!(s.activate().is_none());
    s.toggle_mode();
    s.text_changed("abc");
    match s.activate() {
        Some(Request::Search { mode, query }) => {
            assert_eq!(mode, Mode::Files);
            assert_eq!(query, "abc");
        }
        _ => panic!("expected a search"),
    }
}

#[test]
fn web_search_url_keeps_text_as_typed() {
    assert_eq!(web_search_url("a b&c"), "https://www.duckduckgo.com/search?q=a b&c");
}

#[test]
fn extension_rules() {
    let ext = |p: &str| -> String { file_extension(&chars(p)).into_iter().collect() };
    assert_eq!(ext("/home/u/notes.txt"), "txt");
    assert_eq!(ext("/home/u/archive.tar.GZ"), "GZ");
    assert_eq!(ext("/home/u/.bashrc"), "");
    assert_eq!(ext("/home/u/Makefile"), "");
    assert_eq!(ext("/home/u.d/readme"), "");
    assert_eq!(ext("/home/u/file."), "");
}

#[test]
fn icon_resolution() {
    let themed = IconSource::Themed(vec!["text-plain".to_string(), "text-x-generic".to_string()]);
    assert!(matches!(resolve_icon(&themed, false), IconDescriptor::ThemedName(n) if n == "text-plain"));
    assert!(matches!(resolve_icon(&IconSource::Themed(vec![]), true), IconDescriptor::Fallback));
    let file = IconSource::File(Some("/icons/x.png".to_string()));
    assert!(matches!(resolve_icon(&file, true), IconDescriptor::Bitmap(p) if p == "/icons/x.png"));
    assert!(matches!(resolve_icon(&file, false), IconDescriptor::Fallback));
    assert!(matches!(resolve_icon(&IconSource::File(None), true), IconDescriptor::Fallback));
    assert!(matches!(resolve_icon(&IconSource::Other, true), IconDescriptor::Fallback));
}

#[test]
fn text_primitives() {
    assert!(starts_with_chars(&chars("firefox"), &chars("fire")));
    assert!(!starts_with_chars(&chars("fir"), &chars("fire")));
    assert!(contains_chars(&chars("footnotes"), &chars("note")));
    assert!(contains_chars(&chars("abc"), &chars("")));
    assert!(!contains_chars(&chars("abc"), &chars("abcd")));
    assert_eq!(replace_all(&chars("aXbXX"), &chars("X"), &chars("yy")), chars("ayybyyyy"));
    let w: Vec<String> = split_words(&chars("  a\tbc \u{3000}d ")).into_iter().map(|v| v.into_iter().collect()).collect();
    assert_eq!(w, vec!["a", "bc", "d"]);
    assert_eq!(compare_chars(&chars("ab"), &chars("abc")), -1);
    assert_eq!(compare_chars(&chars("b"), &chars("abc")), 1);
    assert_eq!(compare_chars(&chars("abc"), &chars("abc")), 0);
}

#[test]
fn opening_shows_no_rows() {
    let s = Session::new();
    assert_eq!(s.mode, Mode::Apps);
    assert_eq!(s.selected, 0);
    assert!(s.results.is_empty());
    assert!(matches!(s.refresh_request(), Request::Clear));
    assert!(!s.shows_placeholder());
}

#[test]
fn mode_toggle_without_text_searches_nothing() {
    let mut s = Session::new();
    s.show_results(vec![result("a", "/a")]);
    assert!(matches!(s.toggle_mode(), Request::Clear));
    assert_eq!(s.mode, Mode::Files);
    assert!(s.results.is_empty());
    assert!(matches!(s.toggle_mode(), Request::Clear));
    assert_eq!(s.mode, Mode::Apps);
}

#[test]
fn same_name_in_two_directories_both_kept() {
    let entries = vec![
        walk("h", "/h", false),
        walk("b", "/h/b", false),
        walk("x.txt", "/h/b/x.txt", true),
        walk("a", "/h/a", false),
        walk("x.txt", "/h/a/x.txt", true),
        walk("x.txt", "/h/a/x.txt", true),
    ];
    let r = get_files("x", &entries);
    let paths: Vec<&str> = r.iter().map(|x| x.path.as_str()).collect();
    assert_eq!(paths, vec!["/h/a/x.txt", "/h/b/x.txt"]);
    assert!(r.iter().all(|x| x.label == "x.txt"));
}

#[test]
fn opener_path_with_shell_metacharacters_stays_one_word() {
    let config = sample_config();
    assert_eq!(
        open_command(&config, "/home/u/a b;rm x'.txt"),
        "edit '/home/u/a b;rm x'\\''.txt'"
    );
    assert_eq!(open_command(&config, "/home/u/$HOME.txt"), "edit '/home/u/$HOME.txt'");
}

#[test]
fn apps_scenario_from_typing_to_launch() {
    let listing = vec![app("firefox.desktop", "/apps"), app("gimp.desktop", "/apps")];
    let config = sample_config();
    let mut s = Session::new();
    let query = match s.text_changed("fire") {
        Request::Search { mode: Mode::Apps, query } => query,
        _ => panic!("expected an application search"),
    };
    s.show_results(search_apps(&query, &listing));
    assert_eq!(s.results.len(), 1);
    assert_eq!(s.results[0].label, "firefox");
    assert_eq!(s.selected, 0);
    let fresh = match s.activate() {
        Some(Request::Search { mode: Mode::Apps, query }) => search_apps(&query, &listing),
        _ => panic!("expected an application search"),
    };
    let path = match s.dispatch(&fresh, &config) {
        Action::LaunchDescriptor(p) => p,
        _ => panic!("expected a descriptor launch"),
    };
    assert_eq!(path, "/apps/firefox.desktop");
    let cmd = parse_exec_line("[Desktop Entry]\nExec=firefox %u\n").unwrap();
    assert_eq!(cmd.program, "firefox");
    assert!(cmd.args.is_empty());
}

#[test]
fn upper_case_queries_match_alike() {
    let listing = vec![app("Firefox.desktop", "/apps"), app("files.desktop", "/apps")];
    let lower: Vec<String> = search_apps("fi", &listing).into_iter().map(|r| r.path).collect();
    let upper: Vec<String> = search_apps("FI", &listing).into_iter().map(|r| r.path).collect();
    assert_eq!(lower, upper);
    assert_eq!(lower.len(), 2);
    let entries = vec![walk("Report.PDF", "/h/Report.PDF", true), walk("rep.txt", "/h/rep.txt", true)];
    let a: Vec<String> = get_files("rep", &entries).into_iter().map(|r| r.path).collect();
    let b: Vec<String> = get_files("REP", &entries).into_iter().map(|r| r.path).collect();
    assert_eq!(a, b);
    assert_eq!(a.len(), 2);
}
