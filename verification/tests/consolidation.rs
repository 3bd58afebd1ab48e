use blocklist_aggregator::consolidate::{consolidate, HostnameSet};
use blocklist_aggregator::output::{
    output_path, render_output, reserved_char, sanitize_filename, scratch_dir, scratch_file_name,
    scratch_path,
};
use blocklist_aggregator::service::BlockListService;
use blocklist_aggregator::sorting::{compare, same, sort_unique, Rank};

fn lines(v: &[&str]) -> Vec<String> {
    v.iter().map(|s| s.to_string()).collect()
}

#[test]
fn two_sources_with_one_duplicate() {
    let first = lines(&["0.0.0.0 ads.example.com", "||tracker.example.net^", "# comment", ""]);
    let second = lines(&["# comment", "0.0.0.0 ads.example.com", ""]);
    let sources = vec![first, second];
    let hosts = consolidate(&sources);
    assert_eq!(hosts, lines(&["ads.example.com", "tracker.example.net"]));
    let content = render_output(&hosts);
    assert_eq!(content, "0.0.0.0 ads.example.com\n0.0.0.0 tracker.example.net\n");
    let service = BlockListService::new(5);
    let file = service.process_category("full", &sources, "./output");
    assert_eq!(file.path, "./output/full.txt");
    assert_eq!(file.content, "0.0.0.0 ads.example.com\n0.0.0.0 tracker.example.net\n");
    assert_eq!(service.consolidate_temp_files(&sources), file.content);
}

#[test]
fn the_scenario_lines_split_over_two_files() {
    let first = lines(&["0.0.0.0 ads.example.com", "||tracker.example.net^"]);
    let second = lines(&["# comment", "", "ads.example.com"]);
    let service = BlockListService::new(5);
    let file = service.process_category("social", &vec![first, second], "out");
    assert_eq!(file.path, "out/social.txt");
    assert_eq!(file.content, "0.0.0.0 ads.example.com\n0.0.0.0 tracker.example.net\n");
}

#[test]
fn a_hosts_file_with_names_of_one_label() {
    let source = lines(&[
        "127.0.0.1 localhost",
        "0.0.0.0 localhost",
        "255.255.255.255 broadcasthost",
        "::1 localhost",
        "0.0.0.0 ads.example.com",
    ]);
    let service = BlockListService::new(5);
    let only = service.consolidate_temp_files(&vec![lines(&["0.0.0.0 localhost"])]);
    assert_eq!(only, "0.0.0.0 localhost\n");
    let content = service.consolidate_temp_files(&vec![source]);
    assert_eq!(content, "0.0.0.0 255.255.255.255\n0.0.0.0 ads.example.com\n0.0.0.0 localhost\n");
}

#[test]
fn no_reachable_source_gives_an_empty_file() {
    let service = BlockListService::new(5);
    let none: Vec<Vec<String>> = Vec::new();
    let file = service.process_category("msfw", &none, "./output");
    assert_eq!(file.path, "./output/msfw.txt");
    assert_eq!(file.content, "");
    assert_eq!(consolidate(&none), Vec::<String>::new());
    assert_eq!(render_output(&Vec::new()), "");
}

#[test]
fn sources_without_hostnames_give_an_empty_file() {
    let sources = vec![lines(&["# only remarks", "", "   "]), Vec::new(), lines(&["!", "...", "||"])];
    assert_eq!(consolidate(&sources), Vec::<String>::new());
    let service = BlockListService::new(1);
    assert_eq!(service.consolidate_temp_files(&sources), "");
}

#[test]
fn each_hostname_once_and_sorted() {
    let a = lines(&["0.0.0.0 b.example", "0.0.0.0 a.example", "0.0.0.0 c.example", "b.example"]);
    let b = lines(&["||c.example^", "||a.example^", "||d.example^"]);
    let c = lines(&["127.0.0.1 d.example", "127.0.0.1 d.example", "a.example"]);
    let hosts = consolidate(&vec![a, b, c]);
    assert_eq!(hosts, lines(&["a.example", "b.example", "c.example", "d.example"]));
    for pair in hosts.windows(2) {
        assert!(pair[0] < pair[1]);
    }
}

#[test]
fn order_is_by_code_point() {
    let src = lines(&[
        "b.com", "B.com", "a.com", "a-b.com", "a.b.com", "a0.com", "aa.com", "0.com", "-.com", "A.com",
        "a.co", "a.com.x", "Z.z", "a.COM", "a", "com",
    ]);
    let hosts = consolidate(&vec![src.clone()]);
    let mut expected = src.clone();
    expected.sort();
    expected.dedup();
    assert_eq!(hosts, expected);
    assert_eq!(
        hosts,
        lines(&[
            "-.com", "0.com", "A.com", "B.com", "Z.z", "a", "a-b.com", "a.COM", "a.b.com", "a.co",
            "a.com", "a.com.x", "a0.com", "aa.com", "b.com", "com",
        ])
    );
}

#[test]
fn case_is_not_folded() {
    let hosts = consolidate(&vec![lines(&["Example.com", "example.com", "EXAMPLE.COM", "example.com"])]);
    assert_eq!(hosts, lines(&["EXAMPLE.COM", "Example.com", "example.com"]));
}

#[test]
fn a_second_run_gives_the_same_file() {
    let sources = vec![
        lines(&["0.0.0.0 z.example", "0.0.0.0 m.example", "# junk", "||a.example^"]),
        lines(&["m.example", "||k.example^$important"]),
    ];
    let service = BlockListService::new(5);
    let first = service.process_category("full", &sources, "o");
    let second = service.process_category("full", &sources, "o");
    assert_eq!(first.content, second.content);
    assert_eq!(first.path, second.path);
    assert_eq!(
        first.content,
        "0.0.0.0 a.example\n0.0.0.0 k.example\n0.0.0.0 m.example\n0.0.0.0 z.example\n"
    );
}

#[test]
fn the_file_does_not_depend_on_the_order_of_the_sources() {
    let a = lines(&["0.0.0.0 z.example", "0.0.0.0 m.example"]);
    let b = lines(&["||a.example^", "m.example", "m.example"]);
    let c = lines(&["# nothing"]);
    let service = BlockListService::new(5);
    let one = service.consolidate_temp_files(&vec![a.clone(), b.clone(), c.clone()]);
    let two = service.consolidate_temp_files(&vec![c.clone(), b.clone(), a.clone()]);
    let mut merged = b.clone();
    merged.extend(a.iter().rev().cloned());
    let three = service.consolidate_temp_files(&vec![merged, a.clone()]);
    assert_eq!(one, "0.0.0.0 a.example\n0.0.0.0 m.example\n0.0.0.0 z.example\n");
    assert_eq!(one, two);
    assert_eq!(one, three);
}

#[test]
fn a_set_is_filled_line_by_line() {
    let mut set = HostnameSet::new();
    assert!(set.add_line("0.0.0.0 b.example"));
    assert!(!set.add_line("# b.example"));
    assert!(set.add_line("||a.example^"));
    assert!(set.add_line("b.example"));
    set.add_lines(&lines(&["c.example", "", "a.example"]));
    assert_eq!(set.into_sorted(), lines(&["a.example", "b.example", "c.example"]));
    assert_eq!(HostnameSet::new().into_sorted(), Vec::<String>::new());
}

#[test]
fn many_hostnames_are_sorted_as_std_sorts_them() {
    let mut src = Vec::new();
    let mut x: u64 = 12345;
    for _ in 0..3000 {
        x = x.wrapping_mul(6364136223846793005).wrapping_add(1442695040888963407);
        let n = (x >> 33) % 700;
        src.push(format!("0.0.0.0 h{}.d{}.example", n, n % 7));
    }
    let hosts = consolidate(&vec![src.clone()]);
    let mut expected: Vec<String> = src.iter().map(|l| l[8..].to_string()).collect();
    expected.sort();
    expected.dedup();
    assert_eq!(hosts, expected);
    let content = render_output(&hosts);
    let mut by_hand = String::new();
    for h in &expected {
        by_hand.push_str(&format!("0.0.0.0 {}\n", h));
    }
    assert_eq!(content, by_hand);
}

#[test]
fn comparing_strings() {
    assert_eq!(compare("a", "b"), Rank::Before);
    assert_eq!(compare("b", "a"), Rank::After);
    assert_eq!(compare("a", "a"), Rank::Same);
    assert_eq!(compare("", ""), Rank::Same);
    assert_eq!(compare("", "a"), Rank::Before);
    assert_eq!(compare("a", ""), Rank::After);
    assert_eq!(compare("ab", "abc"), Rank::Before);
    assert_eq!(compare("abc", "ab"), Rank::After);
    assert_eq!(compare("Z", "a"), Rank::Before);
    assert_eq!(compare("a.b", "a-b"), Rank::After);
    assert_eq!(compare("\u{e9}", "z"), Rank::After);
    assert_eq!(compare("\u{10000}", "\u{ffff}"), Rank::After);
    assert!(same("full", "full"));
    assert!(!same("full", "ful"));
    assert!(!same("full", "fulL"));
    let words = ["", "a", "A", "ab", "b", "-", ".", "a.b", "\u{e9}", "\u{ffff}", "\u{10000}", "zz"];
    for x in words {
        for y in words {
            let expected = match x.cmp(y) {
                std::cmp::Ordering::Less => Rank::Before,
                std::cmp::Ordering::Equal => Rank::Same,
                std::cmp::Ordering::Greater => Rank::After,
            };
            assert_eq!(compare(x, y), expected, "{:?} {:?}", x, y);
        }
    }
}

#[test]
fn sorting_without_repeats() {
    let v = lines(&["d", "a", "c", "a", "b", "d", "d"]);
    assert_eq!(sort_unique(&v), lines(&["a", "b", "c", "d"]));
    assert_eq!(sort_unique(&lines(&["b", "a"])), lines(&["a", "b"]));
    assert_eq!(sort_unique(&lines(&["a", "a", "a"])), lines(&["a"]));
    assert_eq!(sort_unique(&lines(&["x"])), lines(&["x"]));
    assert_eq!(sort_unique(&lines(&["c", "b", "a", "c", "b", "a", "c"])), lines(&["a", "b", "c"]));
    assert_eq!(sort_unique(&Vec::new()), Vec::<String>::new());
    let w = lines(&["\u{e9}", "z", "", "Z", "zz", "\u{10000}", "\u{ffff}", ""]);
    let mut expected = w.clone();
    expected.sort();
    expected.dedup();
    assert_eq!(sort_unique(&w), expected);
}

#[test]
fn rendering_is_one_line_per_hostname() {
    assert_eq!(render_output(&lines(&["a.b"])), "0.0.0.0 a.b\n");
    assert_eq!(render_output(&lines(&["b.c", "a.b"])), "0.0.0.0 b.c\n0.0.0.0 a.b\n");
    let content = render_output(&lines(&["ads.example.com", "x.y"]));
    assert_eq!(content.len(), (15 + 9) + (3 + 9));
}

#[test]
fn paths_of_the_layout() {
    assert_eq!(output_path("./output", "full"), "./output/full.txt");
    assert_eq!(output_path("/var/lists", "social"), "/var/lists/social.txt");
    assert_eq!(output_path("", "x"), "/x.txt");
    assert_eq!(scratch_dir("./output"), "./output/tmp");
    assert_eq!(
        scratch_path("./output/tmp", "https://example.com/list.txt", false),
        "./output/tmp/full_https:__example.com_list.txt.tmp"
    );
}

#[test]
fn scratch_names_come_from_the_url() {
    assert_eq!(
        sanitize_filename("https://example.com/a/b.txt", false),
        "full_https:__example.com_a_b.txt"
    );
    assert_eq!(
        sanitize_filename("https://example.com/a/b.txt", true),
        "full_https___example.com_a_b.txt"
    );
    assert_eq!(sanitize_filename("a\\b/c", false), "full_a_b_c");
    assert_eq!(sanitize_filename("", false), "full_");
    assert_eq!(sanitize_filename("p?q=1&r=*\"<x>|y", false), "full_p?q=1&r=*\"<x>|y");
    assert_eq!(sanitize_filename("p?q=1&r=*\"<x>|y", true), "full_p_q=1&r=___x__y");
    assert_eq!(sanitize_filename("h\u{e9}/\u{4e2d}", true), "full_h\u{e9}_\u{4e2d}");
    assert_eq!(
        scratch_file_name("http://h/x", false),
        "full_http:__h_x.tmp"
    );
    let url = "https://raw.example.org/lists/hosts?x=1";
    assert_eq!(sanitize_filename(url, false), sanitize_filename(url, false));
    assert_eq!(sanitize_filename(url, false), format!("full_{}", url.replace("/", "_").replace("\\", "_")));
    assert!(!sanitize_filename(url, false)[5..].contains('/'));
    for c in ":*?\"<>|".chars() {
        assert!(reserved_char(c));
    }
    for c in "/\\_a. ".chars() {
        assert!(!reserved_char(c));
    }
}
