use command_line_software::{
    contains, run, search, search_case_insensitive, search_with_mode, split_first_line, Config,
    MatchMode,
};

#[test]
fn one_result() {
    let query = "duct";
    let contents = "\
Rust:
safe, fast, productive.
Pick three.
Duck tape.";

    assert_eq!(vec!["safe, fast, productive."], search(query, contents));
}

#[test]
fn case_insensitive() {
    let query = "rUsT";
    let contents = "\
Rust:
safe, fast, productive.
Pick Three.
Trust me.";

    assert_eq!(
        vec!["Rust:", "Trust me."],
        search_case_insensitive(query, contents)
    );
}

#[test]
fn no_line_holds_the_query() {
    let contents = "Rust:\nsafe, fast, productive.\nPick three.";
    assert_eq!(search("java", contents), Vec::<&str>::new());
    assert_eq!(search_case_insensitive("JAVA", contents), Vec::<&str>::new());
}

#[test]
fn empty_query_returns_every_line() {
    let contents = "one\n\nTwo\nthree";
    let all = vec!["one", "", "Two", "three"];
    assert_eq!(search("", contents), all);
    assert_eq!(search_case_insensitive("", contents), all);
}

#[test]
fn empty_document_returns_nothing() {
    assert_eq!(search("a", ""), Vec::<&str>::new());
    assert_eq!(search("", ""), Vec::<&str>::new());
    assert_eq!(search_case_insensitive("A", ""), Vec::<&str>::new());
}

#[test]
fn trailing_newline_adds_no_line() {
    assert_eq!(search("", "a\nb\n"), vec!["a", "b"]);
    assert_eq!(search("", "\n"), vec![""]);
}

#[test]
fn carriage_returns_stay_in_the_line() {
    assert_eq!(search("b", "a\r\nb\r\n"), vec!["b\r"]);
    assert_eq!(search("\r", "a\r\nb"), vec!["a\r"]);
}

#[test]
fn duplicate_lines_are_kept_in_order() {
    let contents = "x1\ny\nx1\nx2";
    assert_eq!(search("x", contents), vec!["x1", "x1", "x2"]);
}

#[test]
fn case_sensitive_skips_other_case() {
    let contents = "Rust is fast.\nrust is safe.";
    assert_eq!(search("Rust", contents), vec!["Rust is fast."]);
    assert_eq!(search("rust", contents), vec!["rust is safe."]);
}

#[test]
fn insensitive_result_covers_sensitive_result() {
    let contents = "Rust:\nsafe, fast, productive.\nPick Three.\nTrust me.\nrust";
    let exact = search("rust", contents);
    let folded = search_case_insensitive("rust", contents);
    assert_eq!(exact, vec!["Trust me.", "rust"]);
    for line in &exact {
        assert!(folded.contains(line));
    }
    assert_eq!(folded, vec!["Rust:", "Trust me.", "rust"]);
}

#[test]
fn final_sigma_can_break_an_insensitive_match() {
    // "ΑΣ" lowercases to "ας" (word-final sigma), while "Σ" alone lowercases to "σ".
    let contents = "ΑΣ";
    assert_eq!(search("Σ", contents), vec!["ΑΣ"]);
    assert_eq!(search_case_insensitive("Σ", contents), Vec::<&str>::new());
}

#[test]
fn searching_twice_gives_the_same_lines() {
    let contents = "b\na\nba\nab";
    for mode in [MatchMode::CaseSensitive, MatchMode::CaseInsensitive] {
        let first = search_with_mode("a", contents, mode);
        let second = search_with_mode("a", contents, mode);
        assert_eq!(first, second);
        assert_eq!(first, vec!["a", "ba", "ab"]);
    }
}

#[test]
fn results_are_slices_of_the_document() {
    let contents = String::from("alpha\nbeta\ngamma");
    let found = search("eta", &contents);
    assert_eq!(found, vec!["beta"]);
    let start = contents.as_ptr() as usize;
    let end = start + contents.len();
    let p = found[0].as_ptr() as usize;
    assert!(start <= p && p + found[0].len() <= end);
}

#[test]
fn search_with_mode_matches_the_named_searches() {
    let contents = "Rust:\nsafe, fast, productive.\nPick Three.\nTrust me.";
    assert_eq!(
        search_with_mode("rUsT", contents, MatchMode::CaseInsensitive),
        search_case_insensitive("rUsT", contents)
    );
    assert_eq!(
        search_with_mode("duct", contents, MatchMode::CaseSensitive),
        search("duct", contents)
    );
}

#[test]
fn contains_compares_bytes() {
    assert!(contains("safe, fast, productive.", "duct"));
    assert!(!contains("Duck tape.", "duct"));
    assert!(contains("anything", ""));
    assert!(contains("", ""));
    assert!(!contains("", "a"));
    assert!(!contains("ab", "abc"));
    assert!(contains("abc", "abc"));
    assert!(contains("aaab", "aab"));
    assert!(contains("trust me.", "rust"));
}

#[test]
fn split_first_line_takes_one_line() {
    assert_eq!(split_first_line("ab\ncd"), ("ab", "cd"));
    assert_eq!(split_first_line("ab\n"), ("ab", ""));
    assert_eq!(split_first_line("ab"), ("ab", ""));
    assert_eq!(split_first_line("\nx"), ("", "x"));
    assert_eq!(split_first_line("é\nü"), ("é", "ü"));
}

fn args(items: &[&str]) -> Vec<String> {
    items.iter().map(|s| s.to_string()).collect()
}

#[test]
fn build_reports_missing_query() {
    let r = Config::build(&args(&["prog"]), false);
    assert!(matches!(r, Err("didn't get query string")));
    let r = Config::build(&args(&[]), true);
    assert!(matches!(r, Err("didn't get query string")));
}

#[test]
fn build_reports_missing_file_path() {
    let r = Config::build(&args(&["prog", "query"]), false);
    assert!(matches!(r, Err("no file path passed")));
}

#[test]
fn build_takes_query_path_and_flag() {
    let c = Config::build(&args(&["prog", "needle", "poem.txt", "extra"]), true)
        .ok()
        .unwrap();
    assert_eq!(c.query, "needle");
    assert_eq!(c.file_path, "poem.txt");
    assert!(c.ignore_case);
    assert_eq!(c.mode(), MatchMode::CaseInsensitive);
    let c = Config::build(&args(&["prog", "needle", "poem.txt"]), false)
        .ok()
        .unwrap();
    assert!(!c.ignore_case);
    assert_eq!(c.mode(), MatchMode::CaseSensitive);
}

#[test]
fn run_follows_ignore_case() {
    let contents = "Rust:\nsafe, fast, productive.\nPick Three.\nTrust me.";
    let mut config = Config {
        query: String::from("rUsT"),
        file_path: String::from("poem.txt"),
        ignore_case: true,
    };
    assert_eq!(run(&config, contents), vec!["Rust:", "Trust me."]);
    config.ignore_case = false;
    assert_eq!(run(&config, contents), Vec::<&str>::new());
    config.query = String::from("Pick");
    assert_eq!(run(&config, contents), vec!["Pick Three."]);
}
