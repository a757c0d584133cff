use minigrep::{search, search_case_insensitive, search_with};

#[test]
fn should_search_query_in_contents() {
    let query = "duct";
    let contents = "\
Rust:
safe, fast, productive.
Pick three.";
    assert_eq!(vec!["safe, fast, productive."], search(query, contents));
}

#[test]
fn should_return_no_results_for_search() {
    let query = "hello";
    let contents = "\
Rust:
safe, fast, productive.
Pick three.";
    let results: Vec<String> = Vec::new();
    assert_eq!(results, search(query, contents));
}

#[test]
fn case_insensitive_search_reports_lines_as_spelled() {
    let contents = "RUST\nrust\nRuSt";
    assert_eq!(vec!["RUST", "rust", "RuSt"], search_case_insensitive("rust", contents));
    assert_eq!(vec!["RUST", "rust", "RuSt"], search_case_insensitive("RUST", contents));
}

#[test]
fn case_sensitive_search_minds_the_case() {
    let contents = "RUST\nrust\nRuSt";
    assert_eq!(vec!["rust"], search("rust", contents));
    assert_eq!(vec!["RuSt"], search("uS", contents));
}

#[test]
fn case_folding_is_limited_to_ascii_letters() {
    let contents = "ÄRGER\närger\n[bracket]\n{brace}";
    assert_eq!(vec!["ärger"], search_case_insensitive("ärger", contents));
    assert_eq!(vec!["ÄRGER", "ärger"], search_case_insensitive("rger", contents));
    assert_eq!(vec!["[bracket]"], search_case_insensitive("[", contents));
    assert_eq!(vec!["{brace}"], search_case_insensitive("{", contents));
    assert_eq!(Vec::<String>::new(), search_case_insensitive("@", "`\n"));
}

#[test]
fn empty_contents_yield_nothing() {
    assert_eq!(Vec::<String>::new(), search("duct", ""));
    assert_eq!(Vec::<String>::new(), search("", ""));
    assert_eq!(Vec::<String>::new(), search_case_insensitive("", ""));
}

#[test]
fn empty_query_matches_every_line() {
    let contents = "one\n\ntwo\r\nthree";
    assert_eq!(vec!["one", "", "two", "three"], search("", contents));
    assert_eq!(vec!["one", "", "two", "three"], search_case_insensitive("", contents));
}

#[test]
fn matches_keep_file_order_and_duplicates() {
    let contents = "b a\nc\na b\nb a\nd a";
    assert_eq!(vec!["b a", "a b", "b a", "d a"], search("a", contents));
    assert_eq!(vec!["b a", "b a"], search("b a", contents));
}

#[test]
fn every_reported_line_contains_the_query() {
    let contents = "alpha beta\nbeta gamma\ngamma delta\nALPHA BETA\n";
    let found = search("beta", contents);
    assert_eq!(vec!["alpha beta", "beta gamma"], found);
    for line in &found {
        assert!(line.contains("beta"));
    }
    let total = contents.lines().count();
    assert!(found.len() <= total);
    let folded = search_case_insensitive("beta", contents);
    assert_eq!(vec!["alpha beta", "beta gamma", "ALPHA BETA"], folded);
}

#[test]
fn searching_twice_gives_the_same_lines() {
    let contents = "x1\ny\nx2\n";
    assert_eq!(search("x", contents), search("x", contents));
    assert_eq!(search_case_insensitive("X", contents), search_case_insensitive("X", contents));
}

#[test]
fn line_terminators_are_not_part_of_a_match() {
    assert_eq!(Vec::<String>::new(), search("\n", "a\nb\n"));
    assert_eq!(Vec::<String>::new(), search("a\nb", "a\nb\n"));
    assert_eq!(Vec::<String>::new(), search("\r", "a\r\nb\r\n"));
    assert_eq!(vec!["b\r"], search("\r", "a\r\nb\r"));
    assert_eq!(vec!["a\rb"], search("\r", "a\rb\nc"));
}

#[test]
fn query_may_match_anywhere_in_a_line() {
    let contents = "abcdef\nxxabc\nabcxx\nab\nc";
    assert_eq!(vec!["abcdef", "xxabc", "abcxx"], search("abc", contents));
    assert_eq!(vec!["abcdef"], search("abcdef", contents));
    assert_eq!(Vec::<String>::new(), search("abcdefg", contents));
    assert_eq!(vec!["abcdef"], search("f", contents));
}

#[test]
fn text_beyond_ascii_is_searched_by_character() {
    let contents = "naïve café\n日本語のテキスト\nemoji 🦀 crab\nplain";
    assert_eq!(vec!["naïve café"], search("é", contents));
    assert_eq!(vec!["日本語のテキスト"], search("語の", contents));
    assert_eq!(vec!["emoji 🦀 crab"], search("🦀", contents));
    assert_eq!(vec!["naïve café", "emoji 🦀 crab", "plain"], search("a", contents));
}

#[test]
fn search_with_selects_the_mode() {
    let contents = "Rust\nrust\ntrust me";
    assert_eq!(search("rust", contents), search_with("rust", contents, false));
    assert_eq!(search_case_insensitive("rust", contents), search_with("rust", contents, true));
    assert_eq!(vec!["rust", "trust me"], search_with("rust", contents, false));
    assert_eq!(vec!["Rust", "rust", "trust me"], search_with("rust", contents, true));
}

#[test]
fn search_agrees_with_the_standard_library() {
    let texts = [
        "",
        "\n",
        "\n\n",
        "a",
        "a\n",
        "a\r\n",
        "a\r",
        "\r\n\r\n",
        "one\ntwo\r\nthree\rfour\n\nfive",
        "tab\tseparated\nvalues\there",
        "ünïcödé\nline two ü\n",
    ];
    let queries = ["", "a", "e", "o\n", "\r", "t", "ü", "three\rfour"];
    for text in texts {
        for query in queries {
            let expected: Vec<String> = text
                .lines()
                .filter(|line| line.contains(query))
                .map(|line| line.to_string())
                .collect();
            assert_eq!(expected, search(query, text), "query {:?} in {:?}", query, text);
        }
    }
}
