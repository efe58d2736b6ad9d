use minigrep::config::NOT_ENOUGH_ARGUMENTS;
use minigrep::{line_contains, lines, search, search_insensitive_case, search_with_mode, Config};

const POEM: &str = "\
Rust:
sécurité, rapidité, productivité.
Obtenez les trois en même temps.
Duck tape.";

const POEM_RUSTIQUE: &str = "\
Rust:
sécurité, rapidité, productivité.
Obtenez les trois en même temps.
C'est pas rustique.";

#[test]
fn sensible_case() {
    let research = "duct";
    let content = "\
Rust:
sécurité, rapidité, productivité.
Obtenez les trois en même temps.
Duck tape.";

    assert_eq!(vec!["sécurité, rapidité, productivité."], search(research, content));
}

#[test]
fn insensible_case() {
    let research = "rUsT";
    let content = "\
Rust:
sécurité, rapidité, productivité.
Obtenez les trois en même temps.
C'est pas rustique.";

    assert_eq!(
        vec!["Rust:", "C'est pas rustique."],
        search_insensitive_case(research, content)
    );
}

#[test]
fn exact_search_is_case_sensitive() {
    assert_eq!(Vec::<&str>::new(), search("rUsT", POEM_RUSTIQUE));
    assert_eq!(vec!["C'est pas rustique."], search("rust", POEM_RUSTIQUE));
}

#[test]
fn results_keep_the_order_of_the_text() {
    let content = "b one\na two\nb three\nc four";
    assert_eq!(vec!["b one", "b three"], search("b", content));
    assert_eq!(vec!["b one", "b three"], search_insensitive_case("B", content));
}

#[test]
fn lines_left_out_do_not_contain_the_query() {
    let found = search("é", POEM);
    for line in lines(POEM) {
        assert_eq!(found.contains(&line), line.contains("é"));
    }
}

#[test]
fn folded_search_finds_at_least_the_exact_matches() {
    let exact = search("Rust", POEM_RUSTIQUE);
    let folded = search_insensitive_case("Rust", POEM_RUSTIQUE);
    assert_eq!(1, exact.len());
    assert_eq!(2, folded.len());
}

#[test]
fn empty_query_returns_every_line() {
    assert_eq!(
        vec![
            "Rust:",
            "sécurité, rapidité, productivité.",
            "Obtenez les trois en même temps.",
            "Duck tape."
        ],
        search("", POEM)
    );
}

#[test]
fn empty_content_returns_nothing() {
    assert!(search("duct", "").is_empty());
    assert!(search_insensitive_case("duct", "").is_empty());
    assert!(search("", "").is_empty());
}

#[test]
fn searching_twice_gives_the_same_lines() {
    assert_eq!(search("é", POEM), search("é", POEM));
    assert_eq!(
        search_insensitive_case("RUST", POEM_RUSTIQUE),
        search_insensitive_case("RUST", POEM_RUSTIQUE)
    );
}

#[test]
fn absent_query_returns_nothing() {
    assert!(search("xyz", POEM).is_empty());
    assert!(search_insensitive_case("xyz", POEM).is_empty());
}

#[test]
fn folding_covers_accented_letters() {
    assert_eq!(
        vec!["sécurité, rapidité, productivité."],
        search_insensitive_case("SÉCURITÉ", POEM)
    );
    assert!(search("SÉCURITÉ", POEM).is_empty());
}

#[test]
fn returned_lines_keep_their_case() {
    assert_eq!(vec!["Duck tape."], search_insensitive_case("DUCK", POEM));
}

#[test]
fn lines_split_at_newlines() {
    assert_eq!(vec!["a", "b", "c"], lines("a\nb\nc"));
    assert_eq!(vec!["a", "", "b"], lines("a\n\nb"));
}

#[test]
fn lines_drop_crlf_endings() {
    assert_eq!(vec!["a", "b"], lines("a\r\nb\r\n"));
    assert_eq!(vec!["a\rb", "c"], lines("a\rb\nc"));
}

#[test]
fn no_empty_line_after_final_newline() {
    assert_eq!(vec!["a", "b"], lines("a\nb\n"));
    assert_eq!(vec![""], lines("\n"));
    assert!(lines("").is_empty());
}

#[test]
fn lines_match_std_lines() {
    let texts = ["x\ny\r\nz", "\r\n\r\n", "é\nü\r\n", "last\r\n", "one"];
    for t in texts {
        assert_eq!(t.lines().collect::<Vec<&str>>(), lines(t));
    }
}

#[test]
fn contains_finds_runs_of_bytes() {
    assert!(line_contains("productivité", "duct"));
    assert!(line_contains("abc", ""));
    assert!(line_contains("", ""));
    assert!(!line_contains("", "a"));
    assert!(!line_contains("ab", "abc"));
    assert!(line_contains("abab", "bab"));
    assert!(!line_contains("Duck tape.", "duct"));
}

#[test]
fn mode_selects_the_search() {
    assert_eq!(vec!["C'est pas rustique."], search_with_mode("rust", POEM_RUSTIQUE, true));
    assert_eq!(
        vec!["Rust:", "C'est pas rustique."],
        search_with_mode("rust", POEM_RUSTIQUE, false)
    );
}

#[test]
fn config_needs_query_and_file() {
    let args = vec![String::from("minigrep"), String::from("duct")];
    match Config::new(&args, true) {
        Err(m) => assert_eq!(NOT_ENOUGH_ARGUMENTS, m),
        Ok(_) => panic!("a command line of two words was accepted"),
    }
    assert!(Config::new(&[], true).is_err());
}

#[test]
fn config_reads_query_and_file() {
    let args = vec![
        String::from("minigrep"),
        String::from("duct"),
        String::from("poem.txt"),
        String::from("extra"),
    ];
    let config = Config::new(&args, false).ok().unwrap();
    assert_eq!("duct", config.research);
    assert_eq!("poem.txt", config.filename);
    assert!(!config.verbose);
    assert_eq!("Not enough arguments !", NOT_ENOUGH_ARGUMENTS);
}
