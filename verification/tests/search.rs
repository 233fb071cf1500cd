use minigrep::{search, search_case_insensitive};

const POEM: &str = "Rust:\nsafe, fast, productive.\nPick three.\nDuct tape.";

fn exact_by_std<'a>(query: &str, contents: &'a str) -> Vec<&'a str> {
    let mut found = Vec::new();
    for line in contents.lines() {
        if line.contains(query) {
            found.push(line);
        }
    }
    found
}

fn ignoring_case_by_std<'a>(query: &str, contents: &'a str) -> Vec<&'a str> {
    let mut found = Vec::new();
    for line in contents.lines() {
        if line.to_lowercase().contains(&query.to_lowercase()) {
            found.push(line);
        }
    }
    found
}

const TEXTS: [&str; 12] = [
    "",
    "\n",
    "one line",
    "one line\n",
    "Rust:\nsafe, fast, productive.\nPick three.\nDuct tape.",
    "first\r\nsecond\r\nthird",
    "tab\there\n\nempty above\n",
    "Stra\u{df}e\nSTRASSE\nstrasse\n",
    "\u{3a3}\u{3af}\u{3c3}\u{3c5}\u{3c6}\u{3bf}\u{3c2}\n\u{3c3}\u{3af}\u{3c3}\u{3c5}\u{3c6}\u{3bf}\u{3c2}\n",
    "na\u{ef}ve caf\u{e9}\nNA\u{cf}VE CAF\u{c9}\nnaive cafe",
    "\u{1f980} crab\nCRAB \u{1f980}\n\u{1f99e}",
    "aaa\naa\na\n\naaaa",
];

const QUERIES: [&str; 10] =
    ["", "a", "A", "line", "duct", "rUsT", "\u{e9}", "\u{1f980}", "SS", "\u{3c3}"];

#[test]
fn case_sensitive() {
    let query = "duct";
    assert_eq!(vec!["safe, fast, productive."], search(query, POEM));
}

#[test]
fn case_insensitive() {
    let query = "rUsT";
    let contents = "Rust:\nsafe, fast, productive.\nPick three.\nTrust me.";
    assert_eq!(vec!["Rust:", "Trust me."], search_case_insensitive(query, contents));
}

#[test]
fn capital_letter_does_not_match_small_one() {
    assert_eq!(vec!["Duct tape."], search("Duct", POEM));
    assert!(!search("duct", POEM).contains(&"Duct tape."));
}

#[test]
fn every_line_with_the_query_and_no_other() {
    let contents = "alpha\nbeta\ngamma\ndelta\nepsilon";
    let found = search("a", contents);
    assert_eq!(vec!["alpha", "beta", "gamma", "delta"], found);
    for line in contents.lines() {
        assert_eq!(line.contains("a"), found.contains(&line));
    }
}

#[test]
fn ignoring_case_finds_what_the_exact_search_finds() {
    let contents = "Rust:\nTrust me.\nrust never sleeps\nRUST\nnothing here";
    let exact = search("rust", contents);
    let loose = search_case_insensitive("rust", contents);
    assert_eq!(vec!["Trust me.", "rust never sleeps"], exact);
    assert_eq!(vec!["Rust:", "Trust me.", "rust never sleeps", "RUST"], loose);
    assert!(exact.len() <= loose.len());
    for line in exact {
        assert!(loose.contains(&line));
    }
}

#[test]
fn final_sigma_is_lowercased_by_its_place() {
    let query = "A\u{3a3}";
    let contents = "A\u{3a3}B";
    assert_eq!(vec!["A\u{3a3}B"], search(query, contents));
    assert_eq!(Vec::<&str>::new(), search_case_insensitive(query, contents));
}

#[test]
fn same_arguments_same_result() {
    assert_eq!(search("t", POEM), search("t", POEM));
    assert_eq!(search_case_insensitive("T", POEM), search_case_insensitive("T", POEM));
}

#[test]
fn searching_the_lines_found_finds_them_again() {
    let found = search("t", POEM);
    let joined = found.join("\n");
    assert_eq!(found, search("t", &joined));
}

#[test]
fn lines_keep_their_order_and_number() {
    let contents = "b1\na\nb2\nb1\nc\nb3\nb1";
    assert_eq!(vec!["b1", "b2", "b1", "b3", "b1"], search("b", contents));
    assert_eq!(vec!["b1", "b2", "b1", "b3", "b1"], search_case_insensitive("B", contents));
}

#[test]
fn nothing_is_found_in_empty_contents() {
    assert_eq!(Vec::<&str>::new(), search("duct", ""));
    assert_eq!(Vec::<&str>::new(), search("", ""));
    assert_eq!(Vec::<&str>::new(), search_case_insensitive("duct", ""));
    assert_eq!(Vec::<&str>::new(), search_case_insensitive("", ""));
}

#[test]
fn empty_query_finds_every_line() {
    let every = vec!["Rust:", "safe, fast, productive.", "Pick three.", "Duct tape."];
    assert_eq!(every, search("", POEM));
    assert_eq!(every, search_case_insensitive("", POEM));
    assert_eq!(vec!["", "x", ""], search("", "\nx\n\n"));
}

#[test]
fn no_match_is_an_empty_result() {
    assert_eq!(Vec::<&str>::new(), search("monomorphization", POEM));
    assert_eq!(Vec::<&str>::new(), search_case_insensitive("MONOMORPHIZATION", POEM));
}

#[test]
fn query_does_not_match_across_lines() {
    assert_eq!(Vec::<&str>::new(), search("ab", "a\nb"));
    assert_eq!(Vec::<&str>::new(), search("a\nb", "a\nb"));
    assert_eq!(Vec::<&str>::new(), search("\n", "a\nb"));
}

#[test]
fn carriage_return_before_line_feed_is_not_searched() {
    assert_eq!(Vec::<&str>::new(), search("\r", "one\r\ntwo\r\n"));
    assert_eq!(vec!["two\r"], search("\r", "one\r\ntwo\r"));
}

#[test]
fn lines_found_are_as_written_in_the_contents() {
    let contents = "HeLLo World\nhello\nHELLO there";
    assert_eq!(vec!["HeLLo World", "hello", "HELLO there"], search_case_insensitive("hEllO", contents));
}

#[test]
fn letters_beyond_ascii_are_lowercased() {
    let contents = "\u{c4}PFEL\n\u{e4}pfel\nApfel";
    assert_eq!(vec!["\u{e4}pfel"], search("\u{e4}pf", contents));
    assert_eq!(vec!["\u{c4}PFEL", "\u{e4}pfel"], search_case_insensitive("\u{e4}pf", contents));
    assert_eq!(vec!["\u{c4}PFEL", "\u{e4}pfel"], search_case_insensitive("\u{c4}PF", contents));
}

#[test]
fn characters_of_several_bytes_match_whole() {
    let contents = "\u{e9}\n\u{e8}\n\u{c3}\u{a9}\n\u{1f980}";
    assert_eq!(vec!["\u{e9}"], search("\u{e9}", contents));
    assert_eq!(vec!["\u{c3}\u{a9}"], search("\u{a9}", contents));
    assert_eq!(vec!["\u{1f980}"], search("\u{1f980}", contents));
}

#[test]
fn exact_search_agrees_with_lines_and_contains() {
    for contents in TEXTS {
        for query in QUERIES {
            assert_eq!(exact_by_std(query, contents), search(query, contents));
        }
    }
}

#[test]
fn search_ignoring_case_agrees_with_lines_and_to_lowercase() {
    for contents in TEXTS {
        for query in QUERIES {
            assert_eq!(
                ignoring_case_by_std(query, contents),
                search_case_insensitive(query, contents)
            );
        }
    }
}

#[test]
fn found_lines_are_slices_of_the_contents() {
    let contents = String::from("zero\none\ntwo\none");
    let found = search("one", &contents);
    assert_eq!(2, found.len());
    let start = contents.as_ptr() as usize;
    assert_eq!(start + 5, found[0].as_ptr() as usize);
    assert_eq!(start + 13, found[1].as_ptr() as usize);
}
