use rust_peek::{case_for, parse_args, render, search, validate_args, Args, Case, Data};

const CONTENT: &str = "Hi\nDo you know?\nRust is great\nIt is efficient\nFast and really safe";

#[test]
fn search_case_sensitive() {
    let s_query = "great";
    let s_space = "Hi\nDo you know?\nRust is great\nIt is efficient\nFast and really safe";

    assert_eq!(search(s_query, s_space, Case::Sensitive), vec!["Rust is great"]);
}

#[test]
fn search_case_insensitive() {
    let s_query = "iS";
    let s_space = "Hi\nDo you know?\nRust is great\nIt is efficient\nFast and really safe";

    assert_eq!(
        search(s_query, s_space, Case::Insensitive),
        vec!["Rust is great", "It is efficient"]
    );
}

#[test]
fn search_empty_content() {
    assert_eq!(search("anything", "", Case::Sensitive), Vec::<&str>::new());
    assert_eq!(search("anything", "", Case::Insensitive), Vec::<&str>::new());
    assert_eq!(search("", "", Case::Sensitive), Vec::<&str>::new());
}

#[test]
fn search_empty_query_matches_every_line() {
    assert_eq!(search("", "a\nb\nc", Case::Sensitive), vec!["a", "b", "c"]);
}

#[test]
fn search_insensitive_is_superset_of_sensitive() {
    let sensitive = search("is", CONTENT, Case::Sensitive);
    let insensitive = search("is", CONTENT, Case::Insensitive);
    for line in &sensitive {
        assert!(insensitive.contains(line));
    }
}

#[test]
fn search_twice_same_result() {
    let first = search("is", CONTENT, Case::Insensitive);
    let second = search("is", CONTENT, Case::Insensitive);
    assert_eq!(first, second);
}

#[test]
fn search_keeps_original_line_text() {
    assert_eq!(search("rust", "Rust is great", Case::Insensitive), vec!["Rust is great"]);
}

#[test]
fn search_crlf_terminators() {
    assert_eq!(search("", "one\r\ntwo\r\n", Case::Sensitive), vec!["one", "two"]);
    assert_eq!(search("one", "one\r\ntwo", Case::Sensitive), vec!["one"]);
}

#[test]
fn search_trailing_newline_adds_no_line() {
    assert_eq!(search("", "a\n", Case::Sensitive), vec!["a"]);
    assert_eq!(search("", "a\n\n", Case::Sensitive), vec!["a", ""]);
}

#[test]
fn search_non_ascii_text() {
    assert_eq!(search("fé", "café\nbar", Case::Sensitive), vec!["café"]);
    assert_eq!(search("FÉ", "café\nbar", Case::Insensitive), Vec::<&str>::new());
}

#[test]
fn case_mode_from_toggle() {
    assert!(matches!(case_for(true), Case::Insensitive));
    assert!(matches!(case_for(false), Case::Sensitive));
}

#[test]
fn validate_args_piped() {
    let piped = Some(String::from("text"));
    assert!(validate_args(&piped, &vec![String::from("query")]).is_ok());
    assert_eq!(
        validate_args(&piped, &Vec::new()),
        Err("Incorrect number of arguments. 1 needed.\nUsage: <binary> <search string>")
    );
    assert_eq!(
        validate_args(&piped, &vec![String::from("a"), String::from("b")]),
        Err("Incorrect number of arguments. 1 needed.\nUsage: <binary> <search string>")
    );
}

#[test]
fn validate_args_file() {
    assert!(validate_args(&None, &vec![String::from("q"), String::from("f")]).is_ok());
    assert_eq!(
        validate_args(&None, &vec![String::from("q")]),
        Err("Incorrect number of arguments. 2 needed.\nUsage: <binary> <search string> <file path>")
    );
    assert_eq!(
        validate_args(&None, &vec![String::from("q"), String::from("f"), String::from("x")]),
        Err("Incorrect number of arguments. 2 needed.\nUsage: <binary> <search string> <file path>")
    );
}

#[test]
fn parse_args_piped() {
    let args = parse_args(
        vec![String::from("binary"), String::from("query")],
        Some(String::from("piped text")),
        Case::Sensitive,
    )
    .unwrap();
    assert_eq!(args.search_string, "query");
    assert_eq!(args.data, Data::Pipe(String::from("piped text")));
    assert!(matches!(args.case, Case::Sensitive));
}

#[test]
fn parse_args_file() {
    let args = parse_args(
        vec![String::from("binary"), String::from("query"), String::from("notes.txt")],
        None,
        Case::Insensitive,
    )
    .unwrap();
    assert_eq!(args.search_string, "query");
    assert_eq!(args.data, Data::File(String::from("notes.txt")));
    assert!(matches!(args.case, Case::Insensitive));
}

#[test]
fn parse_args_wrong_count() {
    let r = parse_args(vec![String::from("binary")], Some(String::from("text")), Case::Sensitive);
    assert_eq!(
        r.map(|_| ()),
        Err("Incorrect number of arguments. 1 needed.\nUsage: <binary> <search string>")
    );
    let r = parse_args(vec![String::from("binary"), String::from("q")], None, Case::Sensitive);
    assert_eq!(
        r.map(|_| ()),
        Err("Incorrect number of arguments. 2 needed.\nUsage: <binary> <search string> <file path>")
    );
}

#[test]
fn args_new_keeps_fields() {
    let args = Args::new((
        String::from("q"),
        Data::File(String::from("f")),
        Case::Sensitive,
    ));
    assert_eq!(args.search_string, "q");
    assert_eq!(args.data, Data::File(String::from("f")));
    assert!(matches!(args.case, Case::Sensitive));
}

#[test]
fn render_no_matches() {
    let out = render(&Vec::new());
    assert_eq!(out, vec![String::from("No matches found.")]);
}

#[test]
fn render_numbers_matches() {
    let out = render(&vec!["Rust is great", "It is efficient"]);
    assert_eq!(
        out,
        vec![String::from("Match 1: Rust is great"), String::from("Match 2: It is efficient")]
    );
}

#[test]
fn render_multi_digit_numbers() {
    let results: Vec<&str> = vec!["x"; 12];
    let out = render(&results);
    assert_eq!(out.len(), 12);
    assert_eq!(out[9], "Match 10: x");
    assert_eq!(out[11], "Match 12: x");
}

#[test]
fn search_then_render_scenario() {
    let results = search("nothing here", CONTENT, Case::Sensitive);
    assert_eq!(render(&results), vec![String::from("No matches found.")]);

    let results = search("is", CONTENT, Case::Sensitive);
    assert_eq!(
        render(&results),
        vec![String::from("Match 1: Rust is great"), String::from("Match 2: It is efficient")]
    );
}
