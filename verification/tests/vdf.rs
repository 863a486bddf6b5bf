use eso_addon_path::parse_library_paths;

fn render(paths: &[&str]) -> String {
    let mut s = String::new();
    for p in paths {
        s.push_str("\"path\"\t\t\"");
        s.push_str(&p.replace('\\', "\\\\"));
        s.push_str("\"\n");
    }
    s
}

#[test]
fn parse_rendered_paths_round_trip() {
    let paths = ["C:\\Games\\Steam", "/mnt/x", "", "D:\\\\odd"];
    let got = parse_library_paths(&render(&paths));
    assert_eq!(got, paths.iter().map(|p| p.to_string()).collect::<Vec<_>>());
}

#[test]
fn parse_stops_at_missing_quote() {
    assert!(parse_library_paths("no keys here").is_empty());
    assert!(parse_library_paths("\"path\" unterminated").is_empty());
    assert_eq!(parse_library_paths("\"path\" \"a\" \"path\" \"b"), vec!["a".to_string()]);
}

#[test]
fn parse_unescapes_pairs_from_the_left() {
    assert_eq!(parse_library_paths("\"path\" \"a\\\\\\b\""), vec!["a\\\\b".to_string()]);
}
