use lib::repo::{find, parse_index, parse_line, search, Package};

fn pkg(name: &str, version: &str, description: Option<&str>) -> Package {
    Package {
        name: name.to_string(),
        version: version.to_string(),
        url: format!("https://{name}.org"),
        url_pack: format!("https://example.com/{name}.tar.gz"),
        description: description.map(|d| d.to_string()),
    }
}

#[test]
fn parses_basic_line() {
    let line = "[nano][7.2][https://nano-editor.org][https://example.com/nano.tar.gz][Simple terminal text editor]";
    let pkg = parse_line(line).unwrap();
    assert_eq!(pkg.name, "nano");
    assert_eq!(pkg.version, "7.2");
    assert_eq!(pkg.description.as_deref(), Some("Simple terminal text editor"));
}

#[test]
fn parses_line_without_description() {
    let line = "[htop][3.3.0][https://htop.dev][https://example.com/htop.tar.gz]";
    let pkg = parse_line(line).unwrap();
    assert_eq!(pkg.name, "htop");
    assert!(pkg.description.is_none());
}

#[test]
fn ignores_comments_and_blank_lines() {
    let raw = "# comment\n\n[a][1][u][p]\n";
    let pkgs = parse_index(raw);
    assert_eq!(pkgs.len(), 1);
}

#[test]
fn parse_line_reads_all_fields_trimmed() {
    let p = parse_line("[ nano ][ 7.2 ][ https://nano-editor.org ][ https://x/n.tar.gz ][  desc  ]").unwrap();
    assert_eq!(p.name, "nano");
    assert_eq!(p.version, "7.2");
    assert_eq!(p.url, "https://nano-editor.org");
    assert_eq!(p.url_pack, "https://x/n.tar.gz");
    assert_eq!(p.description.as_deref(), Some("desc"));
}

#[test]
fn parse_line_rejects_fewer_than_four_fields() {
    assert!(parse_line("[a][b][c]").is_none());
    assert!(parse_line("no brackets at all").is_none());
    assert!(parse_line("").is_none());
}

#[test]
fn parse_line_rejects_unclosed_bracket() {
    assert!(parse_line("[a][b][c][d").is_none());
    // an unclosed bracket after four fields still refuses the whole line
    assert!(parse_line("[a][b][c][d][e").is_none());
}

#[test]
fn parse_line_stops_after_five_fields() {
    let p = parse_line("[a][b][c][d][e][f").unwrap();
    assert_eq!(p.description.as_deref(), Some("e"));
}

#[test]
fn parse_line_empty_description_is_none() {
    let p = parse_line("[a][b][c][d][   ]").unwrap();
    assert!(p.description.is_none());
}

#[test]
fn parse_line_text_between_fields_is_skipped() {
    let p = parse_line("x[a] y [b]z[c]--[d]").unwrap();
    assert_eq!(p.name, "a");
    assert_eq!(p.version, "b");
    assert_eq!(p.url, "c");
    assert_eq!(p.url_pack, "d");
}

#[test]
fn parse_index_trims_and_skips() {
    let raw = "  [a][1][u][p][first]  \r\n   # [b][2][u][p]\n\t\n[bad line]\n[c][3][u][q]";
    let pkgs = parse_index(raw);
    assert_eq!(pkgs.len(), 2);
    assert_eq!(pkgs[0].name, "a");
    assert_eq!(pkgs[0].description.as_deref(), Some("first"));
    assert_eq!(pkgs[1].name, "c");
    assert_eq!(pkgs[1].url_pack, "q");
}

#[test]
fn parse_index_of_empty_text_is_empty() {
    assert!(parse_index("").is_empty());
    assert!(parse_index("\n\n# only comments\n").is_empty());
}

#[test]
fn find_ignores_ascii_case_and_takes_first() {
    let pkgs = vec![pkg("Nano", "1", None), pkg("nano", "2", None), pkg("vim", "9", None)];
    assert_eq!(find(&pkgs, "NANO").unwrap().version, "1");
    assert_eq!(find(&pkgs, "vim").unwrap().version, "9");
    assert!(find(&pkgs, "emacs").is_none());
    assert!(find(&[], "nano").is_none());
}

#[test]
fn search_matches_name_or_description_case_insensitively() {
    let pkgs = vec![
        pkg("nano", "7.2", Some("Simple terminal text editor")),
        pkg("htop", "3.3", None),
        pkg("vim", "9.1", Some("Vi IMproved EDITOR")),
    ];
    let hits = search(&pkgs, "EDITOR");
    let names: Vec<&str> = hits.iter().map(|p| p.name.as_str()).collect();
    assert_eq!(names, vec!["nano", "vim"]);
    let hits = search(&pkgs, "HTOP");
    assert_eq!(hits.len(), 1);
    assert_eq!(hits[0].name, "htop");
    assert!(search(&pkgs, "emacs").is_empty());
}

#[test]
fn search_with_empty_query_matches_everything() {
    let pkgs = vec![pkg("nano", "7.2", None), pkg("vim", "9.1", Some("x"))];
    assert_eq!(search(&pkgs, "").len(), 2);
}

#[test]
fn search_line_formats_with_and_without_description() {
    assert_eq!(
        pkg("nano", "7.2", Some("Simple editor")).search_line(),
        "nano  7.2  \u{2014}  Simple editor"
    );
    assert_eq!(pkg("htop", "3.3.0", None).search_line(), "htop  3.3.0");
}
