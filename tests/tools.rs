use typesafe::tools::{choose_tool, tool_candidates};

#[test]
fn candidates_come_in_search_order() {
    let c = tool_candidates("/opt/app/bin", Some("/opt/app"), "tectonic", '/');
    assert_eq!(c, vec!["/opt/app/bin/tectonic", "/opt/app/bin/deps/tectonic", "/opt/app/deps/tectonic"]);
    let c = tool_candidates("bin", None, "biber.exe", '\\');
    assert_eq!(c, vec!["bin\\biber.exe", "bin\\deps\\biber.exe"]);
}

#[test]
fn first_existing_candidate_wins_else_bare_name() {
    let c = tool_candidates("/a", Some("/r"), "biber", '/');
    assert_eq!(choose_tool(&c, &vec![false, true, true], "biber"), "/a/deps/biber");
    assert_eq!(choose_tool(&c, &vec![false, false, true], "biber"), "/r/deps/biber");
    assert_eq!(choose_tool(&c, &vec![false, false, false], "biber"), "biber");
    assert_eq!(choose_tool(&c, &Vec::new(), "biber"), "biber");
}
