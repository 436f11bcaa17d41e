use gamecode_cli::naming::{namespaced_name, split_tool_name};

#[test]
fn namespacing_round_trip() {
    for (server, tool) in [("git", "status"), ("fs", "read_file"), ("s", ""), ("", "t")] {
        let full = namespaced_name(server, tool);
        let (s, t) = split_tool_name(&full).unwrap();
        assert_eq!(s, server);
        assert_eq!(t, tool);
    }
}

#[test]
fn namespaced_name_joins_with_separator() {
    assert_eq!(namespaced_name("git", "log"), "git_log");
}

#[test]
fn split_at_first_separator() {
    assert_eq!(split_tool_name("a_b_c"), Some(("a".to_string(), "b_c".to_string())));
    assert_eq!(split_tool_name("_x"), Some((String::new(), "x".to_string())));
    assert_eq!(split_tool_name("x_"), Some(("x".to_string(), String::new())));
}

#[test]
fn split_without_separator_fails() {
    assert_eq!(split_tool_name("plain"), None);
    assert_eq!(split_tool_name(""), None);
}

#[test]
fn split_handles_non_ascii() {
    assert_eq!(split_tool_name("é_ü"), Some(("é".to_string(), "ü".to_string())));
}
