use spechurl::document::load_str;

fn chars(s: &str) -> Vec<char> {
    s.chars().collect()
}

fn text(v: &[char]) -> String {
    v.iter().collect()
}

#[test]
fn numeric_yaml_keys_and_integers_survive() {
    let yaml = "openapi: 3.0.3\ninfo:\n  title: T\n  version: 1\npaths:\n  /n:\n    get:\n      responses:\n        200:\n          description: ok\n        201:\n          description: created\n";
    let doc = load_str(&chars("inline.yaml"), &chars("inline.yaml"), yaml)
        .unwrap_or_else(|err| panic!("{}", err.to_message()));
    assert_eq!(text(&doc.version), "1");
    let statuses: Vec<String> = doc.operations[0]
        .responses
        .iter()
        .map(|(status, _)| text(status))
        .collect();
    assert_eq!(statuses, vec!["200".to_string(), "201".to_string()]);
}

#[test]
fn normalizing_line_endings_is_idempotent() {
    let once = spechurl::suite::exec_normalize(&chars("a\r\nb\rc\n\r\n"));
    assert_eq!(text(&once), "a\nb\nc\n\n");
    let twice = spechurl::suite::exec_normalize(&once);
    assert_eq!(twice, once);
}

#[test]
fn first_difference_counts_lines_from_one() {
    let d = spechurl::suite::exec_first_difference(&chars("a\nb\nc"), &chars("a\nx\nc"));
    assert_eq!(text(&d), "first difference at line 2");
    let d = spechurl::suite::exec_first_difference(&chars("a"), &chars("a\nb\nc"));
    assert_eq!(
        text(&d),
        "generated file has 3 lines, committed file has 1 lines"
    );
}

#[test]
fn a_float_where_text_belongs_is_named_by_its_json_text() {
    let yaml = "openapi: 3.0.3\ninfo:\n  title: 1e20\n  version: \"1\"\npaths:\n  /n:\n    get:\n      responses:\n        \"200\":\n          description: ok\n";
    let err = match load_str(&chars("float.yaml"), &chars("float.yaml"), yaml) {
        Ok(_) => panic!("a float title was accepted"),
        Err(err) => err.to_message(),
    };
    assert!(err.contains("invalid type: floating point `1e+20`, expected a string"), "{}", err);
}

#[test]
fn carriage_returns_in_a_document_do_not_reach_the_files() {
    let yaml = "openapi: 3.0.3\r\ninfo:\r\n  title: \"T\\rU\"\r\n  version: \"1\"\r\npaths:\r\n  /x:\r\n    post:\r\n      summary: \"a\\rb\"\r\n      requestBody:\r\n        content:\r\n          application/json:\r\n            example: {\"n\": 1.5, \"s\": \"x\\ry\"}\r\n      responses:\r\n        \"200\":\r\n          description: ok\r\n";
    let suite = spechurl::generate_from_str("cr.yaml", yaml)
        .unwrap_or_else(|err| panic!("{}", err.to_message()));
    assert_eq!(suite.files.len(), 2);
    for (name, contents) in suite.files.iter() {
        assert!(!contents.contains('\r'), "{} holds a carriage return", name);
        assert!(contents.ends_with('\n') && !contents.ends_with("\n\n"));
    }
    let post = &suite.files.iter().find(|(name, _)| name == "post_x.hurl").unwrap().1;
    assert!(post.contains("\"n\": 1.5"), "{}", post);
    assert!(post.contains("\"s\": \"x\\ry\""), "{}", post);
    assert!(post.contains("# summary: a b\n"), "{}", post);
}
