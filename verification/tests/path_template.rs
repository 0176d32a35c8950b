use axum_oas::path_template::parse_path_template;

#[test]
fn plain_path() {
    assert_eq!(parse_path_template("/users"), ("/users".into(), vec![]));
}

#[test]
fn one_param() {
    assert_eq!(
        parse_path_template("/users/{id}"),
        ("/users/{id}".into(), vec!["id".into()])
    );
}

#[test]
fn wildcard_param() {
    assert_eq!(
        parse_path_template("/files/{*rest}"),
        ("/files/{rest}".into(), vec!["rest".into()])
    );
}

#[test]
fn multiple_params() {
    assert_eq!(
        parse_path_template("/orgs/{org}/repos/{repo}"),
        (
            "/orgs/{org}/repos/{repo}".into(),
            vec!["org".into(), "repo".into()]
        )
    );
}

#[test]
fn empty_and_root_templates() {
    assert_eq!(parse_path_template(""), (String::new(), vec![]));
    assert_eq!(parse_path_template("/"), ("/".into(), vec![]));
    assert_eq!(parse_path_template("/a/"), ("/a/".into(), vec![]));
}

#[test]
fn unbalanced_braces_are_not_parameters() {
    assert_eq!(parse_path_template("/{"), ("/{".into(), vec![]));
    assert_eq!(parse_path_template("/}"), ("/}".into(), vec![]));
    assert_eq!(parse_path_template("/{id"), ("/{id".into(), vec![]));
    assert_eq!(parse_path_template("/x{id}"), ("/x{id}".into(), vec![]));
}

#[test]
fn empty_and_star_only_names() {
    assert_eq!(parse_path_template("/{}"), ("/{}".into(), vec!["".to_string()]));
    assert_eq!(parse_path_template("/{*}"), ("/{}".into(), vec!["".to_string()]));
    assert_eq!(
        parse_path_template("/a/{**b}"),
        ("/a/{*b}".into(), vec!["*b".to_string()])
    );
}

#[test]
fn non_ascii_names() {
    assert_eq!(
        parse_path_template("/ünï/{çødé}"),
        ("/ünï/{çødé}".into(), vec!["çødé".to_string()])
    );
}

#[test]
fn documenting_a_documented_path_changes_nothing() {
    for template in ["/users/{id}", "/files/{*rest}", "/orgs/{org}/repos/{repo}", "/a//b/"] {
        let (doc, params) = parse_path_template(template);
        let (again, params_again) = parse_path_template(&doc);
        assert_eq!(again, doc);
        assert_eq!(params_again, params);
    }
    // The one kind of template for which it fails: a name beginning with `*`.
    let (doc, _) = parse_path_template("/a/{**b}");
    assert_eq!(parse_path_template(&doc).0, "/a/{b}");
}
