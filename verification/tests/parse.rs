use asimov_huggingface_module::{base_uri, parse_ref, RepoInfo, RepoKind};

#[test]
fn parse_bare_model_id() {
    let r = parse_ref("bert-base-uncased").unwrap();
    assert_eq!(r.kind, RepoKind::Model);
    assert_eq!(r.id, "bert-base-uncased");
}

#[test]
fn parse_namespaced_model_id() {
    let r = parse_ref("google-bert/bert-base-uncased").unwrap();
    assert_eq!(r.kind, RepoKind::Model);
    assert_eq!(r.id, "google-bert/bert-base-uncased");
}

#[test]
fn parse_model_url_with_subpath() {
    let r = parse_ref("https://huggingface.co/meta-llama/Llama-3-8B/tree/main").unwrap();
    assert_eq!(r.kind, RepoKind::Model);
    assert_eq!(r.id, "meta-llama/Llama-3-8B");
}

#[test]
fn parse_dataset_url() {
    let r = parse_ref("https://huggingface.co/datasets/rajpurkar/squad").unwrap();
    assert_eq!(r.kind, RepoKind::Dataset);
    assert_eq!(r.id, "rajpurkar/squad");
    assert_eq!(
        base_uri(&r),
        "https://huggingface.co/datasets/rajpurkar/squad"
    );
}

#[test]
fn parse_space_shorthand() {
    let r = parse_ref("spaces/foo/bar").unwrap();
    assert_eq!(r.kind, RepoKind::Space);
    assert_eq!(r.id, "foo/bar");
}

#[test]
fn empty_input_is_an_error() {
    assert!(parse_ref("https://huggingface.co/").is_err());
}

#[test]
fn license_falls_back_to_tag() {
    let repo = RepoInfo {
        id: "x".into(),
        author: None,
        sha: None,
        last_modified: None,
        pipeline_tag: None,
        library_name: None,
        downloads: None,
        likes: None,
        tags: vec!["license:apache-2.0".into()],
        siblings: vec![],
        card_data: None,
    };
    assert_eq!(repo.license().as_deref(), Some("apache-2.0"));
}

#[test]
fn parse_error_quotes_the_input() {
    let e = parse_ref("https://huggingface.co/").unwrap_err();
    assert_eq!(
        e,
        "could not parse a repository id from \"https://huggingface.co/\""
    );
    let e = parse_ref("  \"x\"://").unwrap_err();
    assert_eq!(e, "could not parse a repository id from \"  \\\"x\\\"://\"");
}

#[test]
fn parse_trims_white_space_and_slashes() {
    let r = parse_ref("  \t/org/name/ \n").unwrap();
    assert_eq!(r.kind, RepoKind::Model);
    assert_eq!(r.id, "org/name");
    let r = parse_ref("\u{3000}squad\u{a0}").unwrap();
    assert_eq!(r.id, "squad");
}

#[test]
fn parse_host_prefixes_without_scheme() {
    let r = parse_ref("huggingface.co/datasets/a/b").unwrap();
    assert_eq!(r.kind, RepoKind::Dataset);
    assert_eq!(r.id, "a/b");
    let r = parse_ref("hf.co/spaces/x/y/blob/main/app.py").unwrap();
    assert_eq!(r.kind, RepoKind::Space);
    assert_eq!(r.id, "x/y");
    let r = parse_ref("http://hf.co/org").unwrap();
    assert_eq!(r.kind, RepoKind::Model);
    assert_eq!(r.id, "org");
}

#[test]
fn parse_keeps_at_most_two_segments() {
    let r = parse_ref("a/b/c/d").unwrap();
    assert_eq!(r.id, "a/b");
    let r = parse_ref("org/tree/main").unwrap();
    assert_eq!(r.id, "org");
    let r = parse_ref("a//b").unwrap();
    assert_eq!(r.id, "a");
}

#[test]
fn parse_rejects_reserved_first_segment() {
    assert!(parse_ref("tree/main").is_err());
    assert!(parse_ref("datasets/resolve").is_err());
    let r = parse_ref("https://huggingface.co/spaces/").unwrap();
    assert_eq!(r.kind, RepoKind::Model);
    assert_eq!(r.id, "spaces");
    assert!(parse_ref("").is_err());
    assert!(parse_ref("https://example.org").is_err());
}

#[test]
fn parse_scheme_without_host_path() {
    let r = parse_ref("ftp://host/commits").unwrap_err();
    assert!(r.starts_with("could not parse"));
    let r = parse_ref("x://h/discussions2").unwrap();
    assert_eq!(r.id, "discussions2");
}

#[test]
fn base_uri_reads_back() {
    for input in [
        "bert-base-uncased",
        "google-bert/bert-base-uncased",
        "https://huggingface.co/meta-llama/Llama-3-8B/tree/main",
        "datasets/rajpurkar/squad",
        "spaces/foo/bar",
        "datasets",
        "datasets/datasets/x",
        "huggingface.co/ x",
    ] {
        let r = parse_ref(input).unwrap();
        let back = parse_ref(&base_uri(&r)).unwrap();
        assert_eq!(back, r);
    }
}

#[test]
fn base_uri_loses_trailing_white_space_of_an_id() {
    let r = parse_ref("foo \t/").unwrap();
    assert_eq!(r.id, "foo \t");
    let back = parse_ref(&base_uri(&r)).unwrap();
    assert_eq!(back.id, "foo");
}

#[test]
fn base_uri_of_each_kind() {
    let m = parse_ref("a/b").unwrap();
    assert_eq!(base_uri(&m), "https://huggingface.co/a/b");
    let s = parse_ref("spaces/a").unwrap();
    assert_eq!(base_uri(&s), "https://huggingface.co/spaces/a");
}

#[test]
fn kind_labels_and_segments() {
    assert_eq!(RepoKind::Model.api_segment(), "models");
    assert_eq!(RepoKind::Dataset.api_segment(), "datasets");
    assert_eq!(RepoKind::Space.api_segment(), "spaces");
    assert_eq!(RepoKind::Model.url_prefix(), "");
    assert_eq!(RepoKind::Dataset.url_prefix(), "datasets/");
    assert_eq!(RepoKind::Space.url_prefix(), "spaces/");
    assert_eq!(RepoKind::Model.as_str(), "model");
    assert_eq!(RepoKind::Dataset.as_str(), "dataset");
    assert_eq!(RepoKind::Space.as_str(), "space");
}
