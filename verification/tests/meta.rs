use asimov_huggingface_module::{
    person_iri, CardData, CommitAuthor, LicenseField, RepoInfo, Sibling,
};

fn info(tags: Vec<&str>, card: Option<CardData>) -> RepoInfo {
    RepoInfo {
        id: "x".to_string(),
        author: None,
        sha: None,
        last_modified: None,
        pipeline_tag: None,
        library_name: None,
        downloads: None,
        likes: None,
        tags: tags.into_iter().map(|t| t.to_string()).collect(),
        siblings: vec![],
        card_data: card,
    }
}

#[test]
fn license_from_card_wins() {
    let repo = info(
        vec!["license:mit"],
        Some(CardData { license: Some(LicenseField::Text("apache-2.0".to_string())) }),
    );
    assert_eq!(repo.license().as_deref(), Some("apache-2.0"));
}

#[test]
fn license_of_other_json_type_falls_back() {
    let repo = info(
        vec!["pytorch", "license:mit", "license:gpl"],
        Some(CardData { license: Some(LicenseField::Other) }),
    );
    assert_eq!(repo.license().as_deref(), Some("mit"));
    let repo = info(vec!["pytorch"], Some(CardData { license: None }));
    assert_eq!(repo.license(), None);
    let repo = info(vec!["license:"], None);
    assert_eq!(repo.license().as_deref(), Some(""));
}

#[test]
fn files_lists_siblings() {
    let mut repo = info(vec![], None);
    repo.siblings = vec![
        Sibling { rfilename: "config.json".to_string() },
        Sibling { rfilename: "model.safetensors".to_string() },
    ];
    assert_eq!(repo.files(), vec!["config.json", "model.safetensors"]);
}

#[test]
fn handle_prefers_user_then_name() {
    let a = CommitAuthor { user: Some("julien".to_string()), name: Some("Julien C".to_string()) };
    assert_eq!(a.handle(), "julien");
    let a = CommitAuthor { user: None, name: Some("Julien C".to_string()) };
    assert_eq!(a.handle(), "Julien C");
    let a = CommitAuthor { user: None, name: None };
    assert_eq!(a.handle(), "unknown");
}

#[test]
fn person_iri_slugs_the_handle() {
    assert_eq!(person_iri("julien-c"), "https://huggingface.co/julien-c");
    assert_eq!(person_iri("Julien C"), "https://huggingface.co/Julien-C");
    assert_eq!(person_iri("a_b.c/é"), "https://huggingface.co/a_b-c--");
    assert_eq!(person_iri(""), "https://huggingface.co/");
}
