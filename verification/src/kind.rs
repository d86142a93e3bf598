use vstd::prelude::*;

verus! {

/// The kind of Hugging Face repository being ingested.
#[derive(Debug, Clone, Copy, PartialEq, Eq, Structural)]
pub enum RepoKind {
    Model,
    Dataset,
    Space,
}

impl RepoKind {
    /// The segment used in the Hub API path (`/api/<segment>/<id>`).
    pub open spec fn api_segment_spec(self) -> Seq<char> {
        match self {
            RepoKind::Model => "models"@,
            RepoKind::Dataset => "datasets"@,
            RepoKind::Space => "spaces"@,
        }
    }

    /// The prefix used in the public URL (`https://huggingface.co/<prefix><id>`).
    pub open spec fn url_prefix_spec(self) -> Seq<char> {
        match self {
            RepoKind::Model => ""@,
            RepoKind::Dataset => "datasets/"@,
            RepoKind::Space => "spaces/"@,
        }
    }

    /// A short human-readable label.
    pub open spec fn label_spec(self) -> Seq<char> {
        match self {
            RepoKind::Model => "model"@,
            RepoKind::Dataset => "dataset"@,
            RepoKind::Space => "space"@,
        }
    }

    /// The segment used in the Hub API path (`/api/<segment>/<id>`).
    pub fn api_segment(self) -> (s: &'static str)
        ensures
            s@ == self.api_segment_spec(),
    {
        match self {
            RepoKind::Model => "models",
            RepoKind::Dataset => "datasets",
            RepoKind::Space => "spaces",
        }
    }

    /// The prefix used in the public URL (`https://huggingface.co/<prefix><id>`).
    pub fn url_prefix(self) -> (s: &'static str)
        ensures
            s@ == self.url_prefix_spec(),
    {
        match self {
            RepoKind::Model => "",
            RepoKind::Dataset => "datasets/",
            RepoKind::Space => "spaces/",
        }
    }

    /// A short human-readable label.
    pub fn as_str(self) -> (s: &'static str)
        ensures
            s@ == self.label_spec(),
    {
        match self {
            RepoKind::Model => "model",
            RepoKind::Dataset => "dataset",
            RepoKind::Space => "space",
        }
    }
}


/// Law: each kind's API segment is its label in the plural, and the public
/// URL prefix of a dataset or a space is its API segment followed by `/`
/// (models have none).
pub proof fn lemma_kind_names(kind: RepoKind)
    ensures
        kind.api_segment_spec() == kind.label_spec() + "s"@,
        kind == RepoKind::Model ==> kind.url_prefix_spec().len() == 0,
        kind != RepoKind::Model ==> kind.url_prefix_spec() == kind.api_segment_spec() + "/"@,
{
    reveal_strlit("models");
    reveal_strlit("datasets");
    reveal_strlit("spaces");
    reveal_strlit("model");
    reveal_strlit("dataset");
    reveal_strlit("space");
    reveal_strlit("s");
    reveal_strlit("");
    reveal_strlit("datasets/");
    reveal_strlit("spaces/");
    reveal_strlit("/");
    assert("models"@ =~= "model"@ + "s"@);
    assert("datasets"@ =~= "dataset"@ + "s"@);
    assert("spaces"@ =~= "space"@ + "s"@);
    assert("datasets/"@ =~= "datasets"@ + "/"@);
    assert("spaces/"@ =~= "spaces"@ + "/"@);
}

} // verus!
