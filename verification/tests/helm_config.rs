use pear_reviewer::errors::{AuditError, ParseIssue};
use pear_reviewer::helm_config::{collect_image_changes, ImageRef, ImageRefs, SourceRepoRef};

fn image(sources: Vec<SourceRepoRef>) -> ImageRef {
    ImageRef {
        account: "acc".to_owned(),
        repository: "repo".to_owned(),
        tag: "v1".to_owned(),
        sources,
    }
}

fn source(repo: &str, commit: &str) -> SourceRepoRef {
    SourceRepoRef { repo: repo.to_owned(), commit: commit.to_owned() }
}

#[test]
fn new_image_gets_empty_base() {
    let old = ImageRefs { container_images: vec![] };
    let new = ImageRefs {
        container_images: vec![(
            "tool".to_owned(),
            image(vec![source("https://github.com/sapcc/tool.git", "c2")]),
        )],
    };
    let changes = collect_image_changes(&old, &new).unwrap();
    assert_eq!(changes.len(), 1);
    assert_eq!(changes[0].name, "tool");
    assert_eq!(changes[0].base_commit, "");
    assert_eq!(changes[0].head_commit, "c2");
    assert_eq!(changes[0].remote.owner, "sapcc");
    assert_eq!(changes[0].remote.repository, "tool");
    assert!(changes[0].changes.is_empty());
}

#[test]
fn moved_source_compares_old_to_new_commit() {
    let url = "https://github.com/sapcc/tool.git";
    let old = ImageRefs {
        container_images: vec![("tool".to_owned(), image(vec![source(url, "c1")]))],
    };
    let new = ImageRefs {
        container_images: vec![("tool".to_owned(), image(vec![source(url, "c2")]))],
    };
    let changes = collect_image_changes(&old, &new).unwrap();
    assert_eq!(changes.len(), 1);
    assert_eq!(changes[0].base_commit, "c1");
    assert_eq!(changes[0].head_commit, "c2");
    assert_eq!(changes[0].remote.original, url);
}

#[test]
fn replaced_source_repository_gets_empty_base() {
    let old = ImageRefs {
        container_images: vec![(
            "tool".to_owned(),
            image(vec![source("https://github.com/sapcc/old-tool.git", "c1")]),
        )],
    };
    let new = ImageRefs {
        container_images: vec![(
            "tool".to_owned(),
            image(vec![source("https://github.com/sapcc/new-tool.git", "c2")]),
        )],
    };
    let changes = collect_image_changes(&old, &new).unwrap();
    assert_eq!(changes.len(), 1);
    assert_eq!(changes[0].base_commit, "");
    assert_eq!(changes[0].head_commit, "c2");
    assert_eq!(changes[0].remote.repository, "new-tool");
}

#[test]
fn unparseable_source_url_aborts() {
    let old = ImageRefs { container_images: vec![] };
    let new = ImageRefs {
        container_images: vec![(
            "tool".to_owned(),
            image(vec![source("https://github.com/only-owner", "c2")]),
        )],
    };
    let err = collect_image_changes(&old, &new).unwrap_err();
    assert_eq!(err, AuditError::Parse(ParseIssue::BadPathFormat));
}

#[test]
fn empty_manifests_plan_nothing() {
    let old = ImageRefs { container_images: vec![] };
    let new = ImageRefs { container_images: vec![] };
    let changes = collect_image_changes(&old, &new).unwrap();
    assert!(changes.is_empty());
}

#[test]
fn each_old_source_gets_its_own_comparison() {
    let url = "https://github.com/sapcc/tool.git";
    let other = "https://github.com/sapcc/other.git";
    let old = ImageRefs {
        container_images: vec![(
            "tool".to_owned(),
            image(vec![source(url, "c1"), source(other, "c0")]),
        )],
    };
    let new = ImageRefs {
        container_images: vec![("tool".to_owned(), image(vec![source(url, "c2")]))],
    };
    let changes = collect_image_changes(&old, &new).unwrap();
    assert_eq!(changes.len(), 2);
    assert_eq!(changes[0].base_commit, "c1");
    assert_eq!(changes[0].head_commit, "c2");
    assert_eq!(changes[1].base_commit, "");
    assert_eq!(changes[1].head_commit, "c2");
    assert_eq!(changes[0].remote.original, url);
    assert_eq!(changes[1].remote.original, url);
}

#[test]
fn plan_names_repositories_and_revisions() {
    let old = ImageRefs { container_images: vec![] };
    let new = ImageRefs {
        container_images: vec![(
            "tool".to_owned(),
            image(vec![source("https://github.com/sapcc/tool.git", "c2")]),
        )],
    };
    let plan = pear_reviewer::helm_config::plan_image_changes(&old, &new);
    assert_eq!(plan.len(), 1);
    assert_eq!(plan[0].name, "tool");
    assert_eq!(plan[0].repo, "https://github.com/sapcc/tool.git");
    assert_eq!(plan[0].base, "");
    assert_eq!(plan[0].head, "c2");
}
