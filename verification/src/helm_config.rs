//! Deployment-manifest image references, and the selection logic that
//! turns the difference between an old and a new manifest into the list
//! of repository comparisons to audit.
//!
//! Reading the two manifest versions out of the local repository and
//! decoding their YAML is glue outside this crate; the comparison logic
//! on the decoded references is verified here.
use vstd::prelude::*;

use crate::changes::RepoChangeset;
use crate::errors::AuditError;
use crate::remote::{remote_parse_issue, remote_url_ok, repo_path_owner, repo_path_repository,
    url_host_of, url_path_of, url_port_of, Remote};
use crate::strings::str_eq;

verus! {

/// One source repository of a container image: where its code lives and
/// which commit was built.
#[derive(Debug)]
pub struct SourceRepoRef {
    pub repo: String,
    pub commit: String,
}

/// One container image of the manifest: its registry coordinates and the
/// source repositories it is built from.
#[derive(Debug)]
pub struct ImageRef {
    pub account: String,
    pub repository: String,
    pub tag: String,
    pub sources: Vec<SourceRepoRef>,
}

/// The container images of one manifest version, by image name. Image
/// names are unique.
#[derive(Debug)]
pub struct ImageRefs {
    pub container_images: Vec<(String, ImageRef)>,
}

impl ImageRefs {
    /// No image name occurs twice.
    pub open spec fn wf(&self) -> bool {
        forall|i: int, j: int|
            0 <= i < j < self.container_images@.len() ==> (#[trigger] self.container_images@[i]).0@
                != (#[trigger] self.container_images@[j]).0@
    }
}

/// Whether the manifest entries hold an image of this name.
pub open spec fn has_image(entries: Seq<(String, ImageRef)>, name: Seq<char>) -> bool {
    exists|i: int| 0 <= i < entries.len() && (#[trigger] entries[i]).0@ == name
}

/// The image of this name (unique when the manifest is well-formed).
pub open spec fn image_for(entries: Seq<(String, ImageRef)>, name: Seq<char>) -> ImageRef {
    entries[choose|i: int| 0 <= i < entries.len() && (#[trigger] entries[i]).0@ == name].1
}

/// One repository comparison the manifest difference asks for: which
/// repository, and which base and head commits.
#[verifier::ext_equal]
pub struct PlannedChange {
    pub name: Seq<char>,
    pub repo: Seq<char>,
    pub base: Seq<char>,
    pub head: Seq<char>,
}

/// What one source entry of a new image contributes: a single comparison
/// with no base when the image is new to the manifest; otherwise one
/// comparison per source of the old image, with the old commit as base
/// where the old source names the same repository and no base where it
/// does not.
pub open spec fn planned_for_source(
    old_entries: Seq<(String, ImageRef)>,
    name: Seq<char>,
    src: SourceRepoRef,
) -> Seq<PlannedChange> {
    if !has_image(old_entries, name) {
        seq![
            PlannedChange {
                name,
                repo: src.repo@,
                base: Seq::<char>::empty(),
                head: src.commit@,
            },
        ]
    } else {
        let old_sources = image_for(old_entries, name).sources;
        Seq::new(
            old_sources@.len(),
            |j: int|
                PlannedChange {
                    name,
                    repo: src.repo@,
                    base: if old_sources@[j].repo@ == src.repo@ {
                        old_sources@[j].commit@
                    } else {
                        Seq::<char>::empty()
                    },
                    head: src.commit@,
                },
        )
    }
}

/// What all sources of one new image contribute, in order.
pub open spec fn planned_for_sources(
    old_entries: Seq<(String, ImageRef)>,
    name: Seq<char>,
    sources: Seq<SourceRepoRef>,
) -> Seq<PlannedChange>
    decreases sources.len(),
{
    if sources.len() == 0 {
        Seq::empty()
    } else {
        planned_for_sources(old_entries, name, sources.drop_last()) + planned_for_source(
            old_entries,
            name,
            sources.last(),
        )
    }
}

/// The comparisons the whole manifest difference asks for, in manifest
/// order.
pub open spec fn planned_changes(
    old_entries: Seq<(String, ImageRef)>,
    new_entries: Seq<(String, ImageRef)>,
) -> Seq<PlannedChange>
    decreases new_entries.len(),
{
    if new_entries.len() == 0 {
        Seq::empty()
    } else {
        planned_changes(old_entries, new_entries.drop_last()) + planned_for_sources(
            old_entries,
            new_entries.last().0@,
            new_entries.last().1.sources@,
        )
    }
}

/// The comparisons the difference between two manifests asks for.
pub open spec fn manifest_plan(old: ImageRefs, new: ImageRefs) -> Seq<PlannedChange> {
    planned_changes(old.container_images@, new.container_images@)
}

/// One repository comparison in executable form.
#[derive(Debug)]
pub struct PlannedComparison {
    pub name: String,
    pub repo: String,
    pub base: String,
    pub head: String,
}

impl View for PlannedComparison {
    type V = PlannedChange;

    open spec fn view(&self) -> PlannedChange {
        PlannedChange { name: self.name@, repo: self.repo@, base: self.base@, head: self.head@ }
    }
}

impl DeepView for PlannedComparison {
    type V = PlannedChange;

    open spec fn deep_view(&self) -> PlannedChange {
        self.view()
    }
}

/// The image of this name, if the manifest holds one.
pub fn find_image<'a>(refs: &'a ImageRefs, name: &str) -> (r: Option<&'a ImageRef>)
    requires
        refs.wf(),
    ensures
        r matches Some(img) ==> has_image(refs.container_images@, name@) && *img == image_for(
            refs.container_images@,
            name@,
        ),
        r is None ==> !has_image(refs.container_images@, name@),
{
    let n = refs.container_images.len();
    let mut i: usize = 0;
    while i < n
        invariant
            refs.wf(),
            n == refs.container_images@.len(),
            0 <= i <= n,
            forall|j: int| 0 <= j < i ==> (#[trigger] refs.container_images@[j]).0@ != name@,
        decreases n - i,
    {
        if str_eq(refs.container_images[i].0.as_str(), name) {
            proof {
                let c = choose|j: int|
                    0 <= j < refs.container_images@.len()
                        && (#[trigger] refs.container_images@[j]).0@ == name@;
                assert(refs.container_images@[i as int].0@ == name@);
                assert(c == i as int);
            }
            return Some(&refs.container_images[i].1);
        }
        i += 1;
    }
    None
}

/// The comparisons the manifest difference asks for, as values: every
/// source of every image in the new manifest is compared against the old
/// manifest, exactly per `planned_changes`.
pub fn plan_image_changes(old: &ImageRefs, new: &ImageRefs) -> (r: Vec<PlannedComparison>)
    requires
        old.wf(),
    ensures
        r.deep_view() == manifest_plan(*old, *new),
{
    let ghost oe = old.container_images@;
    let ghost ne = new.container_images@;
    let mut plan: Vec<PlannedComparison> = Vec::new();
    let nn = new.container_images.len();
    let mut i: usize = 0;
    proof {
        assert(ne.take(0) =~= Seq::<(String, ImageRef)>::empty());
        assert(plan.deep_view() =~= planned_changes(oe, ne.take(0)));
    }
    while i < nn
        invariant
            old.wf(),
            oe == old.container_images@,
            ne == new.container_images@,
            nn == ne.len(),
            0 <= i <= nn,
            plan.deep_view() == planned_changes(oe, ne.take(i as int)),
        decreases nn - i,
    {
        let entry = &new.container_images[i];
        let name = &entry.0;
        let image = &entry.1;
        let ghost base_plan = planned_changes(oe, ne.take(i as int));
        let ns = image.sources.len();
        let mut j: usize = 0;
        proof {
            assert(image.sources@.take(0) =~= Seq::<SourceRepoRef>::empty());
            assert(base_plan + planned_for_sources(oe, name@, image.sources@.take(0))
                =~= base_plan);
        }
        while j < ns
            invariant
                old.wf(),
                oe == old.container_images@,
                0 <= i < ne.len(),
                entry == &ne[i as int],
                name == &entry.0,
                image == &entry.1,
                ns == image.sources@.len(),
                0 <= j <= ns,
                base_plan == planned_changes(oe, ne.take(i as int)),
                plan.deep_view() == base_plan + planned_for_sources(
                    oe,
                    name@,
                    image.sources@.take(j as int),
                ),
            decreases ns - j,
        {
            let src = &image.sources[j];
            let ghost plan_j = base_plan + planned_for_sources(
                oe,
                name@,
                image.sources@.take(j as int),
            );
            let ghost src_plan = planned_for_source(oe, name@, image.sources@[j as int]);
            match find_image(old, name.as_str()) {
                None => {
                    let ghost pre = plan.deep_view();
                    plan.push(
                        PlannedComparison {
                            name: name.clone(),
                            repo: src.repo.clone(),
                            base: String::new(),
                            head: src.commit.clone(),
                        },
                    );
                    proof {
                        assert(src_plan.len() == 1);
                        assert(plan.deep_view() =~= pre.push(src_plan[0]));
                        assert(plan.deep_view() =~= plan_j + src_plan);
                    }
                },
                Some(old_img) => {
                    let os = old_img.sources.len();
                    let mut q: usize = 0;
                    proof {
                        assert(src_plan.len() == os);
                        assert(src_plan.take(0) =~= Seq::<PlannedChange>::empty());
                        assert(plan_j + src_plan.take(0) =~= plan_j);
                    }
                    while q < os
                        invariant
                            0 <= q <= os,
                            os == old_img.sources@.len(),
                            0 <= i < ne.len(),
                            entry == &ne[i as int],
                            name == &entry.0,
                            image == &entry.1,
                            0 <= j < image.sources@.len(),
                            src == &image.sources@[j as int],
                            src_plan == planned_for_source(oe, name@, image.sources@[j as int]),
                            src_plan.len() == os,
                            forall|t: int|
                                0 <= t < os ==> (#[trigger] src_plan[t]).name == name@
                                    && src_plan[t].repo == image.sources@[j as int].repo@
                                    && src_plan[t].head == image.sources@[j as int].commit@
                                    && src_plan[t].base == (if old_img.sources@[t].repo@
                                    == image.sources@[j as int].repo@ {
                                    old_img.sources@[t].commit@
                                } else {
                                    Seq::<char>::empty()
                                }),
                            plan_j == base_plan + planned_for_sources(
                                oe,
                                name@,
                                image.sources@.take(j as int),
                            ),
                            plan.deep_view() == plan_j + src_plan.take(q as int),
                        decreases os - q,
                    {
                        let old_src = &old_img.sources[q];
                        let base = if str_eq(old_src.repo.as_str(), src.repo.as_str()) {
                            old_src.commit.clone()
                        } else {
                            String::new()
                        };
                        let ghost pre = plan.deep_view();
                        plan.push(
                            PlannedComparison {
                                name: name.clone(),
                                repo: src.repo.clone(),
                                base,
                                head: src.commit.clone(),
                            },
                        );
                        proof {
                            assert(plan.deep_view() =~= pre.push(src_plan[q as int]));
                            assert(src_plan.take(q as int + 1) =~= src_plan.take(q as int).push(
                                src_plan[q as int],
                            ));
                            assert(plan.deep_view() =~= plan_j + src_plan.take(q as int + 1));
                        }
                        q += 1;
                    }
                    proof {
                        assert(src_plan.take(os as int) =~= src_plan);
                    }
                },
            }
            proof {
                assert(image.sources@.take(j as int + 1).drop_last() =~= image.sources@.take(
                    j as int,
                ));
                assert(image.sources@.take(j as int + 1).last() == image.sources@[j as int]);
                assert(planned_for_sources(oe, name@, image.sources@.take(j as int + 1))
                    == planned_for_sources(oe, name@, image.sources@.take(j as int))
                    + planned_for_source(oe, name@, image.sources@[j as int]));
                assert(plan.deep_view() =~= base_plan + planned_for_sources(
                    oe,
                    name@,
                    image.sources@.take(j as int + 1),
                ));
            }
            j += 1;
        }
        proof {
            assert(image.sources@.take(ns as int) =~= image.sources@);
            assert(ne.take(i as int + 1).drop_last() =~= ne.take(i as int));
            assert(ne.take(i as int + 1).last() == ne[i as int]);
            assert(planned_changes(oe, ne.take(i as int + 1)) == planned_changes(
                oe,
                ne.take(i as int),
            ) + planned_for_sources(oe, ne[i as int].0@, ne[i as int].1.sources@));
        }
        i += 1;
    }
    proof {
        assert(ne.take(nn as int) =~= ne);
    }
    plan
}

/// Whether one repository audit realizes one planned comparison: a fresh
/// audit of the planned repository between the planned revisions, whose
/// remote identity is the parse of the planned URL.
pub open spec fn repo_change_matches(rc: RepoChangeset, p: PlannedChange) -> bool {
    &&& remote_url_ok(p.repo)
    &&& rc.name@ == p.name
    &&& rc.remote.original@ == p.repo
    &&& rc.remote.host@ == url_host_of(p.repo)->0
    &&& rc.remote.port == url_port_of(p.repo)->0
    &&& rc.remote.owner@ == repo_path_owner(url_path_of(p.repo))
    &&& rc.remote.repository@ == repo_path_repository(url_path_of(p.repo))
    &&& rc.base_commit@ == p.base
    &&& rc.head_commit@ == p.head
    &&& rc.changes@.len() == 0
}

/// Whether the audit list realizes the plan, comparison by comparison.
pub open spec fn repo_changes_match(v: Seq<RepoChangeset>, plan: Seq<PlannedChange>) -> bool {
    &&& v.len() == plan.len()
    &&& forall|i: int| 0 <= i < plan.len() ==> repo_change_matches(#[trigger] v[i], plan[i])
}

/// Turns the difference between an old and a new manifest into the list
/// of repository audits to run.
///
/// Succeeds exactly when every planned source repository URL names a
/// remote; the first planned URL that does not aborts the whole
/// collection with that URL's parse error.
pub fn collect_image_changes(old: &ImageRefs, new: &ImageRefs) -> (r: Result<
    Vec<RepoChangeset>,
    AuditError,
>)
    requires
        old.wf(),
    ensures
        (r is Ok) == (forall|i: int|
            0 <= i < manifest_plan(*old, *new).len() ==> remote_url_ok(
                (#[trigger] manifest_plan(*old, *new)[i]).repo,
            )),
        r matches Ok(v) ==> repo_changes_match(v@, manifest_plan(*old, *new)),
        r matches Err(e) ==> (exists|i: int|
            0 <= i < manifest_plan(*old, *new).len() && !remote_url_ok(
                (#[trigger] manifest_plan(*old, *new)[i]).repo,
            ) && (forall|j: int|
                0 <= j < i ==> remote_url_ok(manifest_plan(*old, *new)[j].repo)) && e
                == AuditError::Parse(remote_parse_issue(manifest_plan(*old, *new)[i].repo))),
{
    let ghost full_plan = manifest_plan(*old, *new);
    let plan = plan_image_changes(old, new);
    let n = plan.len();
    let mut changes: Vec<RepoChangeset> = Vec::new();
    let mut k: usize = 0;
    proof {
        assert(full_plan.take(0) =~= Seq::<PlannedChange>::empty());
    }
    while k < n
        invariant
            n == plan@.len(),
            plan.deep_view() == full_plan,
            full_plan == manifest_plan(*old, *new),
            0 <= k <= n,
            repo_changes_match(changes@, full_plan.take(k as int)),
        decreases n - k,
    {
        let p = &plan[k];
        proof {
            assert(p.deep_view() == full_plan[k as int]);
        }
        let remote = match Remote::parse(p.repo.as_str()) {
            Ok(rem) => rem,
            Err(e) => {
                proof {
                    assert(!remote_url_ok(full_plan[k as int].repo));
                    assert forall|j: int| 0 <= j < k as int implies remote_url_ok(
                        full_plan[j].repo,
                    ) by {
                        assert(repo_change_matches(changes@[j], full_plan.take(k as int)[j]));
                    }
                    assert(!(forall|i: int|
                        0 <= i < full_plan.len() ==> remote_url_ok(
                            (#[trigger] full_plan[i]).repo,
                        )));
                }
                return Err(e);
            },
        };
        let ghost pre = changes@;
        changes.push(RepoChangeset::new(p.name.clone(), remote, p.base.clone(), p.head.clone()));
        proof {
            assert(full_plan.take(k as int + 1) =~= full_plan.take(k as int).push(
                full_plan[k as int],
            ));
            assert(repo_change_matches(changes@[k as int], full_plan[k as int]));
            assert forall|t: int|
                0 <= t < k as int + 1 implies repo_change_matches(
                (#[trigger] changes@[t]),
                full_plan.take(k as int + 1)[t],
            ) by {
                if t < k as int {
                    assert(changes@[t] == pre[t]);
                    assert(repo_change_matches(pre[t], full_plan.take(k as int)[t]));
                }
            }
        }
        k += 1;
    }
    proof {
        assert(full_plan.take(n as int) =~= full_plan);
        assert forall|i: int| 0 <= i < full_plan.len() implies remote_url_ok(
            (#[trigger] full_plan[i]).repo,
        ) by {
            assert(repo_change_matches(changes@[i], full_plan[i]));
        }
    }
    Ok(changes)
}

} // verus!
