//! Repository declarations, shared by descriptors and settings.
use vstd::prelude::*;

use crate::maven::pom_parser::{child_text, field_text, find_last_child, last_child};
use crate::text::{copy_string, text_is};
use crate::xml::dom_parser::Node;
use crate::xml::opt_view;

verus! {

/// A remote repository.
#[derive(Debug)]
pub struct Repository {
    pub releases: Option<RepositoryPolicy>,
    pub snapshots: Option<RepositoryPolicy>,
    pub id: Option<String>,
    pub name: Option<String>,
    pub url: Option<String>,
    pub layout: String,
}

/// How a repository is used for one kind of artifact.
#[derive(Debug)]
pub struct RepositoryPolicy {
    pub enabled: bool,
    pub update_policy: Option<String>,
    pub checksum_policy: Option<String>,
}

/// A policy as plain values: enabled, update policy, checksum policy.
pub type PolicyView = (bool, Option<Seq<char>>, Option<Seq<char>>);

/// A repository as plain values: releases, snapshots, id, name, url, layout.
pub type RepositoryView = (
    Option<PolicyView>,
    Option<PolicyView>,
    Option<Seq<char>>,
    Option<Seq<char>>,
    Option<Seq<char>>,
    Seq<char>,
);

pub open spec fn policy_view(p: RepositoryPolicy) -> PolicyView {
    (p.enabled, opt_view(p.update_policy), opt_view(p.checksum_policy))
}

pub open spec fn opt_policy_view(p: Option<RepositoryPolicy>) -> Option<PolicyView> {
    match p {
        Some(q) => Some(policy_view(q)),
        None => None,
    }
}

pub open spec fn repository_view(r: Repository) -> RepositoryView {
    (
        opt_policy_view(r.releases),
        opt_policy_view(r.snapshots),
        opt_view(r.id),
        opt_view(r.name),
        opt_view(r.url),
        r.layout@,
    )
}

pub open spec fn repositories_view(v: Seq<Repository>) -> Seq<RepositoryView> {
    v.map_values(|r: Repository| repository_view(r))
}

/// A boolean child: `true` exactly when its text is `true`; `default` when
/// the child or its text is absent.
pub open spec fn flag(children: Seq<Node>, tag: Seq<char>, default: bool) -> bool {
    match field_text(children, tag) {
        Some(t) => t == "true"@,
        None => default,
    }
}

/// The policy an element describes; it is enabled unless it says otherwise.
pub open spec fn policy_model(n: Node) -> PolicyView {
    (
        flag(n.children@, "enabled"@, true),
        field_text(n.children@, "update_policy"@),
        field_text(n.children@, "checksum_policy"@),
    )
}

pub open spec fn opt_policy_model(n: Option<Node>) -> Option<PolicyView> {
    match n {
        Some(m) => Some(policy_model(m)),
        None => None,
    }
}

/// The repository an element describes; the layout is `default` unless given.
pub open spec fn repository_model(n: Node) -> RepositoryView {
    let c = n.children@;
    (
        opt_policy_model(last_child(c, "releases"@)),
        opt_policy_model(last_child(c, "snapshots"@)),
        field_text(c, "id"@),
        field_text(c, "name"@),
        field_text(c, "url"@),
        match field_text(c, "layout"@) {
            Some(l) => l,
            None => "default"@,
        },
    )
}

/// The repositories the `repository` children describe, in order.
pub open spec fn repository_models(children: Seq<Node>) -> Seq<RepositoryView>
    decreases children.len(),
{
    if children.len() == 0 {
        Seq::empty()
    } else if children.last().name@ == "repository"@ {
        repository_models(children.drop_last()).push(repository_model(children.last()))
    } else {
        repository_models(children.drop_last())
    }
}

/// Whether a boolean child is set, `default` when it is absent.
pub fn child_flag(children: &Vec<Node>, tag: &str, default: bool) -> (r: bool)
    ensures
        r == flag(children@, tag@, default),
{
    match child_text(children, tag) {
        Some(t) => text_is(&t, "true"),
        None => default,
    }
}

/// The repositories that the `repository` children of `element` describe.
pub fn get_repositories(element: &Node) -> (r: Vec<Repository>)
    ensures
        repositories_view(r@) == repository_models(element.children@),
{
    let children = &element.children;
    let mut repositories: Vec<Repository> = Vec::new();
    let mut i: usize = 0;
    while i < children.len()
        invariant
            i <= children.len(),
            children@ == element.children@,
            repositories_view(repositories@) == repository_models(children@.take(i as int)),
        decreases children.len() - i,
    {
        let ghost before = repositories@;
        assert(children@.take(i + 1).drop_last() =~= children@.take(i as int));
        assert(children@.take(i + 1).last() == children@[i as int]);
        if text_is(&children[i].name, "repository") {
            repositories.push(get_repository(&children[i]));
            assert(repositories_view(repositories@) =~= repositories_view(before).push(
                repository_model(children@[i as int]),
            ));
        }
        i = i + 1;
    }
    assert(children@.take(children.len() as int) =~= children@);
    repositories
}

/// The repository an element describes.
pub fn get_repository(element: &Node) -> (r: Repository)
    ensures
        repository_view(r) == repository_model(*element),
{
    let c = &element.children;
    let releases = match find_last_child(c, "releases") {
        Some(n) => Some(get_update_policy(n)),
        None => None,
    };
    let snapshots = match find_last_child(c, "snapshots") {
        Some(n) => Some(get_update_policy(n)),
        None => None,
    };
    let layout = match child_text(c, "layout") {
        Some(l) => l,
        None => "default".to_owned(),
    };
    Repository {
        releases,
        snapshots,
        id: child_text(c, "id"),
        name: child_text(c, "name"),
        url: child_text(c, "url"),
        layout,
    }
}

/// The policy an element describes.
pub fn get_update_policy(element: &Node) -> (r: RepositoryPolicy)
    ensures
        policy_view(r) == policy_model(*element),
{
    RepositoryPolicy {
        enabled: child_flag(&element.children, "enabled", true),
        update_policy: child_text(&element.children, "update_policy"),
        checksum_policy: child_text(&element.children, "checksum_policy"),
    }
}

/// A copy of a policy.
pub fn copy_policy(p: &RepositoryPolicy) -> (r: RepositoryPolicy)
    ensures
        policy_view(r) == policy_view(*p),
{
    RepositoryPolicy {
        enabled: p.enabled,
        update_policy: copy_optional_string(&p.update_policy),
        checksum_policy: copy_optional_string(&p.checksum_policy),
    }
}

/// A copy of a repository.
pub fn copy_repository(r: &Repository) -> (c: Repository)
    ensures
        repository_view(c) == repository_view(*r),
{
    Repository {
        releases: match &r.releases {
            Some(p) => Some(copy_policy(p)),
            None => None,
        },
        snapshots: match &r.snapshots {
            Some(p) => Some(copy_policy(p)),
            None => None,
        },
        id: copy_optional_string(&r.id),
        name: copy_optional_string(&r.name),
        url: copy_optional_string(&r.url),
        layout: copy_string(&r.layout),
    }
}

/// A copy of an optional string.
pub fn copy_optional_string(o: &Option<String>) -> (r: Option<String>)
    ensures
        opt_view(r) == opt_view(*o),
{
    match o {
        Some(s) => Some(copy_string(s)),
        None => None,
    }
}

} // verus!
