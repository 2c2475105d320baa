//! Maps the tree of a `pom.xml` onto the descriptor model.
use vstd::prelude::*;

use crate::maven::pom::{
    dependencies_view, property_value, Dependency, DependencyView, Developer, Parent, Pom,
};
use crate::text::{copy_string, text_is};
use crate::xml::dom_parser::{
    build_arena, get_document, lemma_mirrors_unique, mirrors, same_tree, Node,
};
use crate::xml::syntax::{document, error_view};
use crate::xml::{opt_view, SaxError};

verus! {

/// Why a descriptor could not be read.
#[derive(Debug, PartialEq)]
pub enum PomError {
    /// The text is not a well-formed document.
    Xml(SaxError),
    /// A mandatory element is absent or has no text.
    MissingRequiredField(String),
}

/// The last child named `tag`.
pub open spec fn last_child(children: Seq<Node>, tag: Seq<char>) -> Option<Node>
    decreases children.len(),
{
    if children.len() == 0 {
        None
    } else if children.last().name@ == tag {
        Some(children.last())
    } else {
        last_child(children.drop_last(), tag)
    }
}

/// The text of the last child named `tag`.
pub open spec fn field_text(children: Seq<Node>, tag: Seq<char>) -> Option<Seq<char>> {
    match last_child(children, tag) {
        Some(n) => opt_view(n.text),
        None => None,
    }
}

/// A `dependency` element names its group and artifact.
pub open spec fn dependency_ok(n: Node) -> bool {
    field_text(n.children@, "groupId"@) is Some && field_text(n.children@, "artifactId"@) is Some
}

/// The dependency a `dependency` element describes.
pub open spec fn dependency_model(n: Node) -> DependencyView {
    (
        field_text(n.children@, "groupId"@).unwrap(),
        field_text(n.children@, "artifactId"@).unwrap(),
        field_text(n.children@, "version"@),
    )
}

/// Every `dependency` child names its group and artifact.
pub open spec fn dependencies_ok(children: Seq<Node>) -> bool {
    forall|i: int|
        0 <= i < children.len() && (#[trigger] children[i]).name@ == "dependency"@ ==> dependency_ok(
            children[i],
        )
}

/// The dependencies that the `dependency` children describe, in order.
pub open spec fn dependency_models(children: Seq<Node>) -> Seq<DependencyView>
    decreases children.len(),
{
    if children.len() == 0 {
        Seq::empty()
    } else if children.last().name@ == "dependency"@ {
        dependency_models(children.drop_last()).push(dependency_model(children.last()))
    } else {
        dependency_models(children.drop_last())
    }
}

/// A `parent` element names group, artifact and version.
pub open spec fn parent_ok(n: Node) -> bool {
    &&& field_text(n.children@, "groupId"@) is Some
    &&& field_text(n.children@, "artifactId"@) is Some
    &&& field_text(n.children@, "version"@) is Some
}

pub open spec fn parent_view(p: Parent) -> (Seq<char>, Seq<char>, Seq<char>) {
    (p.group_id@, p.artifact_id@, p.version@)
}

/// The coordinates a `parent` element holds.
pub open spec fn parent_model(n: Node) -> (Seq<char>, Seq<char>, Seq<char>) {
    (
        field_text(n.children@, "groupId"@).unwrap(),
        field_text(n.children@, "artifactId"@).unwrap(),
        field_text(n.children@, "version"@).unwrap(),
    )
}

/// Every child has text.
pub open spec fn all_have_text(children: Seq<Node>) -> bool {
    forall|i: int| 0 <= i < children.len() ==> (#[trigger] children[i]).text is Some
}

/// No name occurs twice in a property table.
pub open spec fn unique_names(v: Seq<(String, String)>) -> bool {
    forall|i: int, j: int| 0 <= i < j < v.len() ==> (#[trigger] v[i]).0@ != (#[trigger] v[j]).0@
}

/// A property table holds what a `properties` element's children say: one
/// entry per name, with the text of the last child of that name.
pub open spec fn properties_of(v: Seq<(String, String)>, children: Seq<Node>) -> bool {
    &&& unique_names(v)
    &&& forall|name: Seq<char>| #[trigger] property_value(v, name) == field_text(children, name)
}

proof fn lemma_property_at(v: Seq<(String, String)>, j: int)
    requires
        unique_names(v),
        0 <= j < v.len(),
    ensures
        property_value(v, v[j].0@) == Some(v[j].1@),
    decreases v.len(),
{
    if j < v.len() - 1 {
        assert(v.last().0@ != v[j].0@);
        assert(unique_names(v.drop_last()));
        assert(v.drop_last()[j] == v[j]);
        lemma_property_at(v.drop_last(), j);
    }
}

proof fn lemma_property_absent(v: Seq<(String, String)>, name: Seq<char>)
    requires
        forall|i: int| 0 <= i < v.len() ==> (#[trigger] v[i]).0@ != name,
    ensures
        property_value(v, name) is None,
    decreases v.len(),
{
    if v.len() > 0 {
        assert(v.last().0@ != name);
        lemma_property_absent(v.drop_last(), name);
    }
}

/// In a table without repeated names, a name's value is that of its entry.
proof fn lemma_property_lookup(v: Seq<(String, String)>, name: Seq<char>)
    requires
        unique_names(v),
    ensures
        (exists|j: int| 0 <= j < v.len() && (#[trigger] v[j]).0@ == name && property_value(v, name) == Some(v[j].1@))
            || (property_value(v, name) is None && forall|i: int| 0 <= i < v.len() ==> (#[trigger] v[i]).0@ != name),
{
    if exists|j: int| 0 <= j < v.len() && (#[trigger] v[j]).0@ == name {
        let j = choose|j: int| 0 <= j < v.len() && (#[trigger] v[j]).0@ == name;
        lemma_property_at(v, j);
    } else {
        lemma_property_absent(v, name);
    }
}

/// The text of each child: the entries of a `modules` element.
pub open spec fn module_models(children: Seq<Node>) -> Seq<Seq<char>> {
    children.map_values(|c: Node| opt_view(c.text).unwrap())
}

pub open spec fn strings_view(v: Seq<String>) -> Seq<Seq<char>> {
    v.map_values(|s: String| s@)
}

/// The `dependencies` element inside a `dependencyManagement` element: its
/// first child.
pub open spec fn managed_list(n: Node) -> Option<Node> {
    if n.children.len() > 0 {
        Some(n.children@[0])
    } else {
        None
    }
}

/// The sections of a descriptor can all be mapped: the artifact is named,
/// and the last `parent`, `dependencies`, `dependencyManagement`,
/// `properties` and `modules` elements are complete.
pub open spec fn pom_ok(children: Seq<Node>) -> bool {
    &&& field_text(children, "artifactId"@) is Some
    &&& (last_child(children, "parent"@) matches Some(p) ==> parent_ok(p))
    &&& (last_child(children, "dependencies"@) matches Some(d) ==> dependencies_ok(d.children@))
    &&& (last_child(children, "dependencyManagement"@) matches Some(m) ==> (managed_list(m) matches Some(
        d,
    ) ==> dependencies_ok(d.children@)))
    &&& (last_child(children, "properties"@) matches Some(p) ==> all_have_text(p.children@))
    &&& (last_child(children, "modules"@) matches Some(m) ==> all_have_text(m.children@))
}

/// The dependencies a section holds, or none without the section.
pub open spec fn section_dependencies(section: Option<Node>) -> Seq<DependencyView> {
    match section {
        Some(d) => dependency_models(d.children@),
        None => Seq::empty(),
    }
}

/// The dependency-management entries of a descriptor.
pub open spec fn managed_dependencies(children: Seq<Node>) -> Seq<DependencyView> {
    match last_child(children, "dependencyManagement"@) {
        Some(m) => section_dependencies(managed_list(m)),
        None => Seq::empty(),
    }
}

/// `pom` is the descriptor that the root element `root` describes, read
/// from `dir`: the last element of each kind counts.
pub open spec fn pom_matches(pom: Pom, root: Node, dir: Seq<char>) -> bool {
    pom.modules.len() == 0 && pom_fields(pom, root, dir)
}

/// The declared module names of a descriptor's root element.
pub open spec fn declared_modules(root: Node) -> Seq<Seq<char>> {
    match last_child(root.children@, "modules"@) {
        Some(m) => module_models(m.children@),
        None => Seq::empty(),
    }
}

/// What a descriptor's mapping gives for the root element `root`: success
/// exactly when its sections are complete, a missing field otherwise, and on
/// success the descriptor that `root` describes.
pub open spec fn pom_result(r: Result<Pom, PomError>, root: Node, dir: Seq<char>) -> bool {
    &&& (r is Ok <==> pom_ok(root.children@))
    &&& (r is Err ==> r matches Err(PomError::MissingRequiredField(_)))
    &&& (r matches Ok(pom) ==> pom_matches(pom, root, dir))
}

/// Every field of `pom` but its loaded modules is what the root element
/// `root` describes, read from `dir`.
pub open spec fn pom_fields(pom: Pom, root: Node, dir: Seq<char>) -> bool {
    let c = root.children@;
    &&& pom.directory@ == dir
    &&& opt_view(pom.group_id) == field_text(c, "groupId"@)
    &&& Some(pom.artifact_id@) == field_text(c, "artifactId"@)
    &&& opt_view(pom.version) == field_text(c, "version"@)
    &&& opt_view(pom.name) == field_text(c, "name"@)
    &&& opt_view(pom.packaging) == field_text(c, "packaging"@)
    &&& opt_view(pom.url) == field_text(c, "url"@)
    &&& match last_child(c, "parent"@) {
        Some(p) => (pom.parent matches Some(q) && parent_view(q) == parent_model(p)),
        None => pom.parent is None,
    }
    &&& dependencies_view(pom.dependencies@) == section_dependencies(last_child(c, "dependencies"@))
    &&& dependencies_view(pom.dependency_management@) == managed_dependencies(c)
    &&& match last_child(c, "properties"@) {
        Some(p) => properties_of(pom.properties@, p.children@),
        None => pom.properties.len() == 0,
    }
    &&& strings_view(pom.module_names@) == declared_modules(root)
}

/// Children that hold the same trees, position by position.
pub open spec fn same_children(a: Seq<Node>, b: Seq<Node>) -> bool {
    &&& a.len() == b.len()
    &&& forall|i: int| 0 <= i < a.len() ==> same_tree(#[trigger] a[i], b[i])
}

proof fn lemma_same_children(a: Node, b: Node)
    requires
        same_tree(a, b),
    ensures
        same_children(a.children@, b.children@),
{
}

proof fn lemma_last_child_same(a: Seq<Node>, b: Seq<Node>, tag: Seq<char>)
    requires
        same_children(a, b),
    ensures
        last_child(a, tag) is Some <==> last_child(b, tag) is Some,
        last_child(a, tag) matches Some(x) ==> same_tree(x, last_child(b, tag).unwrap()),
        field_text(a, tag) == field_text(b, tag),
    decreases a.len(),
{
    if a.len() > 0 {
        assert(same_tree(a.last(), b.last()));
        assert(same_children(a.drop_last(), b.drop_last())) by {
            assert forall|i: int| 0 <= i < a.drop_last().len() implies same_tree(
                #[trigger] a.drop_last()[i],
                b.drop_last()[i],
            ) by {
                assert(same_tree(a[i], b[i]));
            }
        }
        lemma_last_child_same(a.drop_last(), b.drop_last(), tag);
    }
}

proof fn lemma_dependencies_ok_same(a: Seq<Node>, b: Seq<Node>)
    requires
        same_children(a, b),
    ensures
        dependencies_ok(a) == dependencies_ok(b),
{
    assert forall|i: int| 0 <= i < a.len() implies (#[trigger] a[i]).name@ == b[i].name@ && dependency_ok(
        a[i],
    ) == dependency_ok(b[i]) by {
        assert(same_tree(a[i], b[i]));
        lemma_same_children(a[i], b[i]);
        lemma_last_child_same(a[i].children@, b[i].children@, "groupId"@);
        lemma_last_child_same(a[i].children@, b[i].children@, "artifactId"@);
    }
    if dependencies_ok(a) {
        assert forall|i: int|
            0 <= i < b.len() && (#[trigger] b[i]).name@ == "dependency"@ implies dependency_ok(b[i]) by {
            assert(a[i].name@ == b[i].name@);
        }
    }
    if dependencies_ok(b) {
        assert forall|i: int|
            0 <= i < a.len() && (#[trigger] a[i]).name@ == "dependency"@ implies dependency_ok(a[i]) by {
            assert(a[i].name@ == b[i].name@);
        }
    }
}

proof fn lemma_all_have_text_same(a: Seq<Node>, b: Seq<Node>)
    requires
        same_children(a, b),
    ensures
        all_have_text(a) == all_have_text(b),
{
    assert forall|i: int| 0 <= i < a.len() implies ((#[trigger] a[i]).text is Some) == (b[i].text is Some) by {
        assert(same_tree(a[i], b[i]));
    }
    if all_have_text(a) {
        assert forall|i: int| 0 <= i < b.len() implies (#[trigger] b[i]).text is Some by {
            assert((a[i].text is Some) == (b[i].text is Some));
        }
    }
    if all_have_text(b) {
        assert forall|i: int| 0 <= i < a.len() implies (#[trigger] a[i]).text is Some by {
            assert((a[i].text is Some) == (b[i].text is Some));
        }
    }
}

/// Whether a descriptor's sections are complete depends only on what the
/// views of its tree see.
pub proof fn lemma_pom_ok_same(a: Node, b: Node)
    requires
        same_tree(a, b),
    ensures
        pom_ok(a.children@) == pom_ok(b.children@),
{
    let ca = a.children@;
    let cb = b.children@;
    lemma_same_children(a, b);
    lemma_last_child_same(ca, cb, "artifactId"@);
    lemma_last_child_same(ca, cb, "parent"@);
    if let Some(p) = last_child(ca, "parent"@) {
        let q = last_child(cb, "parent"@).unwrap();
        lemma_same_children(p, q);
        lemma_last_child_same(p.children@, q.children@, "groupId"@);
        lemma_last_child_same(p.children@, q.children@, "artifactId"@);
        lemma_last_child_same(p.children@, q.children@, "version"@);
    }
    lemma_last_child_same(ca, cb, "dependencies"@);
    if let Some(d) = last_child(ca, "dependencies"@) {
        let e = last_child(cb, "dependencies"@).unwrap();
        lemma_same_children(d, e);
        lemma_dependencies_ok_same(d.children@, e.children@);
    }
    lemma_last_child_same(ca, cb, "dependencyManagement"@);
    if let Some(m) = last_child(ca, "dependencyManagement"@) {
        let n = last_child(cb, "dependencyManagement"@).unwrap();
        lemma_same_children(m, n);
        if m.children.len() > 0 {
            assert(same_tree(m.children@[0], n.children@[0]));
            lemma_same_children(m.children@[0], n.children@[0]);
            lemma_dependencies_ok_same(m.children@[0].children@, n.children@[0].children@);
        }
    }
    lemma_last_child_same(ca, cb, "properties"@);
    if let Some(p) = last_child(ca, "properties"@) {
        let q = last_child(cb, "properties"@).unwrap();
        lemma_same_children(p, q);
        lemma_all_have_text_same(p.children@, q.children@);
    }
    lemma_last_child_same(ca, cb, "modules"@);
    if let Some(p) = last_child(ca, "modules"@) {
        let q = last_child(cb, "modules"@).unwrap();
        lemma_same_children(p, q);
        lemma_all_have_text_same(p.children@, q.children@);
    }
}

/// Reads a descriptor: parses `xml` and maps its tree, recording `home_dir`
/// as the descriptor's directory.
pub fn get_pom(home_dir: String, xml: String) -> (r: Result<Pom, PomError>)
    ensures
        match document(xml@) {
            Err(e) => (r matches Err(PomError::Xml(x)) && error_view(x) == e),
            Ok(evs) => if build_arena(evs).nodes.len() == 0 {
                r matches Err(PomError::Xml(SaxError::UnexpectedEof))
            } else {
                &&& exists|root: Node|
                    #[trigger] mirrors(build_arena(evs).nodes, 0, root) && pom_result(
                        r,
                        root,
                        home_dir@,
                    )
                &&& forall|root: Node|
                    #[trigger] mirrors(build_arena(evs).nodes, 0, root) ==> ((r is Ok <==> pom_ok(
                        root.children@,
                    )) && (r is Err ==> r matches Err(PomError::MissingRequiredField(_))))
            },
        },
        r matches Ok(pom) ==> pom.directory@ == home_dir@ && pom.modules.len() == 0,
{
    let ghost dir = home_dir@;
    let ghost xml_view = xml@;
    match get_document(xml) {
        Ok(doc) => {
            let r = pom_from_root(home_dir, &doc.root);
            assert(pom_result(r, doc.root, dir));
            proof {
                let nodes = build_arena(document(xml_view)->Ok_0).nodes;
                assert forall|root: Node| #[trigger] mirrors(nodes, 0, root) implies (r is Ok
                    <==> pom_ok(root.children@)) by {
                    lemma_mirrors_unique(nodes, 0, root, doc.root);
                    lemma_pom_ok_same(root, doc.root);
                }
            }
            r
        },
        Err(e) => Err(PomError::Xml(e)),
    }
}

/// Maps the root element of a descriptor onto the model.
pub fn pom_from_root(home_dir: String, root: &Node) -> (r: Result<Pom, PomError>)
    ensures
        r is Ok <==> pom_ok(root.children@),
        r is Err ==> r matches Err(PomError::MissingRequiredField(_)),
        r matches Ok(pom) ==> pom_matches(pom, *root, home_dir@),
{
    let children = &root.children;
    let group_id = child_text(children, "groupId");
    let artifact_id = match child_text(children, "artifactId") {
        Some(a) => a,
        None => {
            return Err(PomError::MissingRequiredField("artifactId".to_owned()));
        },
    };
    let version = child_text(children, "version");
    let name = child_text(children, "name");
    let packaging = child_text(children, "packaging");
    let url = child_text(children, "url");
    let parent = match find_last_child(children, "parent") {
        Some(p) => Some(get_parent(p)?),
        None => None,
    };
    let dependencies = match find_last_child(children, "dependencies") {
        Some(d) => get_dependencies(d)?,
        None => Vec::new(),
    };
    let dependency_management = match find_last_child(children, "dependencyManagement") {
        Some(m) => get_dependency_mgmt(m)?,
        None => Vec::new(),
    };
    let properties = match find_last_child(children, "properties") {
        Some(p) => get_properties(p)?,
        None => Vec::new(),
    };
    let mut module_names: Vec<String> = Vec::new();
    match find_last_child(children, "modules") {
        Some(m) => add_modules(m, &mut module_names)?,
        None => {},
    }
    assert(strings_view(module_names@) =~= match last_child(root.children@, "modules"@) {
        Some(m) => module_models(m.children@),
        None => Seq::empty(),
    });
    assert(dependencies_view(dependencies@) =~= section_dependencies(
        last_child(root.children@, "dependencies"@),
    ));
    let ghost dir = home_dir@;
    let pom = Pom {
        parent,
        group_id,
        artifact_id,
        version,
        name,
        packaging,
        url,
        dependencies,
        dependency_management,
        properties,
        module_names,
        modules: Vec::new(),
        directory: home_dir,
    };
    let ghost c = root.children@;
    assert(dependencies_view(pom.dependency_management@) =~= managed_dependencies(c));
    assert(pom.directory@ == dir);
    assert(opt_view(pom.group_id) == field_text(c, "groupId"@));
    assert(Some(pom.artifact_id@) == field_text(c, "artifactId"@));
    assert(match last_child(c, "parent"@) {
        Some(p) => (pom.parent matches Some(q) && parent_view(q) == parent_model(p)),
        None => pom.parent is None,
    });
    assert(pom_matches(pom, *root, dir));
    Ok(pom)}

/// The last child named `tag`.
pub fn find_last_child<'a>(children: &'a Vec<Node>, tag: &str) -> (r: Option<&'a Node>)
    ensures
        match last_child(children@, tag@) {
            Some(n) => r == Some(&n),
            None => r is None,
        },
{
    let mut j: usize = children.len();
    assert(children@.take(j as int) =~= children@);
    while j > 0
        invariant
            j <= children.len(),
            last_child(children@, tag@) == last_child(children@.take(j as int), tag@),
        decreases j,
    {
        assert(children@.take(j as int).drop_last() =~= children@.take(j - 1));
        if text_is(&children[j - 1].name, tag) {
            return Some(&children[j - 1]);
        }
        j = j - 1;
    }
    None
}

/// The text of the last child named `tag`.
pub fn child_text(children: &Vec<Node>, tag: &str) -> (r: Option<String>)
    ensures
        opt_view(r) == field_text(children@, tag@),
{
    match find_last_child(children, tag) {
        Some(n) => match &n.text {
            Some(t) => Some(copy_string(t)),
            None => None,
        },
        None => None,
    }
}

/// Appends the text of each child of a `modules` element to `modules`.
pub fn add_modules(element: &Node, modules: &mut Vec<String>) -> (r: Result<(), PomError>)
    ensures
        r is Ok <==> all_have_text(element.children@),
        r is Err ==> r matches Err(PomError::MissingRequiredField(_)),
        r is Ok ==> strings_view(final(modules)@) == strings_view(old(modules)@) + module_models(
            element.children@,
        ),
{
    let children = &element.children;
    let mut i: usize = 0;
    while i < children.len()
        invariant
            i <= children.len(),
            children@ == element.children@,
            all_have_text(children@.take(i as int)),
            strings_view(modules@) == strings_view(old(modules)@) + module_models(
                children@.take(i as int),
            ),
        decreases children.len() - i,
    {
        let ghost before = modules@;
        match &children[i].text {
            Some(t) => modules.push(copy_string(t)),
            None => {
                return Err(PomError::MissingRequiredField("module".to_owned()));
            },
        }
        assert(children@.take(i + 1) =~= children@.take(i as int).push(children@[i as int]));
        assert(strings_view(modules@) =~= strings_view(before).push(modules@.last()@));
        assert(module_models(children@.take(i + 1)) =~= module_models(children@.take(i as int)).push(
            opt_view(children@[i as int].text).unwrap(),
        ));
        i = i + 1;
    }
    assert(children@.take(children.len() as int) =~= children@);
    Ok(())
}

/// The name and text of each child of a `properties` element.
pub fn get_properties(element: &Node) -> (r: Result<Vec<(String, String)>, PomError>)
    ensures
        r is Ok <==> all_have_text(element.children@),
        r is Err ==> r matches Err(PomError::MissingRequiredField(_)),
        r matches Ok(v) ==> properties_of(v@, element.children@),
{
    let children = &element.children;
    let mut properties: Vec<(String, String)> = Vec::new();
    let mut i: usize = 0;
    assert(children@.take(0) =~= Seq::<Node>::empty());
    while i < children.len()
        invariant
            i <= children.len(),
            children@ == element.children@,
            all_have_text(children@.take(i as int)),
            properties_of(properties@, children@.take(i as int)),
        decreases children.len() - i,
    {
        let ghost before = properties@;
        let c = &children[i];
        assert(children@.take(i + 1) =~= children@.take(i as int).push(children@[i as int]));
        assert(children@.take(i + 1).drop_last() =~= children@.take(i as int));
        match &c.text {
            Some(t) => {
                let mut j: usize = 0;
                let mut found = false;
                while j < properties.len() && !found
                    invariant
                        j <= properties.len(),
                        properties@ == before,
                        found ==> j < properties.len() && properties@[j as int].0@ == c.name@,
                        forall|k: int| 0 <= k < j ==> (#[trigger] properties@[k]).0@ != c.name@,
                    decreases properties.len() - j + if found { 0int } else { 1int },
                {
                    if properties[j].0 == c.name {
                        found = true;
                    } else {
                        j = j + 1;
                    }
                }
                if found {
                    properties[j].1 = copy_string(t);
                    proof {
                        assert(properties@.len() == before.len());
                        assert(properties@[j as int].0 == before[j as int].0);
                        assert forall|k: int| 0 <= k < before.len() && k != j implies #[trigger] properties@[k] == before[k] by {}
                        assert forall|a: int, b: int| 0 <= a < b < properties.len() implies (#[trigger] properties@[a]).0@
                            != (#[trigger] properties@[b]).0@ by {
                            if a != j {
                                assert(properties@[a] == before[a]);
                            }
                            if b != j {
                                assert(properties@[b] == before[b]);
                            }
                        }
                        assert forall|name: Seq<char>| #[trigger] property_value(properties@, name)
                            == field_text(children@.take(i + 1), name) by {
                            lemma_property_lookup(properties@, name);
                            lemma_property_lookup(before, name);
                            if name == c.name@ {
                                lemma_property_at(properties@, j as int);
                            } else {
                                if exists|k: int| 0 <= k < before.len() && (#[trigger] before[k]).0@ == name {
                                    let k = choose|k: int| 0 <= k < before.len() && (#[trigger] before[k]).0@ == name;
                                    assert(k != j);
                                    assert(properties@[k] == before[k]);
                                    lemma_property_at(before, k);
                                    lemma_property_at(properties@, k);
                                } else {
                                    assert forall|k: int| 0 <= k < properties.len() implies (#[trigger] properties@[k]).0@ != name by {
                                        if k != j {
                                            assert(properties@[k] == before[k]);
                                        }
                                    }
                                    lemma_property_absent(properties@, name);
                                    lemma_property_absent(before, name);
                                }
                            }
                        }
                    }
                } else {
                    properties.push((copy_string(&c.name), copy_string(t)));
                    proof {
                        assert forall|a: int, b: int| 0 <= a < b < properties.len() implies (#[trigger] properties@[a]).0@
                            != (#[trigger] properties@[b]).0@ by {
                            if b == properties.len() - 1 {
                                assert(properties@[a] == before[a]);
                                assert(forall|k: int| 0 <= k < before.len() ==> (#[trigger] before[k]).0@ != c.name@);
                            } else {
                                assert(properties@[a] == before[a]);
                                assert(properties@[b] == before[b]);
                            }
                        }
                        assert(properties@.drop_last() =~= before);
                        assert forall|name: Seq<char>| #[trigger] property_value(properties@, name)
                            == field_text(children@.take(i + 1), name) by {
                            assert(property_value(before, name) == field_text(children@.take(i as int), name));
                        }
                    }
                }
            },
            None => {
                let mut message = "property ".to_owned();
                message.append(c.name.as_str());
                return Err(PomError::MissingRequiredField(message));
            },
        }
        i = i + 1;
    }
    assert(children@.take(children.len() as int) =~= children@);
    Ok(properties)
}

/// The dependencies of a `dependencyManagement` element: those of its first
/// child, or none.
pub fn get_dependency_mgmt(element: &Node) -> (r: Result<Vec<Dependency>, PomError>)
    ensures
        r is Ok <==> (managed_list(*element) matches Some(d) ==> dependencies_ok(d.children@)),
        r is Err ==> r matches Err(PomError::MissingRequiredField(_)),
        r matches Ok(v) ==> dependencies_view(v@) == section_dependencies(managed_list(*element)),
{
    if element.children.len() > 0 {
        get_dependencies(&element.children[0])
    } else {
        let v: Vec<Dependency> = Vec::new();
        assert(dependencies_view(v@) =~= Seq::<DependencyView>::empty());
        Ok(v)
    }
}

/// The dependencies that the `dependency` children of `element` describe.
pub fn get_dependencies(element: &Node) -> (r: Result<Vec<Dependency>, PomError>)
    ensures
        r is Ok <==> dependencies_ok(element.children@),
        r is Err ==> r matches Err(PomError::MissingRequiredField(_)),
        r matches Ok(v) ==> dependencies_view(v@) == dependency_models(element.children@),
{
    let children = &element.children;
    let mut dependencies: Vec<Dependency> = Vec::new();
    let mut i: usize = 0;
    while i < children.len()
        invariant
            i <= children.len(),
            children@ == element.children@,
            dependencies_ok(children@.take(i as int)),
            dependencies_view(dependencies@) == dependency_models(children@.take(i as int)),
        decreases children.len() - i,
    {
        let ghost before = dependencies@;
        assert(children@.take(i + 1).drop_last() =~= children@.take(i as int));
        if text_is(&children[i].name, "dependency") {
            let d = get_dependency(&children[i])?;
            dependencies.push(d);
            assert(dependencies_view(dependencies@) =~= dependencies_view(before).push(
                dependency_model(children@[i as int]),
            ));
        }
        assert(children@.take(i + 1) =~= children@.take(i as int).push(children@[i as int]));
        i = i + 1;
    }
    assert(children@.take(children.len() as int) =~= children@);
    Ok(dependencies)
}

/// The dependency a `dependency` element describes.
pub fn get_dependency(element: &Node) -> (r: Result<Dependency, PomError>)
    ensures
        r is Ok <==> dependency_ok(*element),
        r is Err ==> r matches Err(PomError::MissingRequiredField(_)),
        r matches Ok(d) ==> crate::maven::pom::dependency_view(d) == dependency_model(*element),
{
    let group_id = match child_text(&element.children, "groupId") {
        Some(g) => g,
        None => {
            return Err(PomError::MissingRequiredField("groupId".to_owned()));
        },
    };
    let artifact_id = match child_text(&element.children, "artifactId") {
        Some(a) => a,
        None => {
            return Err(PomError::MissingRequiredField("artifactId".to_owned()));
        },
    };
    let version = child_text(&element.children, "version");
    Ok(Dependency { group_id, artifact_id, version })
}

/// The coordinates a `parent` element holds.
pub fn get_parent(element: &Node) -> (r: Result<Parent, PomError>)
    ensures
        r is Ok <==> parent_ok(*element),
        r is Err ==> r matches Err(PomError::MissingRequiredField(_)),
        r matches Ok(p) ==> parent_view(p) == parent_model(*element),
{
    let group_id = match child_text(&element.children, "groupId") {
        Some(g) => g,
        None => {
            return Err(PomError::MissingRequiredField("parent groupId".to_owned()));
        },
    };
    let artifact_id = match child_text(&element.children, "artifactId") {
        Some(a) => a,
        None => {
            return Err(PomError::MissingRequiredField("parent artifactId".to_owned()));
        },
    };
    let version = match child_text(&element.children, "version") {
        Some(v) => v,
        None => {
            return Err(PomError::MissingRequiredField("parent version".to_owned()));
        },
    };
    Ok(Parent { group_id, artifact_id, version })
}

/// A developer as plain values: id and name.
pub type DeveloperView = (Option<Seq<char>>, Seq<char>);

pub open spec fn developers_view(v: Seq<Developer>) -> Seq<DeveloperView> {
    v.map_values(|d: Developer| (opt_view(d.id), d.name@))
}

/// The developer a `developer` element describes.
pub open spec fn developer_model(n: Node) -> DeveloperView {
    (field_text(n.children@, "id"@), field_text(n.children@, "name"@).unwrap())
}

/// Every `developer` child has a name.
pub open spec fn developers_ok(children: Seq<Node>) -> bool {
    forall|i: int|
        0 <= i < children.len() && (#[trigger] children[i]).name@ == "developer"@ ==> field_text(
            children[i].children@,
            "name"@,
        ) is Some
}

/// The developers that the `developer` children describe, in order.
pub open spec fn developer_models(children: Seq<Node>) -> Seq<DeveloperView>
    decreases children.len(),
{
    if children.len() == 0 {
        Seq::empty()
    } else if children.last().name@ == "developer"@ {
        developer_models(children.drop_last()).push(developer_model(children.last()))
    } else {
        developer_models(children.drop_last())
    }
}

/// The developers that the `developer` children of `element` describe.
pub fn get_developers(element: &Node) -> (r: Result<Vec<Developer>, PomError>)
    ensures
        r is Ok <==> developers_ok(element.children@),
        r is Err ==> r matches Err(PomError::MissingRequiredField(_)),
        r matches Ok(v) ==> developers_view(v@) == developer_models(element.children@),
{
    let children = &element.children;
    let mut developers: Vec<Developer> = Vec::new();
    let mut i: usize = 0;
    while i < children.len()
        invariant
            i <= children.len(),
            children@ == element.children@,
            developers_ok(children@.take(i as int)),
            developers_view(developers@) == developer_models(children@.take(i as int)),
        decreases children.len() - i,
    {
        let ghost before = developers@;
        assert(children@.take(i + 1).drop_last() =~= children@.take(i as int));
        if text_is(&children[i].name, "developer") {
            let d = get_developer(&children[i])?;
            developers.push(d);
            assert(developers_view(developers@) =~= developers_view(before).push(
                developer_model(children@[i as int]),
            ));
        }
        assert(children@.take(i + 1) =~= children@.take(i as int).push(children@[i as int]));
        i = i + 1;
    }
    assert(children@.take(children.len() as int) =~= children@);
    Ok(developers)
}

/// The developer a `developer` element describes; the name is mandatory.
pub fn get_developer(element: &Node) -> (r: Result<Developer, PomError>)
    ensures
        r is Ok <==> field_text(element.children@, "name"@) is Some,
        r is Err ==> r matches Err(PomError::MissingRequiredField(_)),
        r matches Ok(d) ==> {
            &&& Some(d.name@) == field_text(element.children@, "name"@)
            &&& opt_view(d.id) == field_text(element.children@, "id"@)
        },
{
    let id = child_text(&element.children, "id");
    match child_text(&element.children, "name") {
        Some(name) => Ok(Developer { id, name }),
        None => Err(PomError::MissingRequiredField("developer name".to_owned())),
    }
}

} // verus!
