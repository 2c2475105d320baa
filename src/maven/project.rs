//! A multi-module project and the resolution of its dependency versions.
//!
//! A version comes from the dependency itself, or from the first
//! `dependencyManagement` entry for the same coordinates along the chain of
//! parents; a `${name}` placeholder is then looked up among the properties
//! along the same chain. A parent is looked up among the project's own
//! descriptors, by group and artifact.
use vstd::prelude::*;

use crate::maven::pom::{join, join_path, property_value, Dependency, Pom};
use crate::maven::pom_parser::{
    declared_modules, get_pom, pom_fields, pom_matches, pom_ok, pom_result, strings_view, PomError,
};
use crate::xml::dom_parser::{build_arena, mirrors, Node};
use crate::xml::syntax::document;
use crate::text::copy_string;
use crate::xml::opt_view;
use crate::xml::sax_parser::first_index;

verus! {

/// The end of the line that position `p` is on: the first line break at or
/// after `p`, or the end of `s`.
pub open spec fn line_end(s: Seq<char>, p: int) -> int {
    match first_index(s, '\n', p) {
        Some(k) => k,
        None => s.len() as int,
    }
}

/// The last `}` in `[from, to)`.
pub open spec fn last_close(s: Seq<char>, from: int, to: int) -> Option<int>
    decreases to - from,
{
    if to <= from || to > s.len() {
        None
    } else if s[to - 1] == '}' {
        Some(to - 1)
    } else {
        last_close(s, from, to - 1)
    }
}

/// Where a match of `\$\{(.+)\}` that starts at `i` closes: `${`, then the
/// last `}` on the same line that leaves at least one character between.
pub open spec fn placeholder_close(s: Seq<char>, i: int) -> Option<int> {
    if 0 <= i && i + 1 < s.len() && s[i] == '$' && s[i + 1] == '{' {
        last_close(s, i + 3, line_end(s, i + 2))
    } else {
        None
    }
}

/// The text that `\$\{(.+)\}` captures in `s` from position `i` on: the
/// match that starts leftmost, its group running to the closing `}`.
pub open spec fn placeholder_from(s: Seq<char>, i: int) -> Option<Seq<char>>
    decreases s.len() - i,
{
    if i < 0 || i >= s.len() {
        None
    } else {
        match placeholder_close(s, i) {
            Some(j) => Some(s.subrange(i + 2, j)),
            None => placeholder_from(s, i + 1),
        }
    }
}

/// The property name that a `${name}` placeholder in `s` refers to, as the
/// pattern `\$\{(.+)\}` captures it.
pub open spec fn property_reference(s: Seq<char>) -> Option<Seq<char>> {
    placeholder_from(s, 0)
}

/// `s` is exactly `${name}` with a non-empty name on one line.
pub open spec fn is_plain_placeholder(s: Seq<char>) -> bool {
    &&& s.len() >= 4
    &&& s[0] == '$'
    &&& s[1] == '{'
    &&& s[s.len() - 1] == '}'
    &&& forall|k: int| 2 <= k < s.len() - 1 ==> #[trigger] s[k] != '\n'
}

proof fn lemma_no_line_break(s: Seq<char>, p: int)
    requires
        0 <= p,
        forall|k: int| p <= k < s.len() ==> #[trigger] s[k] != '\n',
    ensures
        first_index(s, '\n', p) is None,
    decreases s.len() - p,
{
    if p < s.len() {
        lemma_no_line_break(s, p + 1);
    }
}

/// A plain placeholder `${name}` refers to `name`.
pub proof fn lemma_plain_placeholder(s: Seq<char>)
    requires
        is_plain_placeholder(s),
    ensures
        property_reference(s) == Some(s.subrange(2, s.len() - 1)),
{
    assert forall|k: int| 2 <= k < s.len() implies #[trigger] s[k] != '\n' by {
        if k < s.len() - 1 {
            assert(s[k] != '\n');
        }
    }
    lemma_no_line_break(s, 2);
    assert(line_end(s, 2) == s.len());
    assert(last_close(s, 3, s.len() as int) == Some(s.len() - 1));
}

/// The version of a dependency whose raw version is a plain placeholder
/// `${name}` is the value of the property `name`, looked up along the chain
/// of parents.
pub proof fn lemma_plain_placeholder_version(root: Pom, p: Pom, d: Dependency)
    requires
        raw_version(root, p, d) matches Some(v) && is_plain_placeholder(v),
    ensures
        resolved_version(root, p, d) == inherited_property(
            root,
            p,
            raw_version(root, p, d).unwrap().subrange(2, raw_version(root, p, d).unwrap().len() - 1),
            chain_limit(root),
        ),
{
    lemma_plain_placeholder(raw_version(root, p, d).unwrap());
}

/// Relies on `regex::Regex::new` and `regex::Regex::captures` with the
/// pattern `\$\{(.+)\}`: the first capture group of the leftmost match;
/// `.` matches every character but a line break, and `.+` is greedy.
#[verifier::external_body]
fn placeholder_name(v: &str) -> (r: Option<String>)
    ensures
        opt_view(r) == property_reference(v@),
{
    let pattern = regex::Regex::new(r"\$\{(.+)\}").ok()?;
    pattern.captures(v).and_then(|c| c.get(1)).map(|m| m.as_str().to_string())
}

/// The descriptor is the one with these coordinates: its artifact is the
/// same, and it has the same group (a descriptor without group never matches).
pub open spec fn is_same(p: Pom, group_id: Seq<char>, artifact_id: Seq<char>) -> bool {
    &&& p.artifact_id@ == artifact_id
    &&& p.group_id matches Some(g) && g@ == group_id
}

/// The first descriptor with these coordinates in a depth-first walk of the
/// tree under `p`, `p` first.
pub open spec fn find_pom(p: Pom, group_id: Seq<char>, artifact_id: Seq<char>) -> Option<Pom>
    decreases p, p.modules@.len() + 1,
{
    if is_same(p, group_id, artifact_id) {
        Some(p)
    } else {
        find_in_modules(p, 0, group_id, artifact_id)
    }
}

/// The first descriptor with these coordinates under the modules of `p`
/// from the `i`-th on.
pub open spec fn find_in_modules(p: Pom, i: int, group_id: Seq<char>, artifact_id: Seq<char>) -> Option<
    Pom,
>
    decreases p, p.modules@.len() - i,
{
    if i < 0 || i >= p.modules@.len() {
        None
    } else {
        match find_pom(p.modules@[i], group_id, artifact_id) {
            Some(q) => Some(q),
            None => find_in_modules(p, i + 1, group_id, artifact_id),
        }
    }
}

/// The number of descriptors in the tree under `p`.
pub open spec fn pom_count(p: Pom) -> nat
    decreases p, p.modules@.len() + 1,
{
    1 + count_in_modules(p, 0)
}

pub open spec fn count_in_modules(p: Pom, i: int) -> nat
    decreases p, p.modules@.len() - i,
{
    if i < 0 || i >= p.modules@.len() {
        0
    } else {
        pom_count(p.modules@[i]) + count_in_modules(p, i + 1)
    }
}

/// The number of steps a walk along parents takes at most: the number of
/// descriptors in the project, as far as a `usize` counts. A longer walk
/// would visit a descriptor twice.
pub open spec fn chain_limit(root: Pom) -> nat {
    if pom_count(root) <= usize::MAX {
        pom_count(root)
    } else {
        usize::MAX as nat
    }
}

/// The descriptor of the project that `p` names as its parent.
pub open spec fn parent_pom(root: Pom, p: Pom) -> Option<Pom> {
    match p.parent {
        Some(par) => find_pom(root, par.group_id@, par.artifact_id@),
        None => None,
    }
}

/// The version of the first entry with these coordinates that has a version.
pub open spec fn first_managed(deps: Seq<Dependency>, group_id: Seq<char>, artifact_id: Seq<char>) -> Option<
    Seq<char>,
>
    decreases deps.len(),
{
    if deps.len() == 0 {
        None
    } else if deps[0].group_id@ == group_id && deps[0].artifact_id@ == artifact_id
        && deps[0].version is Some {
        opt_view(deps[0].version)
    } else {
        first_managed(deps.drop_first(), group_id, artifact_id)
    }
}

/// The managed version of these coordinates: from `p`'s own management
/// entries, else from its parent's, and so on, for at most `fuel` descriptors.
pub open spec fn managed_version(
    root: Pom,
    p: Pom,
    group_id: Seq<char>,
    artifact_id: Seq<char>,
    fuel: nat,
) -> Option<Seq<char>>
    decreases fuel,
{
    if fuel == 0 {
        None
    } else {
        match first_managed(p.dependency_management@, group_id, artifact_id) {
            Some(v) => Some(v),
            None => match parent_pom(root, p) {
                Some(q) => managed_version(root, q, group_id, artifact_id, (fuel - 1) as nat),
                None => None,
            },
        }
    }
}

/// The value of a property: from `p`'s own properties, else from its
/// parent's, and so on, for at most `fuel` descriptors.
pub open spec fn inherited_property(root: Pom, p: Pom, name: Seq<char>, fuel: nat) -> Option<
    Seq<char>,
>
    decreases fuel,
{
    if fuel == 0 {
        None
    } else {
        match property_value(p.properties@, name) {
            Some(v) => Some(v),
            None => match parent_pom(root, p) {
                Some(q) => inherited_property(root, q, name, (fuel - 1) as nat),
                None => None,
            },
        }
    }
}

/// A version with its placeholder, if any, replaced by the property it names.
pub open spec fn substituted(root: Pom, p: Pom, version: Seq<char>, reference: Option<Seq<char>>) -> Option<
    Seq<char>,
> {
    match reference {
        Some(name) => inherited_property(root, p, name, chain_limit(root)),
        None => Some(version),
    }
}

/// The version before placeholders are replaced: the declared one, else the
/// managed one.
pub open spec fn raw_version(root: Pom, p: Pom, d: Dependency) -> Option<Seq<char>> {
    match d.version {
        Some(v) => Some(v@),
        None => managed_version(root, p, d.group_id@, d.artifact_id@, chain_limit(root)),
    }
}

/// The effective version of a dependency that `p` declares.
pub open spec fn resolved_version(root: Pom, p: Pom, d: Dependency) -> Option<Seq<char>> {
    match raw_version(root, p, d) {
        Some(v) => substituted(root, p, v, property_reference(v)),
        None => None,
    }
}

/// The text supplied for a directory: the first entry for it.
pub open spec fn descriptor_text(ds: Seq<(String, String)>, dir: Seq<char>) -> Option<Seq<char>>
    decreases ds.len(),
{
    if ds.len() == 0 {
        None
    } else if ds[0].0@ == dir {
        Some(ds[0].1@)
    } else {
        descriptor_text(ds.drop_first(), dir)
    }
}

/// A descriptor text cannot be mapped: it does not parse, has no element,
/// or its root element misses a mandatory field.
pub open spec fn pom_fails(text: Seq<char>) -> bool {
    match document(text) {
        Err(_) => true,
        Ok(evs) => build_arena(evs).nodes.len() == 0 || exists|root: Node|
            #[trigger] mirrors(build_arena(evs).nodes, 0, root) && !pom_ok(root.children@),
    }
}

/// The descriptor of `dir` and those of all the modules it declares, at every
/// depth, can be loaded, nesting at most `depth` levels below it. A module
/// named `m` is read from `project_dir/m`, whatever declares it.
pub open spec fn loadable(
    project_dir: Seq<char>,
    dir: Seq<char>,
    ds: Seq<(String, String)>,
    depth: nat,
) -> bool
    decreases depth,
{
    match descriptor_text(ds, dir) {
        None => false,
        Some(text) => match document(text) {
            Err(_) => false,
            Ok(evs) => build_arena(evs).nodes.len() > 0 && forall|root: Node|
                #[trigger] mirrors(build_arena(evs).nodes, 0, root) ==> {
                    &&& pom_ok(root.children@)
                    &&& forall|i: int|
                        0 <= i < declared_modules(root).len() ==> depth > 0 && loadable(
                            project_dir,
                            join_path(project_dir, declared_modules(root)[i]),
                            ds,
                            (depth - 1) as nat,
                        )
                },
        },
    }
}

/// `p` and every module under it, at every depth, were loaded: each is what
/// the text supplied for its directory describes, with one module per
/// declared name, in order, read from `project_dir/name`.
pub open spec fn modules_loaded(p: Pom, project_dir: Seq<char>, ds: Seq<(String, String)>) -> bool
    decreases p,
{
    &&& descriptor_text(ds, p.directory@) matches Some(text)
    &&& document(text) matches Ok(evs)
    &&& exists|root: Node|
        #[trigger] mirrors(build_arena(evs).nodes, 0, root) && pom_fields(p, root, p.directory@)
    &&& p.modules.len() == p.module_names.len()
    &&& forall|i: int|
        0 <= i < p.modules.len() ==> {
            &&& (#[trigger] p.modules@[i]).directory@ == join_path(
                project_dir,
                p.module_names@[i]@,
            )
            &&& modules_loaded(p.modules@[i], project_dir, ds)
        }
}

/// The error names a directory whose descriptor is absent or cannot be
/// mapped.
pub open spec fn error_located(e: ProjectError, ds: Seq<(String, String)>) -> bool {
    match e {
        ProjectError::MissingDescriptor(d) => descriptor_text(ds, d@) is None,
        ProjectError::Pom(d, _) => descriptor_text(ds, d@) matches Some(text) && pom_fails(text),
        ProjectError::CyclicModuleReference(d) => descriptor_text(ds, d@) is Some,
    }
}

/// The number of descriptors in the tree under `p`, as far as a `usize` counts.
pub fn count_poms(p: &Pom) -> (r: usize)
    ensures
        r as nat == if pom_count(*p) <= usize::MAX {
            pom_count(*p)
        } else {
            usize::MAX as nat
        },
    decreases p,
{
    let mut total: usize = 1;
    let mut i: usize = p.modules.len();
    proof {
        assert(count_in_modules(*p, i as int) == 0);
    }
    while i > 0
        invariant
            i <= p.modules.len(),
            total as nat == if 1 + count_in_modules(*p, i as int) <= usize::MAX {
                1 + count_in_modules(*p, i as int)
            } else {
                usize::MAX as nat
            },
        decreases i,
    {
        let n = count_poms(&p.modules[i - 1]);
        total = if total > usize::MAX - n {
            usize::MAX
        } else {
            total + n
        };
        i = i - 1;
    }
    total
}

/// Why a project could not be loaded.
#[derive(Debug, PartialEq)]
pub enum ProjectError {
    /// The descriptor of this directory could not be read.
    Pom(String, PomError),
    /// No descriptor text was supplied for this directory.
    MissingDescriptor(String),
    /// The modules under this directory nest deeper than there are
    /// descriptors: their names lead back to a directory already visited.
    CyclicModuleReference(String),
}

/// The directory of a declared module.
pub fn module_directory(project_dir: &String, module: &String) -> (r: String)
    ensures
        r@ == join_path(project_dir@, module@),
{
    join(project_dir, module)
}

/// Builds a project from the descriptor texts of its directories: the
/// descriptor of `project_dir` is the root, and each module `m` declared at
/// any depth is read from `project_dir/m`.
pub fn parse_project(project_dir: &String, descriptors: &Vec<(String, String)>) -> (r: Result<
    Project,
    ProjectError,
>)
    ensures
        r matches Ok(p) ==> p.root.directory@ == project_dir@ && p.project_home@ == project_dir@
            && modules_loaded(p.root, project_dir@, descriptors@),
        r matches Err(e) ==> error_located(e, descriptors@),
        loadable(project_dir@, project_dir@, descriptors@, descriptors.len() as nat) ==> r is Ok,
{
    let mut root = read_pom(project_dir, descriptors)?;
    proof {
        let text = descriptor_text(descriptors@, project_dir@).unwrap();
        let evs = document(text)->Ok_0;
        let w = choose|w: Node| #[trigger] mirrors(build_arena(evs).nodes, 0, w) && pom_matches(root, w, project_dir@);
        assert(mirrors(build_arena(evs).nodes, 0, w));
        let n = descriptors.len() as nat;
        if loadable(project_dir@, project_dir@, descriptors@, n) {
            assert(strings_view(root.module_names@) == declared_modules(w));
            assert forall|k: int|
                0 <= k < root.module_names.len() implies n > 0 && loadable(
                    project_dir@,
                    join_path(project_dir@, #[trigger] root.module_names@[k]@),
                    descriptors@,
                    (n - 1) as nat,
                ) by {
                assert(root.module_names@[k]@ == strings_view(root.module_names@)[k]);
            }
            if root.module_names.len() > 0 {
                assert(root.module_names@[0]@ == strings_view(root.module_names@)[0]);
            }
        }
    }
    resolve_modules(&mut root, project_dir, descriptors, descriptors.len())?;
    Ok(Project { project_home: copy_string(project_dir), root })
}

/// The descriptor of a directory.
fn read_pom(dir: &String, descriptors: &Vec<(String, String)>) -> (r: Result<Pom, ProjectError>)
    ensures
        r matches Ok(p) ==> {
            &&& p.directory@ == dir@
            &&& p.modules.len() == 0
            &&& descriptor_text(descriptors@, dir@) matches Some(text)
            &&& document(text) matches Ok(evs)
            &&& exists|root: Node|
                #[trigger] mirrors(build_arena(evs).nodes, 0, root) && pom_matches(p, root, dir@)
        },
        r matches Err(e) ==> error_located(e, descriptors@),
        (descriptor_text(descriptors@, dir@) matches Some(text) && !pom_fails(text)) ==> r is Ok,
{
    let mut i: usize = 0;
    assert(descriptors@.skip(0) =~= descriptors@);
    while i < descriptors.len()
        invariant
            i <= descriptors.len(),
            descriptor_text(descriptors@, dir@) == descriptor_text(descriptors@.skip(i as int), dir@),
        decreases descriptors.len() - i,
    {
        assert(descriptors@.skip(i as int).drop_first() =~= descriptors@.skip(i + 1));
        assert(descriptors@.skip(i as int)[0] == descriptors@[i as int]);
        if descriptors[i].0 == *dir {
            let ghost text = descriptors@[i as int].1@;
            let r = get_pom(copy_string(dir), copy_string(&descriptors[i].1));
            return match r {
                Ok(p) => Ok(p),
                Err(e) => {
                    proof {
                        if let Ok(evs) = document(text) {
                            if build_arena(evs).nodes.len() > 0 {
                                let w = choose|w: Node| #[trigger] mirrors(build_arena(evs).nodes, 0, w) && pom_result(r, w, dir@);
                                assert(mirrors(build_arena(evs).nodes, 0, w) && !pom_ok(w.children@));
                            }
                        }
                    }
                    Err(ProjectError::Pom(copy_string(dir), e))
                },
            };
        }
        i = i + 1;
    }
    Err(ProjectError::MissingDescriptor(copy_string(dir)))
}

/// Loads the declared modules of `pom`, and theirs, at most `depth` levels deep.
fn resolve_modules(
    pom: &mut Pom,
    project_dir: &String,
    descriptors: &Vec<(String, String)>,
    depth: usize,
) -> (r: Result<(), ProjectError>)
    requires
        old(pom).modules.len() == 0,
        descriptor_text(descriptors@, old(pom).directory@) matches Some(text) && document(text) matches Ok(evs)
            && exists|root: Node|
            #[trigger] mirrors(build_arena(evs).nodes, 0, root) && pom_fields(*old(pom), root, old(pom).directory@),
    ensures
        final(pom).parent == old(pom).parent,
        final(pom).group_id == old(pom).group_id,
        final(pom).artifact_id == old(pom).artifact_id,
        final(pom).version == old(pom).version,
        final(pom).name == old(pom).name,
        final(pom).packaging == old(pom).packaging,
        final(pom).url == old(pom).url,
        final(pom).dependencies == old(pom).dependencies,
        final(pom).dependency_management == old(pom).dependency_management,
        final(pom).properties == old(pom).properties,
        final(pom).module_names == old(pom).module_names,
        final(pom).directory == old(pom).directory,
        r is Ok ==> modules_loaded(*final(pom), project_dir@, descriptors@),
        r matches Err(e) ==> error_located(e, descriptors@),
        (old(pom).module_names.len() == 0 || depth > 0) && (forall|i: int|
            0 <= i < old(pom).module_names.len() ==> loadable(
                project_dir@,
                join_path(project_dir@, #[trigger] old(pom).module_names@[i]@),
                descriptors@,
                (depth - 1) as nat,
            )) ==> r is Ok,
    decreases depth,
{
    if pom.module_names.len() == 0 {
        assert(pom.modules.len() == pom.module_names.len());
        return Ok(());
    }
    if depth == 0 {
        return Err(ProjectError::CyclicModuleReference(copy_string(&pom.directory)));
    }
    let ghost names = pom.module_names@;
    let mut modules: Vec<Pom> = Vec::new();
    let mut i: usize = 0;
    while i < pom.module_names.len()
        invariant
            i <= pom.module_names.len(),
            depth > 0,
            pom.module_names@ == names,
            *pom == *old(pom),
            modules.len() == i,
            forall|k: int|
                0 <= k < i ==> {
                    &&& (#[trigger] modules@[k]).directory@ == join_path(
                        project_dir@,
                        pom.module_names@[k]@,
                    )
                    &&& modules_loaded(modules@[k], project_dir@, descriptors@)
                },
        decreases pom.module_names.len() - i,
    {
        let dir = module_directory(project_dir, &pom.module_names[i]);
        let ghost wanted = forall|k: int|
            0 <= k < old(pom).module_names.len() ==> loadable(
                project_dir@,
                join_path(project_dir@, #[trigger] old(pom).module_names@[k]@),
                descriptors@,
                (depth - 1) as nat,
            );
        proof {
            if wanted {
                assert(loadable(project_dir@, dir@, descriptors@, (depth - 1) as nat));
            }
        }
        let mut module = read_pom(&dir, descriptors)?;
        proof {
            let text = descriptor_text(descriptors@, dir@).unwrap();
            let evs = document(text)->Ok_0;
            let w = choose|w: Node| #[trigger] mirrors(build_arena(evs).nodes, 0, w) && pom_matches(module, w, dir@);
            assert(mirrors(build_arena(evs).nodes, 0, w));
            if wanted {
                assert(loadable(project_dir@, dir@, descriptors@, (depth - 1) as nat));
                assert(strings_view(module.module_names@) == declared_modules(w));
                assert forall|k: int|
                    0 <= k < module.module_names.len() implies (depth - 1) > 0 && loadable(
                        project_dir@,
                        join_path(project_dir@, #[trigger] module.module_names@[k]@),
                        descriptors@,
                        (depth - 2) as nat,
                    ) by {
                    assert(module.module_names@[k]@ == strings_view(module.module_names@)[k]);
                }
                if module.module_names.len() > 0 {
                    assert(module.module_names@[0]@ == strings_view(module.module_names@)[0]);
                }
            }
        }
        let ghost before = module;
        resolve_modules(&mut module, project_dir, descriptors, depth - 1)?;
        proof {
            let text = descriptor_text(descriptors@, dir@).unwrap();
            let evs = document(text)->Ok_0;
            let w = choose|w: Node| #[trigger] mirrors(build_arena(evs).nodes, 0, w) && pom_matches(before, w, dir@);
            assert(pom_fields(module, w, module.directory@));
        }
        modules.push(module);
        i = i + 1;
    }
    pom.modules = modules;
    Ok(())
}

/// A project: its root descriptor, which holds the tree of its modules.
#[derive(Debug)]
pub struct Project {
    pub project_home: String,
    pub root: Pom,
}

impl Project {
    /// A project over an already loaded tree of descriptors.
    pub fn new(project_home: String, root: Pom) -> (r: Project)
        ensures
            r.project_home == project_home,
            r.root == root,
    {
        Project { project_home, root }
    }

    /// The dependencies `pom` declares, each with its effective version.
    pub fn get_dependencies(&self, pom: &Pom) -> (r: Vec<Dependency>)
        ensures
            r.len() == pom.dependencies.len(),
            forall|i: int|
                0 <= i < r.len() ==> {
                    &&& (#[trigger] r@[i]).group_id@ == pom.dependencies@[i].group_id@
                    &&& r@[i].artifact_id@ == pom.dependencies@[i].artifact_id@
                    &&& opt_view(r@[i].version) == resolved_version(
                        self.root,
                        *pom,
                        pom.dependencies@[i],
                    )
                },
    {
        let mut result: Vec<Dependency> = Vec::new();
        let mut i: usize = 0;
        while i < pom.dependencies.len()
            invariant
                i <= pom.dependencies.len(),
                result.len() == i,
                forall|k: int|
                    0 <= k < i ==> {
                        &&& (#[trigger] result@[k]).group_id@ == pom.dependencies@[k].group_id@
                        &&& result@[k].artifact_id@ == pom.dependencies@[k].artifact_id@
                        &&& opt_view(result@[k].version) == resolved_version(
                            self.root,
                            *pom,
                            pom.dependencies@[k],
                        )
                    },
            decreases pom.dependencies.len() - i,
        {
            let d = &pom.dependencies[i];
            let version = self.get_version(pom, d);
            result.push(
                Dependency {
                    group_id: copy_string(&d.group_id),
                    artifact_id: copy_string(&d.artifact_id),
                    version,
                },
            );
            i = i + 1;
        }
        result
    }

    /// The effective version of a dependency that `pom` declares.
    pub fn get_version(&self, pom: &Pom, dependency: &Dependency) -> (r: Option<String>)
        ensures
            opt_view(r) == resolved_version(self.root, *pom, *dependency),
            match raw_version(self.root, *pom, *dependency) {
                Some(v) => is_plain_placeholder(v) ==> opt_view(r) == inherited_property(
                    self.root,
                    *pom,
                    v.subrange(2, v.len() - 1),
                    chain_limit(self.root),
                ),
                None => true,
            },
    {
        proof {
            if raw_version(self.root, *pom, *dependency) matches Some(v) && is_plain_placeholder(v) {
                lemma_plain_placeholder_version(self.root, *pom, *dependency);
            }
        }
        let raw = match &dependency.version {
            Some(v) => Some(copy_string(v)),
            None => self.collect_managed_dependencies(
                pom,
                &dependency.group_id,
                &dependency.artifact_id,
            ),
        };
        match raw {
            Some(v) => {
                let reference = placeholder_name(v.as_str());
                self.resolve_placeholder(pom, v, reference)
            },
            None => None,
        }
    }

    /// A version with the placeholder `reference` replaced by the property it
    /// names, looked up along the chain of parents of `pom`; without a
    /// reference, the version itself.
    pub fn resolve_placeholder(&self, pom: &Pom, version: String, reference: Option<String>) -> (r:
        Option<String>)
        ensures
            opt_view(r) == substituted(self.root, *pom, version@, opt_view(reference)),
    {
        match reference {
            Some(name) => self.get_property(pom, &name),
            None => Some(version),
        }
    }

    /// The managed version of these coordinates along the chain of parents of `pom`.
    pub fn collect_managed_dependencies(
        &self,
        pom: &Pom,
        group_id: &String,
        artifact_id: &String,
    ) -> (r: Option<String>)
        ensures
            opt_view(r) == managed_version(
                self.root,
                *pom,
                group_id@,
                artifact_id@,
                chain_limit(self.root),
            ),
    {
        let mut fuel = count_poms(&self.root);
        let mut current = pom;
        loop
            invariant
                managed_version(self.root, *pom, group_id@, artifact_id@, chain_limit(self.root))
                    == managed_version(self.root, *current, group_id@, artifact_id@, fuel as nat),
            decreases fuel,
        {
            if fuel == 0 {
                return None;
            }
            match first_managed_version(&current.dependency_management, group_id, artifact_id) {
                Some(v) => {
                    return Some(v);
                },
                None => {},
            }
            match self.parent_of(current) {
                Some(q) => {
                    current = q;
                    fuel = fuel - 1;
                },
                None => {
                    return None;
                },
            }
        }
    }

    /// The value of a property along the chain of parents of `pom`.
    pub fn get_property(&self, pom: &Pom, name: &String) -> (r: Option<String>)
        ensures
            opt_view(r) == inherited_property(self.root, *pom, name@, chain_limit(self.root)),
    {
        let mut fuel = count_poms(&self.root);
        let mut current = pom;
        loop
            invariant
                inherited_property(self.root, *pom, name@, chain_limit(self.root))
                    == inherited_property(self.root, *current, name@, fuel as nat),
            decreases fuel,
        {
            if fuel == 0 {
                return None;
            }
            match current.property(name.as_str()) {
                Some(v) => {
                    return Some(v);
                },
                None => {},
            }
            match self.parent_of(current) {
                Some(q) => {
                    current = q;
                    fuel = fuel - 1;
                },
                None => {
                    return None;
                },
            }
        }
    }

    /// The descriptor of the project that `pom` names as its parent.
    pub fn parent_of(&self, pom: &Pom) -> (r: Option<&Pom>)
        ensures
            match parent_pom(self.root, *pom) {
                Some(q) => (r matches Some(x) && *x == q),
                None => r is None,
            },
    {
        match &pom.parent {
            Some(parent) => self.get_pom(&parent.group_id, &parent.artifact_id),
            None => None,
        }
    }

    /// The first descriptor of the project with these coordinates, root first.
    pub fn get_pom(&self, group_id: &String, artifact_id: &String) -> (r: Option<&Pom>)
        ensures
            match find_pom(self.root, group_id@, artifact_id@) {
                Some(q) => (r matches Some(x) && *x == q),
                None => r is None,
            },
    {
        find_project_pom(&self.root, group_id, artifact_id)
    }
}

/// Whether `pom` has these coordinates.
pub fn is_same_pom(pom: &Pom, group_id: &String, artifact_id: &String) -> (r: bool)
    ensures
        r == is_same(*pom, group_id@, artifact_id@),
{
    if pom.artifact_id == *artifact_id {
        match &pom.group_id {
            Some(g) => *g == *group_id,
            None => false,
        }
    } else {
        false
    }
}

/// The first descriptor with these coordinates under `pom`, `pom` first.
pub fn find_project_pom<'a>(pom: &'a Pom, group_id: &String, artifact_id: &String) -> (r: Option<
    &'a Pom,
>)
    ensures
        match find_pom(*pom, group_id@, artifact_id@) {
            Some(q) => (r matches Some(x) && *x == q),
            None => r is None,
        },
    decreases pom,
{
    if is_same_pom(pom, group_id, artifact_id) {
        return Some(pom);
    }
    let mut i: usize = 0;
    while i < pom.modules.len()
        invariant
            i <= pom.modules.len(),
            find_pom(*pom, group_id@, artifact_id@) == find_in_modules(
                *pom,
                i as int,
                group_id@,
                artifact_id@,
            ),
        decreases pom.modules.len() - i,
    {
        match find_project_pom(&pom.modules[i], group_id, artifact_id) {
            Some(q) => {
                return Some(q);
            },
            None => {},
        }
        i = i + 1;
    }
    None
}

/// The version of the first entry with these coordinates that has a version.
pub fn first_managed_version(deps: &Vec<Dependency>, group_id: &String, artifact_id: &String) -> (r:
    Option<String>)
    ensures
        opt_view(r) == first_managed(deps@, group_id@, artifact_id@),
{
    let mut i: usize = 0;
    assert(deps@.skip(0) =~= deps@);
    while i < deps.len()
        invariant
            i <= deps.len(),
            first_managed(deps@, group_id@, artifact_id@) == first_managed(
                deps@.skip(i as int),
                group_id@,
                artifact_id@,
            ),
        decreases deps.len() - i,
    {
        assert(deps@.skip(i as int).drop_first() =~= deps@.skip(i + 1));
        assert(deps@.skip(i as int)[0] == deps@[i as int]);
        let d = &deps[i];
        if d.group_id == *group_id && d.artifact_id == *artifact_id {
            match &d.version {
                Some(v) => {
                    return Some(copy_string(v));
                },
                None => {},
            }
        }
        i = i + 1;
    }
    None
}

/// Walks the modules directly under the project's root, in order.
pub struct PomIterator<'a> {
    project: &'a Project,
    idx: usize,
}

impl<'a> PomIterator<'a> {
    /// A walk that starts at the first module.
    pub fn new(project: &'a Project) -> (r: PomIterator<'a>)
        ensures
            r.position() == 0,
            r.project() == project,
    {
        PomIterator { project, idx: 0 }
    }

    pub closed spec fn position(&self) -> int {
        self.idx as int
    }

    pub closed spec fn project(&self) -> &'a Project {
        self.project
    }

    /// The next module, if any.
    pub fn next(&mut self) -> (r: Option<&'a Pom>)
        ensures
            final(self).project() == old(self).project(),
            old(self).position() < old(self).project().root.modules.len() ==> {
                &&& r matches Some(m) && *m == old(self).project().root.modules@[old(self).position()]
                &&& final(self).position() == old(self).position() + 1
            },
            old(self).position() >= old(self).project().root.modules.len() ==> r is None
                && final(self).position() == old(self).position(),
    {
        if self.idx < self.project.root.modules.len() {
            let m = &self.project.root.modules[self.idx];
            self.idx = self.idx + 1;
            Some(m)
        } else {
            None
        }
    }
}

} // verus!
