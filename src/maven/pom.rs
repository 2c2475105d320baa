//! The project object model.
use vstd::prelude::*;

use crate::text::{append_chars, chars_of, string_of};
use crate::xml::opt_view;

verus! {

/// A module descriptor.
#[derive(Debug)]
pub struct Pom {
    pub parent: Option<Parent>,
    pub group_id: Option<String>,
    pub artifact_id: String,
    pub version: Option<String>,
    pub name: Option<String>,
    pub packaging: Option<String>,
    pub url: Option<String>,
    pub dependencies: Vec<Dependency>,
    pub dependency_management: Vec<Dependency>,
    /// Property names and values; a later entry for a name overrides an earlier one.
    pub properties: Vec<(String, String)>,
    /// The directory names of the declared modules.
    pub module_names: Vec<String>,
    /// The descriptors of the declared modules, once loaded.
    pub modules: Vec<Pom>,
    /// The directory the descriptor was read from.
    pub directory: String,
}

/// The value a property table gives to `name`: its last entry for it.
pub open spec fn property_value(props: Seq<(String, String)>, name: Seq<char>) -> Option<Seq<char>>
    decreases props.len(),
{
    if props.len() == 0 {
        None
    } else if props.last().0@ == name {
        Some(props.last().1@)
    } else {
        property_value(props.drop_last(), name)
    }
}

impl Pom {
    /// The value of a property declared in this descriptor.
    pub fn property(&self, name: &str) -> (r: Option<String>)
        ensures
            opt_view(r) == property_value(self.properties@, name@),
    {
        let key = name.to_owned();
        let mut j: usize = self.properties.len();
        assert(self.properties@.take(j as int) =~= self.properties@);
        while j > 0
            invariant
                j <= self.properties.len(),
                key@ == name@,
                property_value(self.properties@, name@) == property_value(
                    self.properties@.take(j as int),
                    name@,
                ),
            decreases j,
        {
            assert(self.properties@.take(j as int).drop_last() =~= self.properties@.take(j - 1));
            if self.properties[j - 1].0 == key {
                return Some(self.properties[j - 1].1.clone());
            }
            j = j - 1;
        }
        None
    }
}

/// A license of the project.
#[derive(Debug, PartialEq)]
pub struct License {
    pub name: String,
    pub url: String,
    pub distribution: Option<String>,
}

/// The coordinates a descriptor names as its parent.
#[derive(Debug, PartialEq)]
pub struct Parent {
    pub group_id: String,
    pub artifact_id: String,
    pub version: String,
}

/// A developer of the project.
#[derive(Debug, PartialEq)]
pub struct Developer {
    pub id: Option<String>,
    pub name: String,
}

/// A dependency: its coordinates and its version, if known.
#[derive(Debug, PartialEq, Clone)]
pub struct Dependency {
    pub group_id: String,
    pub artifact_id: String,
    pub version: Option<String>,
}

/// A dependency as plain values: group, artifact, version.
pub type DependencyView = (Seq<char>, Seq<char>, Option<Seq<char>>);

pub open spec fn dependency_view(d: Dependency) -> DependencyView {
    (d.group_id@, d.artifact_id@, opt_view(d.version))
}

pub open spec fn dependencies_view(v: Seq<Dependency>) -> Seq<DependencyView> {
    v.map_values(|d: Dependency| dependency_view(d))
}

/// `s` with every `.` replaced by `/`.
pub open spec fn dots_to_slashes(s: Seq<char>) -> Seq<char> {
    s.map_values(|c: char| if c == '.' { '/' } else { c })
}

/// `a` and `b` joined as path components.
pub open spec fn join_path(a: Seq<char>, b: Seq<char>) -> Seq<char> {
    if a.len() == 0 {
        b
    } else if a.last() == '/' {
        a + b
    } else {
        a + seq!['/'] + b
    }
}

/// The repository path of an artifact:
/// `group/with/slashes/artifact/version/artifact-version.jar`.
pub open spec fn jar_path(group: Seq<char>, artifact: Seq<char>, version: Seq<char>) -> Seq<char> {
    dots_to_slashes(group) + seq!['/'] + artifact + seq!['/'] + version + seq!['/'] + artifact
        + seq!['-'] + version + ".jar"@
}

/// The version used in paths: the known one, or `latest`.
pub open spec fn path_version(v: Option<Seq<char>>) -> Seq<char> {
    match v {
        Some(s) => s,
        None => "latest"@,
    }
}

/// `s` with every `.` replaced by `/`.
pub fn replace_dots(s: &String) -> (r: Vec<char>)
    ensures
        r@ == dots_to_slashes(s@),
{
    let cs = chars_of(s.as_str());
    let mut r: Vec<char> = Vec::new();
    let mut i: usize = 0;
    while i < cs.len()
        invariant
            i <= cs.len(),
            cs@ == s@,
            r@ == dots_to_slashes(cs@.take(i as int)),
        decreases cs.len() - i,
    {
        let c = cs[i];
        r.push(if c == '.' { '/' } else { c });
        i = i + 1;
        assert(r@ =~= dots_to_slashes(cs@.take(i as int)));
    }
    assert(cs@.take(cs.len() as int) =~= cs@);
    r
}

/// `a` and `b` joined as path components.
pub fn join(a: &String, b: &String) -> (r: String)
    ensures
        r@ == join_path(a@, b@),
{
    let mut v = chars_of(a.as_str());
    let bs = chars_of(b.as_str());
    if v.len() > 0 && v[v.len() - 1] != '/' {
        v.push('/');
    }
    append_chars(&mut v, &bs);
    string_of(v.as_slice())
}

impl Dependency {
    /// The version used in paths.
    pub fn path_version(&self) -> (r: String)
        ensures
            r@ == path_version(opt_view(self.version)),
    {
        match &self.version {
            Some(v) => v.clone(),
            None => "latest".to_owned(),
        }
    }

    /// The path of the dependency's jar relative to a repository root.
    pub fn to_jar_path(&self) -> (r: String)
        ensures
            r@ == jar_path(self.group_id@, self.artifact_id@, path_version(opt_view(self.version))),
    {
        let version = chars_of(self.path_version().as_str());
        let artifact = chars_of(self.artifact_id.as_str());
        let suffix = chars_of(".jar");
        let mut p = replace_dots(&self.group_id);
        p.push('/');
        append_chars(&mut p, &artifact);
        p.push('/');
        append_chars(&mut p, &version);
        p.push('/');
        append_chars(&mut p, &artifact);
        p.push('-');
        append_chars(&mut p, &version);
        append_chars(&mut p, &suffix);
        let ghost g = dots_to_slashes(self.group_id@);
        assert(p@ =~= g + seq!['/'] + artifact@ + seq!['/'] + version@ + seq!['/'] + artifact@
            + seq!['-'] + version@ + ".jar"@);
        string_of(p.as_slice())
    }

    /// The path of the dependency's jar in the local repository under `home`.
    pub fn to_absolute_jar_path(&self, home: &String) -> (r: String)
        ensures
            r@ == join_path(
                join_path(home@, ".m2/repository"@),
                jar_path(self.group_id@, self.artifact_id@, path_version(opt_view(self.version))),
            ),
    {
        let repository = join(home, &".m2/repository".to_owned());
        join(&repository, &self.to_jar_path())
    }

    /// `group/with/slashes/artifact/version/artifact-version`.
    pub fn to_string(&self) -> (r: String)
        ensures
            r@ == dots_to_slashes(self.group_id@) + seq!['/'] + self.artifact_id@ + seq!['/']
                + path_version(opt_view(self.version)) + seq!['/'] + self.artifact_id@ + seq!['-']
                + path_version(opt_view(self.version)),
    {
        let version = chars_of(self.path_version().as_str());
        let artifact = chars_of(self.artifact_id.as_str());
        let mut p = replace_dots(&self.group_id);
        p.push('/');
        append_chars(&mut p, &artifact);
        p.push('/');
        append_chars(&mut p, &version);
        p.push('/');
        append_chars(&mut p, &artifact);
        p.push('-');
        append_chars(&mut p, &version);
        let ghost g = dots_to_slashes(self.group_id@);
        assert(p@ =~= g + seq!['/'] + artifact@ + seq!['/'] + version@ + seq!['/'] + artifact@
            + seq!['-'] + version@);
        string_of(p.as_slice())
    }
}

} // verus!
