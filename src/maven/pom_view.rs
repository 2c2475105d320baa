//! An artifact as seen in a repository.
use vstd::prelude::*;

use crate::maven::pom::{dots_to_slashes, replace_dots};
use crate::text::{append_chars, chars_of, string_of};

verus! {

/// The coordinates of an artifact and its directory in a repository.
#[derive(Debug)]
pub struct Artifact {
    pub group: String,
    pub name: String,
    pub version: String,
    /// `group/with/slashes/name/version`.
    pub path: String,
}

impl Artifact {
    /// An artifact with these coordinates.
    pub fn new(group: &str, name: &str, version: &str) -> (r: Artifact)
        ensures
            r.group@ == group@,
            r.name@ == name@,
            r.version@ == version@,
            r.path@ == dots_to_slashes(group@) + seq!['/'] + name@ + seq!['/'] + version@,
    {
        let group = group.to_owned();
        let name = name.to_owned();
        let version = version.to_owned();
        let mut p = replace_dots(&group);
        p.push('/');
        append_chars(&mut p, &chars_of(name.as_str()));
        p.push('/');
        append_chars(&mut p, &chars_of(version.as_str()));
        let ghost g = dots_to_slashes(group@);
        assert(p@ =~= g + seq!['/'] + name@ + seq!['/'] + version@);
        Artifact { group, name, version, path: string_of(p.as_slice()) }
    }

    /// Whether the version is a snapshot: it ends with `-SNAPSHOT`.
    pub fn is_snapshot(&self) -> (r: bool)
        ensures
            r == ("-SNAPSHOT"@.len() <= self.version@.len() && self.version@.subrange(
                self.version@.len() - "-SNAPSHOT"@.len(),
                self.version@.len() as int,
            ) == "-SNAPSHOT"@),
    {
        let v = chars_of(self.version.as_str());
        let suffix = chars_of("-SNAPSHOT");
        if suffix.len() > v.len() {
            return false;
        }
        let start = v.len() - suffix.len();
        let mut i: usize = 0;
        while i < suffix.len()
            invariant
                i <= suffix.len(),
                start + suffix.len() == v.len(),
                v@ == self.version@,
                suffix@ == "-SNAPSHOT"@,
                v@.subrange(start as int, start + i) == suffix@.subrange(0, i as int),
            decreases suffix.len() - i,
        {
            if v[start + i] != suffix[i] {
                assert(v@.subrange(start as int, v.len() as int)[i as int] != suffix@[i as int]);
                return false;
            }
            assert(v@.subrange(start as int, start + i + 1) =~= v@.subrange(start as int, start + i).push(v@[start + i]));
            assert(suffix@.subrange(0, i + 1) =~= suffix@.subrange(0, i as int).push(suffix@[i as int]));
            i = i + 1;
        }
        assert(suffix@.subrange(0, suffix.len() as int) =~= suffix@);
        true
    }
}

} // verus!
