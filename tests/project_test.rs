use undeepend::maven::pom_view::Artifact;
use undeepend::maven::project::{module_directory, parse_project, PomIterator, ProjectError};

fn pom(body: &str) -> String {
    format!(
        "<?xml version=\"1.0\" encoding=\"UTF-8\"?>\n<project>\n{}\n</project>\n",
        body
    )
}

fn files(entries: &[(&str, String)]) -> Vec<(String, String)> {
    entries
        .iter()
        .map(|(d, t)| (d.to_string(), t.clone()))
        .collect()
}

#[test]
fn managed_version_from_property_in_same_descriptor() {
    let root = pom(
        "<groupId>g</groupId><artifactId>root</artifactId>
         <properties><v>1.1</v></properties>
         <dependencyManagement><dependencies><dependency>
           <groupId>org.hamcrest</groupId><artifactId>hamcrest-core</artifactId><version>${v}</version>
         </dependency></dependencies></dependencyManagement>
         <dependencies><dependency>
           <groupId>org.hamcrest</groupId><artifactId>hamcrest-core</artifactId>
         </dependency></dependencies>",
    );
    let project = parse_project(&"p".to_string(), &files(&[("p", root)])).unwrap();
    let deps = project.get_dependencies(&project.root);
    assert_eq!(deps.len(), 1);
    assert_eq!(deps[0].group_id, "org.hamcrest");
    assert_eq!(deps[0].artifact_id, "hamcrest-core");
    assert_eq!(deps[0].version, Some("1.1".to_string()));
}

#[test]
fn property_found_in_parent_descriptor() {
    let root = pom(
        "<groupId>g</groupId><artifactId>root</artifactId>
         <properties><v>1.1</v></properties>
         <modules><module>child</module></modules>",
    );
    let child = pom(
        "<parent><groupId>g</groupId><artifactId>root</artifactId><version>1</version></parent>
         <groupId>g</groupId><artifactId>child</artifactId>
         <dependencyManagement><dependencies><dependency>
           <groupId>org.hamcrest</groupId><artifactId>hamcrest-core</artifactId><version>${v}</version>
         </dependency></dependencies></dependencyManagement>
         <dependencies><dependency>
           <groupId>org.hamcrest</groupId><artifactId>hamcrest-core</artifactId>
         </dependency></dependencies>",
    );
    let project =
        parse_project(&"p".to_string(), &files(&[("p", root), ("p/child", child)])).unwrap();
    let module = &project.root.modules[0];
    let deps = project.get_dependencies(module);
    assert_eq!(deps[0].version, Some("1.1".to_string()));
}

#[test]
fn managed_version_found_in_parent_descriptor() {
    let root = pom(
        "<groupId>g</groupId><artifactId>root</artifactId>
         <dependencyManagement><dependencies><dependency>
           <groupId>x</groupId><artifactId>y</artifactId><version>2.0</version>
         </dependency></dependencies></dependencyManagement>
         <modules><module>child</module></modules>",
    );
    let child = pom(
        "<parent><groupId>g</groupId><artifactId>root</artifactId><version>1</version></parent>
         <artifactId>child</artifactId>
         <dependencies><dependency><groupId>x</groupId><artifactId>y</artifactId></dependency>
         <dependency><groupId>x</groupId><artifactId>z</artifactId><version>3.0</version></dependency>
         </dependencies>",
    );
    let project =
        parse_project(&"p".to_string(), &files(&[("p", root), ("p/child", child)])).unwrap();
    let deps = project.get_dependencies(&project.root.modules[0]);
    assert_eq!(deps[0].version, Some("2.0".to_string()));
    assert_eq!(deps[1].version, Some("3.0".to_string()));
}

#[test]
fn unknown_property_leaves_version_absent() {
    let root = pom(
        "<groupId>g</groupId><artifactId>root</artifactId>
         <dependencies><dependency>
           <groupId>a</groupId><artifactId>b</artifactId><version>${nowhere}</version>
         </dependency>
         <dependency><groupId>a</groupId><artifactId>c</artifactId></dependency>
         </dependencies>",
    );
    let project = parse_project(&"p".to_string(), &files(&[("p", root)])).unwrap();
    let deps = project.get_dependencies(&project.root);
    assert_eq!(deps.len(), 2);
    assert_eq!(deps[0].artifact_id, "b");
    assert_eq!(deps[0].version, None);
    assert_eq!(deps[1].version, None);
}

#[test]
fn two_levels_of_modules() {
    let root = pom("<artifactId>root</artifactId><modules><module>a</module></modules>");
    let a = pom("<artifactId>a</artifactId><modules><module>b</module></modules>");
    let b = pom("<artifactId>b</artifactId>");
    let project = parse_project(
        &"proj".to_string(),
        &files(&[("proj", root), ("proj/a", a), ("proj/b", b)]),
    )
    .unwrap();
    assert_eq!(project.root.directory, "proj");
    assert_eq!(project.root.modules.len(), 1);
    let a = &project.root.modules[0];
    assert_eq!(a.artifact_id, "a");
    assert_eq!(a.directory, "proj/a");
    assert_eq!(a.modules.len(), 1);
    let b = &a.modules[0];
    assert_eq!(b.artifact_id, "b");
    assert_eq!(b.directory, "proj/b");
    assert_eq!(project.root.module_names, vec!["a".to_string()]);
    assert_eq!(a.module_names, vec!["b".to_string()]);
    assert_eq!(b.modules.len(), 0);
}

#[test]
fn missing_module_descriptor_is_reported() {
    let root = pom("<artifactId>root</artifactId><modules><module>a</module></modules>");
    assert_eq!(
        parse_project(&"proj".to_string(), &files(&[("proj", root)])).unwrap_err(),
        ProjectError::MissingDescriptor("proj/a".to_string())
    );
}

#[test]
fn self_referencing_module_is_reported() {
    let root = pom("<artifactId>root</artifactId><modules><module>a</module></modules>");
    let a = pom("<artifactId>a</artifactId><modules><module>a</module></modules>");
    assert_eq!(
        parse_project(&"proj".to_string(), &files(&[("proj", root), ("proj/a", a)])).unwrap_err(),
        ProjectError::CyclicModuleReference("proj/a".to_string())
    );
}

#[test]
fn bad_module_descriptor_is_reported() {
    let root = pom("<artifactId>root</artifactId><modules><module>a</module></modules>");
    let a = pom("<groupId>g</groupId>");
    assert!(matches!(
        parse_project(&"proj".to_string(), &files(&[("proj", root), ("proj/a", a)])),
        Err(ProjectError::Pom(_, _))
    ));
}

#[test]
fn pom_iterator_walks_root_modules() {
    let root = pom("<artifactId>root</artifactId><modules><module>a</module><module>b</module></modules>");
    let a = pom("<artifactId>a</artifactId>");
    let b = pom("<artifactId>b</artifactId>");
    let project = parse_project(
        &"r".to_string(),
        &files(&[("r", root), ("r/a", a), ("r/b", b)]),
    )
    .unwrap();
    let mut it = PomIterator::new(&project);
    assert_eq!(it.next().unwrap().artifact_id, "a");
    assert_eq!(it.next().unwrap().artifact_id, "b");
    assert!(it.next().is_none());
}

#[test]
fn module_directories_are_joined() {
    assert_eq!(module_directory(&"proj".to_string(), &"a".to_string()), "proj/a");
    assert_eq!(module_directory(&"proj/".to_string(), &"a".to_string()), "proj/a");
    assert_eq!(module_directory(&"".to_string(), &"a".to_string()), "a");
}

#[test]
fn artifact_paths_and_snapshots() {
    let a = Artifact::new("org.example", "lib", "1.0-SNAPSHOT");
    assert_eq!(a.path, "org/example/lib/1.0-SNAPSHOT");
    assert!(a.is_snapshot());
    assert!(!Artifact::new("g", "n", "1.0").is_snapshot());
    assert!(!Artifact::new("g", "n", "SNAPSHOT").is_snapshot());
}

#[test]
fn placeholder_inside_text_names_its_property() {
    let root = pom(
        "<groupId>g</groupId><artifactId>root</artifactId>
         <properties><v>2.5</v></properties>
         <dependencies><dependency>
           <groupId>a</groupId><artifactId>b</artifactId><version>x${v}</version>
         </dependency></dependencies>",
    );
    let project = parse_project(&"p".to_string(), &files(&[("p", root)])).unwrap();
    let deps = project.get_dependencies(&project.root);
    assert_eq!(deps[0].version, Some("2.5".to_string()));
}
