use undeepend::maven::pom::Dependency;
use undeepend::maven::pom_parser::{get_pom, PomError};
use undeepend::xml::dom_parser::get_document;

const POM_XML: &str = r#"<?xml version="1.0" encoding="UTF-8"?>
<project xmlns="http://maven.apache.org/POM/4.0.0" xmlns:xsi="http://www.w3.org/2001/XMLSchema-instance" xsi:schemaLocation="http://maven.apache.org/POM/4.0.0 http://maven.apache.org/xsd/maven-4.0.0.xsd">
    <modelVersion>4.0.0</modelVersion>
    <!-- the library under test -->
    <groupId>org.mockito</groupId>
    <artifactId>mockito-core</artifactId>
    <version>1.9.5</version>
    <packaging>jar</packaging>
    <name>Mockito</name>
    <url>http://www.mockito.org</url>
    <properties>
        <maven.compiler.source>17</maven.compiler.source>
        <maven.compiler.target>21</maven.compiler.target>
        <hamcrest.version>1.1</hamcrest.version>
    </properties>
    <modules>
        <module>a</module>
        <module>b</module>
    </modules>
    <dependencyManagement>
        <dependencies>
            <dependency>
                <groupId>org.hamcrest</groupId>
                <artifactId>hamcrest-core</artifactId>
                <version>${hamcrest.version}</version>
            </dependency>
        </dependencies>
    </dependencyManagement>
    <dependencies>
        <dependency>
            <groupId>org.hamcrest</groupId>
            <artifactId>hamcrest-core</artifactId>
        </dependency>
        <dependency>
            <groupId>org.objenesis</groupId>
            <artifactId>objenesis</artifactId>
            <version>1.0</version>
        </dependency>
    </dependencies>
</project>
"#;

#[test]
fn test_pom_parser_is_correct() {
    let test_xml = POM_XML;
    let pom = get_pom(String::new(), test_xml.to_string()).expect("failed to get document");
    assert_eq!(Some("Mockito".to_string()), pom.name);
    assert_eq!(Some("org.mockito".to_string()), pom.group_id);
    assert_eq!("mockito-core", pom.artifact_id);
    assert_eq!(Some("1.9.5".to_string()), pom.version);
    assert_eq!(Some("jar".to_string()), pom.packaging);
    assert_eq!(Some("http://www.mockito.org".to_string()), pom.url);

    assert_eq!(3, pom.properties.len());
    assert_eq!(Some("17".to_string()), pom.property("maven.compiler.source"));
    assert_eq!(Some("21".to_string()), pom.property("maven.compiler.target"));
    assert_eq!(Some("1.1".to_string()), pom.property("hamcrest.version"));

    assert_eq!(2, pom.dependencies.len());
    let hamcrest = &pom.dependencies[0];
    assert_eq!("org.hamcrest", hamcrest.group_id);
    assert_eq!("hamcrest-core", hamcrest.artifact_id);
    assert_eq!(None, hamcrest.version);

    let objenesis = &pom.dependencies[1];
    assert_eq!("org.objenesis", objenesis.group_id);
    assert_eq!("objenesis", objenesis.artifact_id);
    assert_eq!(Some("1.0".to_string()), objenesis.version);

    assert_eq!(2, pom.module_names.len());
    assert_eq!("a", pom.module_names[0]);
    assert_eq!("b", pom.module_names[1]);

    assert_eq!(1, pom.dependency_management.len());
    let hamcrest = &pom.dependency_management[0];
    assert_eq!("org.hamcrest", hamcrest.group_id);
    assert_eq!("hamcrest-core", hamcrest.artifact_id);
    assert_eq!(Some("${hamcrest.version}".to_string()), hamcrest.version);
}

#[test]
fn test_pom_parser() {
    let test_xml = POM_XML;
    let pom = get_pom(String::new(), test_xml.to_string()).expect("failed to get document");
    println!("{:?}", pom);
}

#[test]
fn test_dom_parser() {
    let test_xml = POM_XML;
    let doc = get_document(test_xml.to_string()).expect("failed to get document");
    println!("{:?}", doc);
}

#[test]
fn document_tree_structure() {
    let xml = r#"<?xml version="1.0" encoding="UTF-8"?><a x="1"><b>one</b><c><d/></c>tail</a>"#;
    let doc = get_document(xml.to_string()).unwrap();
    assert_eq!(doc.root.name, "a");
    assert_eq!(doc.root.attributes.len(), 1);
    assert_eq!(doc.root.attributes[0].value, "1");
    assert_eq!(doc.root.children.len(), 2);
    assert_eq!(doc.root.children[0].name, "b");
    assert_eq!(doc.root.children[0].text, Some("one".to_string()));
    assert_eq!(doc.root.children[1].children[0].name, "d");
    assert_eq!(doc.root.text, Some("tail".to_string()));
}

#[test]
fn later_text_run_replaces_earlier() {
    let xml = r#"<?xml version="1.0" encoding="UTF-8"?><a>first<b/>second</a>"#;
    let doc = get_document(xml.to_string()).unwrap();
    assert_eq!(doc.root.text, Some("second".to_string()));
}

#[test]
fn comment_does_not_change_tree() {
    let with = r#"<?xml version="1.0" encoding="UTF-8"?><!-- note --><a><b>x</b></a>"#;
    let without = r#"<?xml version="1.0" encoding="UTF-8"?><a><b>x</b></a>"#;
    let t1 = get_document(with.to_string()).unwrap();
    let t2 = get_document(without.to_string()).unwrap();
    assert_eq!(t1.root, t2.root);
}

#[test]
fn document_without_element_fails() {
    let xml = r#"<?xml version="1.0" encoding="UTF-8"?>"#;
    assert!(get_document(xml.to_string()).is_err());
}

#[test]
fn namespaced_root_keeps_local_name() {
    let xml = r#"<?xml version="1.0" encoding="UTF-8"?><project xmlns="urn:p"><artifactId>x</artifactId></project>"#;
    let doc = get_document(xml.to_string()).unwrap();
    assert_eq!(doc.root.name, "project");
    assert_eq!(doc.root.namespace, Some("urn:p".to_string()));
    assert_eq!(doc.root.children[0].namespace, Some("urn:p".to_string()));
}

#[test]
fn missing_artifact_id_is_reported() {
    let xml = r#"<?xml version="1.0" encoding="UTF-8"?><project><groupId>g</groupId></project>"#;
    assert_eq!(
        get_pom("dir".to_string(), xml.to_string()).unwrap_err(),
        PomError::MissingRequiredField("artifactId".to_string())
    );
}

#[test]
fn incomplete_dependency_is_reported() {
    let xml = r#"<?xml version="1.0" encoding="UTF-8"?><project><artifactId>a</artifactId><dependencies><dependency><artifactId>x</artifactId></dependency></dependencies></project>"#;
    assert!(matches!(
        get_pom("dir".to_string(), xml.to_string()),
        Err(PomError::MissingRequiredField(_))
    ));
}

#[test]
fn incomplete_parent_and_module_are_reported() {
    let parent = r#"<?xml version="1.0" encoding="UTF-8"?><project><artifactId>a</artifactId><parent><groupId>g</groupId><artifactId>p</artifactId></parent></project>"#;
    assert!(matches!(
        get_pom("dir".to_string(), parent.to_string()),
        Err(PomError::MissingRequiredField(_))
    ));
    let module = r#"<?xml version="1.0" encoding="UTF-8"?><project><artifactId>a</artifactId><modules><module/></modules></project>"#;
    assert!(matches!(
        get_pom("dir".to_string(), module.to_string()),
        Err(PomError::MissingRequiredField(_))
    ));
    let property = r#"<?xml version="1.0" encoding="UTF-8"?><project><artifactId>a</artifactId><properties><p/></properties></project>"#;
    assert!(matches!(
        get_pom("dir".to_string(), property.to_string()),
        Err(PomError::MissingRequiredField(_))
    ));
}

#[test]
fn malformed_descriptor_is_an_xml_error() {
    let xml = "<project/>";
    assert!(matches!(
        get_pom("dir".to_string(), xml.to_string()),
        Err(PomError::Xml(_))
    ));
}

#[test]
fn jar_path_of_hamcrest() {
    let d = Dependency {
        group_id: "org.hamcrest".to_string(),
        artifact_id: "hamcrest-core".to_string(),
        version: Some("1.1".to_string()),
    };
    assert_eq!(d.to_jar_path(), "org/hamcrest/hamcrest-core/1.1/hamcrest-core-1.1.jar");
    assert_eq!(
        d.to_absolute_jar_path(&"/home/me".to_string()),
        "/home/me/.m2/repository/org/hamcrest/hamcrest-core/1.1/hamcrest-core-1.1.jar"
    );
    assert_eq!(d.to_string(), "org/hamcrest/hamcrest-core/1.1/hamcrest-core-1.1");
}

#[test]
fn jar_path_without_version_uses_latest() {
    let d = Dependency {
        group_id: "a.b.c".to_string(),
        artifact_id: "x".to_string(),
        version: None,
    };
    assert_eq!(d.to_jar_path(), "a/b/c/x/latest/x-latest.jar");
}

#[test]
fn repeated_property_keeps_one_entry() {
    let xml = r#"<?xml version="1.0" encoding="UTF-8"?><project><artifactId>a</artifactId><properties><v>1</v><w>2</w><v>3</v></properties></project>"#;
    let pom = get_pom("dir".to_string(), xml.to_string()).unwrap();
    assert_eq!(pom.properties.len(), 2);
    assert_eq!(pom.property("v"), Some("3".to_string()));
    assert_eq!(pom.property("w"), Some("2".to_string()));
}
