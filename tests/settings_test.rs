use undeepend::maven::settings::{get_settings_from_string, parse_decimal};

const SETTINGS_XML: &str = r#"<?xml version="1.0" encoding="UTF-8"?>
<settings xmlns="http://maven.apache.org/SETTINGS/1.0.0">
    <localRepository>/tmp/repo</localRepository>
    <offline>true</offline>
    <proxies>
        <proxy>
            <id>corporate</id>
            <active>true</active>
            <host>proxy.example.com</host>
            <port>3128</port>
        </proxy>
    </proxies>
    <servers>
        <server>
            <id>internal</id>
            <username>deployer</username>
            <configuration><timeout>10</timeout></configuration>
        </server>
    </servers>
    <mirrors>
        <mirror>
            <id>central-mirror</id>
            <url>https://mirror.example.com/maven2</url>
        </mirror>
    </mirrors>
    <profiles>
        <profile>
            <id>default</id>
            <activation>
                <activeByDefault>true</activeByDefault>
            </activation>
            <properties>
                <env>dev</env>
            </properties>
            <repositories>
                <repository>
                    <id>internal</id>
                    <url>https://repo.example.com</url>
                    <snapshots><enabled>false</enabled></snapshots>
                </repository>
            </repositories>
        </profile>
        <profile>
            <id>listed</id>
            <pluginRepositories>
                <repository><id>plugins</id></repository>
            </pluginRepositories>
        </profile>
        <profile>
            <id>inactive</id>
            <repositories><repository><id>never</id></repository></repositories>
        </profile>
    </profiles>
    <activeProfiles>
        <activeProfile>listed</activeProfile>
    </activeProfiles>
</settings>
"#;

#[test]
fn test() {
    let settings = SETTINGS_XML.to_string();
    let settings = get_settings_from_string(settings).expect("no fail");
    assert!(!settings.profiles.is_empty());
}

#[test]
fn settings_fields_and_active_profiles() {
    let s = get_settings_from_string(SETTINGS_XML.to_string()).unwrap();
    assert_eq!(s.local_repository, Some("/tmp/repo".to_string()));
    assert!(s.offline);
    assert!(s.interactive_mode);
    assert!(!s.use_plugin_registry);
    assert_eq!(s.proxies[0].port, 3128);
    assert_eq!(s.proxies[0].protocol, "http");
    assert!(s.proxies[0].active);
    assert_eq!(s.servers[0].username, Some("deployer".to_string()));
    assert!(s.servers[0].configuration.is_some());
    assert_eq!(s.mirrors[0].url, Some("https://mirror.example.com/maven2".to_string()));
    assert_eq!(s.profiles.len(), 3);
    assert_eq!(s.profiles[0].properties[0].name, "env");
    let active = s.get_active_profiles();
    assert_eq!(active.len(), 2);
    assert_eq!(active[0].id, Some("default".to_string()));
    assert_eq!(active[1].id, Some("listed".to_string()));
    let repos = s.get_repositories();
    assert_eq!(repos.len(), 1);
    assert_eq!(repos[0].id, Some("internal".to_string()));
    assert_eq!(repos[0].layout, "default");
    assert!(!repos[0].snapshots.as_ref().unwrap().enabled);
    let plugins = s.get_plugin_repositories();
    assert_eq!(plugins.len(), 1);
    assert_eq!(plugins[0].id, Some("plugins".to_string()));
}

#[test]
fn illegal_port_is_an_error() {
    let xml = r#"<?xml version="1.0" encoding="UTF-8"?><settings><proxies><proxy><port>eighty</port></proxy></proxies></settings>"#;
    assert!(get_settings_from_string(xml.to_string()).is_err());
}

#[test]
fn decimal_numbers() {
    assert_eq!(parse_decimal(&"8080".to_string()), Some(8080));
    assert_eq!(parse_decimal(&"".to_string()), None);
    assert_eq!(parse_decimal(&"12a".to_string()), None);
    assert_eq!(parse_decimal(&"99999999999999999999999".to_string()), None);
}

#[test]
fn unparsable_settings_give_the_parse_error() {
    assert_eq!(
        get_settings_from_string("<?xml version=\"1.0\" encoding=\"UTF-8\"?>".to_string()).unwrap_err(),
        "Unexpected end of document"
    );
    assert_eq!(
        get_settings_from_string("<settings/>".to_string()).unwrap_err(),
        "Unexpected character Content is not allowed in prolog."
    );
}
