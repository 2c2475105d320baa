//! The user's Maven settings: proxies, servers, mirrors and profiles.
use vstd::prelude::*;

use crate::maven::common_model::{
    child_flag, copy_optional_string, copy_repository, flag, get_repositories, repositories_view, repository_models,
    repository_view,
    Repository, RepositoryView,
};
use crate::maven::pom_parser::{child_text, field_text, find_last_child, last_child};
use crate::text::{chars_of, copy_string, text_is};
use crate::xml::dom_parser::{build_arena, copy_attributes, get_document, mirrors, same_tree, Node};
use crate::xml::syntax::{document, ErrorView};
use crate::xml::{attributes_view, opt_view};

verus! {

/// The settings.
#[derive(Debug)]
pub struct Settings {
    pub local_repository: Option<String>,
    pub interactive_mode: bool,
    pub use_plugin_registry: bool,
    pub offline: bool,
    pub proxies: Vec<Proxy>,
    pub servers: Vec<Server>,
    pub mirrors: Vec<Mirror>,
    pub profiles: Vec<Profile>,
    pub active_profiles: Vec<String>,
    pub plugin_groups: Vec<String>,
}

/// Credentials and options for a server.
#[derive(Debug)]
pub struct Server {
    pub id: Option<String>,
    pub username: Option<String>,
    pub password: Option<String>,
    pub private_key: Option<String>,
    pub passphrase: Option<String>,
    pub file_permissions: Option<String>,
    pub directory_permissions: Option<String>,
    /// Free-form configuration, kept as a tree.
    pub configuration: Option<Node>,
}

/// A mirror of a repository.
#[derive(Debug)]
pub struct Mirror {
    pub id: Option<String>,
    pub mirror_of: Option<String>,
    pub name: Option<String>,
    pub url: Option<String>,
}

/// A network proxy.
#[derive(Debug)]
pub struct Proxy {
    pub active: bool,
    pub protocol: String,
    pub username: Option<String>,
    pub password: Option<String>,
    pub port: usize,
    pub host: Option<String>,
    pub non_proxy_hosts: Option<String>,
    pub id: Option<String>,
}

/// A build profile.
#[derive(Debug)]
pub struct Profile {
    pub id: Option<String>,
    pub activation: Option<Activation>,
    pub properties: Vec<Property>,
    pub repositories: Vec<Repository>,
    pub plugin_repositories: Vec<Repository>,
}

/// When a profile is active.
#[derive(Debug)]
pub struct Activation {
    pub active_by_default: bool,
    pub jdk: Option<String>,
    pub os: Option<ActivationOs>,
    pub property: Option<ActivationProperty>,
    pub file: Option<ActivationFile>,
}

#[derive(Debug)]
pub struct ActivationOs {
    pub name: Option<String>,
    pub family: Option<String>,
    pub arch: Option<String>,
    pub version: Option<String>,
}

#[derive(Debug)]
pub struct ActivationProperty {
    pub name: Option<String>,
    pub value: Option<String>,
}

#[derive(Debug)]
pub struct ActivationFile {
    pub missing: Option<String>,
    pub exists: Option<String>,
}

/// A profile property.
#[derive(Debug)]
pub struct Property {
    pub name: String,
    pub value: Option<String>,
}

/// The value of a decimal numeral.
pub open spec fn decimal_value(s: Seq<char>) -> nat
    decreases s.len(),
{
    if s.len() == 0 {
        0
    } else {
        decimal_value(s.drop_last()) * 10 + (s.last() as nat - '0' as nat) as nat
    }
}

/// `s` is a non-empty run of decimal digits.
pub open spec fn is_decimal(s: Seq<char>) -> bool {
    s.len() > 0 && forall|i: int| 0 <= i < s.len() ==> '0' <= #[trigger] s[i] <= '9'
}

/// The number a decimal numeral denotes, if it fits in a `usize`.
pub fn parse_decimal(s: &String) -> (r: Option<usize>)
    ensures
        r is Some <==> is_decimal(s@) && decimal_value(s@) <= usize::MAX,
        r matches Some(n) ==> n as nat == decimal_value(s@),
{
    let cs = chars_of(s.as_str());
    if cs.len() == 0 {
        return None;
    }
    let mut value: usize = 0;
    let mut i: usize = 0;
    while i < cs.len()
        invariant
            i <= cs.len(),
            cs@ == s@,
            is_decimal(cs@.take(i as int)) || i == 0,
            value as nat == decimal_value(cs@.take(i as int)),
        decreases cs.len() - i,
    {
        assert(cs@.take(i + 1).drop_last() =~= cs@.take(i as int));
        assert(cs@.take(i + 1).last() == cs@[i as int]);
        let c = cs[i];
        if c < '0' || c > '9' {
            assert(!is_decimal(s@)) by {
                assert(!('0' <= s@[i as int] <= '9'));
            }
            return None;
        }
        let digit = (c as u32 - '0' as u32) as usize;
        let next = match value.checked_mul(10) {
            Some(t) => t.checked_add(digit),
            None => None,
        };
        match next {
            Some(v) => {
                value = v;
            },
            None => {
                proof {
                    if is_decimal(cs@) {
                        lemma_decimal_prefix_bound(cs@, i as int + 1);
                    }
                }
                return None;
            },
        }
        i = i + 1;
    }
    assert(cs@.take(cs.len() as int) =~= cs@);
    Some(value)
}

/// A numeral is at least as large as any of its prefixes.
proof fn lemma_decimal_prefix_bound(s: Seq<char>, n: int)
    requires
        0 <= n <= s.len(),
        forall|i: int| 0 <= i < s.len() ==> '0' <= #[trigger] s[i] <= '9',
    ensures
        decimal_value(s.take(n)) <= decimal_value(s),
    decreases s.len(),
{
    if n < s.len() {
        assert(s.drop_last().take(n) =~= s.take(n));
        lemma_decimal_prefix_bound(s.drop_last(), n);
    } else {
        assert(s.take(n) =~= s);
    }
}

/// A proxy's port, where given, is a number that fits in a `usize`.
pub open spec fn port_ok(n: Node) -> bool {
    field_text(n.children@, "port"@) matches Some(t) ==> is_decimal(t) && decimal_value(t)
        <= usize::MAX
}

/// The settings under `root` can be read: every proxy port is a number.
pub open spec fn settings_ok(root: Node) -> bool {
    last_child(root.children@, "proxies"@) matches Some(n) ==> forall|i: int|
        0 <= i < n.children.len() ==> #[trigger] port_ok(n.children@[i])
}

/// The description of a parse error.
pub open spec fn error_text(e: ErrorView) -> Seq<char> {
    match e {
        ErrorView::BadCharacter => "Bad character"@,
        ErrorView::UnexpectedEof => "Unexpected end of document"@,
        ErrorView::UnexpectedCharacter(c) => "Unexpected character "@ + c,
        ErrorView::UndeclaredNamespacePrefix(p) => "Undeclared namespace prefix "@ + p,
    }
}

/// The settings a `settings.xml` text holds. A text that does not parse, or
/// has no element, gives the parse error's description; otherwise the
/// settings are read from the root element, and only an illegal proxy port
/// fails.
pub fn get_settings_from_string(settings: String) -> (r: Result<Settings, String>)
    ensures
        match document(settings@) {
            Err(e) => (r matches Err(m) && m@ == error_text(e)),
            Ok(evs) => if build_arena(evs).nodes.len() == 0 {
                r matches Err(m) && m@ == error_text(ErrorView::UnexpectedEof)
            } else {
                exists|root: Node|
                    #[trigger] mirrors(build_arena(evs).nodes, 0, root) && (r is Ok
                        <==> settings_ok(root)) && (r matches Ok(s) ==> settings_matches(s, root))
            },
        },
{
    let doc = match get_document(settings) {
        Ok(d) => d,
        Err(e) => {
            return Err(e.to_string());
        },
    };
    let r = settings_from_root(&doc.root);
    assert(mirrors(build_arena(document(settings@)->Ok_0).nodes, 0, doc.root));
    r
}

/// `s` is what the root element `root` of a `settings.xml` describes: the
/// last element of each kind counts.
pub open spec fn settings_matches(s: Settings, root: Node) -> bool {
    let c = root.children@;
    &&& opt_view(s.local_repository) == field_text(c, "localRepository"@)
    &&& s.interactive_mode == flag(c, "interactiveMode"@, true)
    &&& s.use_plugin_registry == flag(c, "usePluginRegistry"@, false)
    &&& s.offline == flag(c, "offline"@, false)
    &&& match last_child(c, "proxies"@) {
        Some(n) => s.proxies.len() == n.children.len() && forall|i: int|
            0 <= i < s.proxies.len() ==> #[trigger] proxy_matches(
                s.proxies@[i],
                n.children@[i],
            ),
        None => s.proxies.len() == 0,
    }
    &&& match last_child(c, "servers"@) {
        Some(n) => s.servers.len() == n.children.len() && forall|i: int|
            0 <= i < s.servers.len() ==> #[trigger] server_matches(
                s.servers@[i],
                n.children@[i],
            ),
        None => s.servers.len() == 0,
    }
    &&& match last_child(c, "mirrors"@) {
        Some(n) => s.mirrors.len() == n.children.len() && forall|i: int|
            0 <= i < s.mirrors.len() ==> #[trigger] mirror_matches(
                s.mirrors@[i],
                n.children@[i],
            ),
        None => s.mirrors.len() == 0,
    }
    &&& match last_child(c, "profiles"@) {
        Some(n) => s.profiles.len() == n.children.len() && forall|i: int|
            0 <= i < s.profiles.len() ==> #[trigger] profile_matches(
                s.profiles@[i],
                n.children@[i],
            ),
        None => s.profiles.len() == 0,
    }
    &&& match last_child(c, "activeProfiles"@) {
        Some(p) => texts_view(s.active_profiles@) == child_texts(p.children@),
        None => s.active_profiles.len() == 0,
    }
    &&& match last_child(c, "pluginGroups"@) {
        Some(p) => texts_view(s.plugin_groups@) == child_texts(p.children@),
        None => s.plugin_groups.len() == 0,
    }
}

/// The settings the root element of a `settings.xml` describes.
pub fn settings_from_root(root: &Node) -> (r: Result<Settings, String>)
    ensures
        r is Ok <==> settings_ok(*root),
        r matches Ok(s) ==> settings_matches(s, *root),
{
    let c = &root.children;
    let proxies = match find_last_child(c, "proxies") {
        Some(n) => get_proxies(n)?,
        None => Vec::new(),
    };
    let servers = match find_last_child(c, "servers") {
        Some(n) => get_servers(n),
        None => Vec::new(),
    };
    let mirrors = match find_last_child(c, "mirrors") {
        Some(n) => get_mirrors(n),
        None => Vec::new(),
    };
    let profiles = match find_last_child(c, "profiles") {
        Some(n) => get_profiles(n),
        None => Vec::new(),
    };
    let active_profiles = match find_last_child(c, "activeProfiles") {
        Some(n) => get_active_profiles(n),
        None => Vec::new(),
    };
    let plugin_groups = match find_last_child(c, "pluginGroups") {
        Some(n) => get_plugin_groups(n),
        None => Vec::new(),
    };
    Ok(
        Settings {
            local_repository: child_text(c, "localRepository"),
            interactive_mode: child_flag(c, "interactiveMode", true),
            use_plugin_registry: child_flag(c, "usePluginRegistry", false),
            offline: child_flag(c, "offline", false),
            proxies,
            servers,
            mirrors,
            profiles,
            active_profiles,
            plugin_groups,
        },
    )
}

pub open spec fn texts_view(v: Seq<String>) -> Seq<Seq<char>> {
    v.map_values(|s: String| s@)
}

/// The texts of the children that have text, in order.
pub open spec fn child_texts(children: Seq<Node>) -> Seq<Seq<char>>
    decreases children.len(),
{
    if children.len() == 0 {
        Seq::empty()
    } else {
        match opt_view(children.last().text) {
            Some(t) => child_texts(children.drop_last()).push(t),
            None => child_texts(children.drop_last()),
        }
    }
}

/// The texts of the children of `element` that have text.
fn collect_texts(element: &Node) -> (r: Vec<String>)
    ensures
        texts_view(r@) == child_texts(element.children@),
{
    let children = &element.children;
    let mut texts: Vec<String> = Vec::new();
    let mut i: usize = 0;
    while i < children.len()
        invariant
            i <= children.len(),
            children@ == element.children@,
            texts_view(texts@) == child_texts(children@.take(i as int)),
        decreases children.len() - i,
    {
        let ghost before = texts@;
        assert(children@.take(i + 1).drop_last() =~= children@.take(i as int));
        assert(children@.take(i + 1).last() == children@[i as int]);
        match &children[i].text {
            Some(t) => {
                texts.push(copy_string(t));
                assert(texts_view(texts@) =~= texts_view(before).push(t@));
            },
            None => {},
        }
        i = i + 1;
    }
    assert(children@.take(children.len() as int) =~= children@);
    texts
}

/// The proxies the children of `element` describe.
fn get_proxies(element: &Node) -> (r: Result<Vec<Proxy>, String>)
    ensures
        r is Ok <==> forall|i: int|
            0 <= i < element.children.len() ==> #[trigger] port_ok(element.children@[i]),
        r matches Ok(v) ==> v.len() == element.children.len() && forall|i: int|
            0 <= i < v.len() ==> #[trigger] proxy_matches(v@[i], element.children@[i]),
{
    let mut proxies: Vec<Proxy> = Vec::new();
    let mut i: usize = 0;
    while i < element.children.len()
        invariant
            i <= element.children.len(),
            proxies.len() == i,
            forall|k: int| 0 <= k < i ==> #[trigger] port_ok(element.children@[k]),
            forall|k: int|
                0 <= k < i ==> #[trigger] proxy_matches(proxies@[k], element.children@[k]),
        decreases element.children.len() - i,
    {
        let proxy = get_proxy(&element.children[i]);
        match proxy {
            Ok(p) => proxies.push(p),
            Err(e) => {
                assert(!port_ok(element.children@[i as int]));
                return Err(e);
            },
        }
        i = i + 1;
    }
    Ok(proxies)
}

/// The active profile ids: the texts of the children that have text.
fn get_active_profiles(element: &Node) -> (r: Vec<String>)
    ensures
        texts_view(r@) == child_texts(element.children@),
{
    collect_texts(element)
}

/// The plugin groups: the texts of the children that have text.
fn get_plugin_groups(element: &Node) -> (r: Vec<String>)
    ensures
        texts_view(r@) == child_texts(element.children@),
{
    collect_texts(element)
}

/// The servers the children of `element` describe.
fn get_servers(servers_element: &Node) -> (r: Vec<Server>)
    ensures
        r.len() == servers_element.children.len(),
        forall|i: int|
            0 <= i < r.len() ==> #[trigger] server_matches(r@[i], servers_element.children@[i]),
{
    let mut servers: Vec<Server> = Vec::new();
    let mut i: usize = 0;
    while i < servers_element.children.len()
        invariant
            i <= servers_element.children.len(),
            servers.len() == i,
            forall|k: int|
                0 <= k < i ==> #[trigger] server_matches(servers@[k], servers_element.children@[k]),
        decreases servers_element.children.len() - i,
    {
        servers.push(get_server(&servers_element.children[i]));
        i = i + 1;
    }
    servers
}

/// The mirrors the children of `element` describe.
fn get_mirrors(mirrors_element: &Node) -> (r: Vec<Mirror>)
    ensures
        r.len() == mirrors_element.children.len(),
        forall|i: int|
            0 <= i < r.len() ==> #[trigger] mirror_matches(r@[i], mirrors_element.children@[i]),
{
    let mut mirrors: Vec<Mirror> = Vec::new();
    let mut i: usize = 0;
    while i < mirrors_element.children.len()
        invariant
            i <= mirrors_element.children.len(),
            mirrors.len() == i,
            forall|k: int|
                0 <= k < i ==> #[trigger] mirror_matches(mirrors@[k], mirrors_element.children@[k]),
        decreases mirrors_element.children.len() - i,
    {
        mirrors.push(get_mirror(&mirrors_element.children[i]));
        i = i + 1;
    }
    mirrors
}

/// The profiles the children of `element` describe.
fn get_profiles(profiles_element: &Node) -> (r: Vec<Profile>)
    ensures
        r.len() == profiles_element.children.len(),
        forall|i: int|
            0 <= i < r.len() ==> #[trigger] profile_matches(r@[i], profiles_element.children@[i]),
{
    let mut profiles: Vec<Profile> = Vec::new();
    let mut i: usize = 0;
    while i < profiles_element.children.len()
        invariant
            i <= profiles_element.children.len(),
            profiles.len() == i,
            forall|k: int|
                0 <= k < i ==> #[trigger] profile_matches(
                    profiles@[k],
                    profiles_element.children@[k],
                ),
        decreases profiles_element.children.len() - i,
    {
        profiles.push(get_profile(&profiles_element.children[i]));
        i = i + 1;
    }
    profiles
}

/// `s` is the server that `n` describes.
pub open spec fn server_matches(s: Server, n: Node) -> bool {
    let c = n.children@;
    &&& opt_view(s.id) == field_text(c, "id"@)
    &&& opt_view(s.username) == field_text(c, "username"@)
    &&& opt_view(s.password) == field_text(c, "password"@)
    &&& opt_view(s.private_key) == field_text(c, "private_key"@)
    &&& opt_view(s.passphrase) == field_text(c, "passphrase"@)
    &&& opt_view(s.file_permissions) == field_text(c, "filePermissions"@)
    &&& opt_view(s.directory_permissions) == field_text(c, "directoryPermissions"@)
    &&& match last_child(c, "configuration"@) {
        Some(m) => (s.configuration matches Some(x) && same_tree(x, m)),
        None => s.configuration is None,
    }
}

/// The server an element describes.
fn get_server(server_element: &Node) -> (r: Server)
    ensures
        server_matches(r, *server_element),
{
    let c = &server_element.children;
    let configuration = match find_last_child(c, "configuration") {
        Some(n) => Some(copy_node(n)),
        None => None,
    };
    Server {
        id: child_text(c, "id"),
        username: child_text(c, "username"),
        password: child_text(c, "password"),
        private_key: child_text(c, "private_key"),
        passphrase: child_text(c, "passphrase"),
        file_permissions: child_text(c, "filePermissions"),
        directory_permissions: child_text(c, "directoryPermissions"),
        configuration,
    }
}

/// `p` is the proxy that `n` describes: inactive, over `http` on port 8080
/// unless it says otherwise.
pub open spec fn proxy_matches(p: Proxy, n: Node) -> bool {
    let c = n.children@;
    &&& p.active == flag(c, "active"@, false)
    &&& p.protocol@ == match field_text(c, "protocol"@) {
        Some(t) => t,
        None => "http"@,
    }
    &&& opt_view(p.username) == field_text(c, "username"@)
    &&& opt_view(p.password) == field_text(c, "password"@)
    &&& p.port as nat == match field_text(c, "port"@) {
        Some(t) => decimal_value(t),
        None => 8080,
    }
    &&& opt_view(p.host) == field_text(c, "host"@)
    &&& opt_view(p.non_proxy_hosts) == field_text(c, "non_proxy_hosts"@)
    &&& opt_view(p.id) == field_text(c, "id"@)
}

/// The proxy an element describes; a port that is not a number is an error.
fn get_proxy(element: &Node) -> (r: Result<Proxy, String>)
    ensures
        r is Ok <==> (field_text(element.children@, "port"@) matches Some(t) ==> is_decimal(t)
            && decimal_value(t) <= usize::MAX),
        r matches Ok(p) ==> proxy_matches(p, *element),
{
    let c = &element.children;
    let port = match child_text(c, "port") {
        Some(t) => match parse_decimal(&t) {
            Some(n) => n,
            None => {
                let mut message = "Illegal value for port: '".to_owned();
                message.append(t.as_str());
                message.append("'");
                return Err(message);
            },
        },
        None => 8080,
    };
    let protocol = match child_text(c, "protocol") {
        Some(p) => p,
        None => "http".to_owned(),
    };
    Ok(
        Proxy {
            active: child_flag(c, "active", false),
            protocol,
            username: child_text(c, "username"),
            password: child_text(c, "password"),
            port,
            host: child_text(c, "host"),
            non_proxy_hosts: child_text(c, "non_proxy_hosts"),
            id: child_text(c, "id"),
        },
    )
}

/// `m` is the mirror that `n` describes.
pub open spec fn mirror_matches(m: Mirror, n: Node) -> bool {
    let c = n.children@;
    &&& opt_view(m.id) == field_text(c, "id"@)
    &&& opt_view(m.mirror_of) == field_text(c, "mirror_of"@)
    &&& opt_view(m.url) == field_text(c, "url"@)
    &&& opt_view(m.name) == field_text(c, "name"@)
}

/// The mirror an element describes.
fn get_mirror(mirror_element: &Node) -> (r: Mirror)
    ensures
        mirror_matches(r, *mirror_element),
{
    let c = &mirror_element.children;
    Mirror {
        id: child_text(c, "id"),
        mirror_of: child_text(c, "mirror_of"),
        url: child_text(c, "url"),
        name: child_text(c, "name"),
    }
}

/// `p` is the profile that `n` describes.
pub open spec fn profile_matches(p: Profile, n: Node) -> bool {
    let c = n.children@;
    &&& opt_view(p.id) == field_text(c, "id"@)
    &&& (p.activation is Some <==> last_child(c, "activation"@) is Some)
    &&& (last_child(c, "activation"@) matches Some(a) ==> p.activation matches Some(b)
        && activation_matches(b, a))
    &&& repositories_view(p.repositories@) == match last_child(c, "repositories"@) {
        Some(r) => repository_models(r.children@),
        None => Seq::<RepositoryView>::empty(),
    }
    &&& repositories_view(p.plugin_repositories@) == match last_child(
        c,
        "pluginRepositories"@,
    ) {
        Some(r) => repository_models(r.children@),
        None => Seq::<RepositoryView>::empty(),
    }
}

/// The profile an element describes; properties from every `properties`
/// child are kept, in order.
fn get_profile(profile_element: &Node) -> (r: Profile)
    ensures
        profile_matches(r, *profile_element),
{
    let c = &profile_element.children;
    let mut properties: Vec<Property> = Vec::new();
    let mut i: usize = 0;
    while i < c.len()
        decreases c.len() - i,
    {
        if text_is(&c[i].name, "properties") {
            let mut more = get_properties(&c[i]);
            properties.append(&mut more);
        }
        i = i + 1;
    }
    let activation = match find_last_child(c, "activation") {
        Some(a) => Some(get_activation(a)),
        None => None,
    };
    let repositories = match find_last_child(c, "repositories") {
        Some(r) => get_repositories(r),
        None => Vec::new(),
    };
    let plugin_repositories = match find_last_child(c, "pluginRepositories") {
        Some(r) => get_repositories(r),
        None => Vec::new(),
    };
    proof {
        assert(repositories_view(Seq::<Repository>::empty()) =~= Seq::<RepositoryView>::empty());
    }
    Profile { id: child_text(c, "id"), activation, properties, repositories, plugin_repositories }
}

/// `a` is the activation that `n` describes.
pub open spec fn activation_matches(a: Activation, n: Node) -> bool {
    let c = n.children@;
    &&& a.active_by_default == flag(c, "activeByDefault"@, false)
    &&& opt_view(a.jdk) == field_text(c, "jdk"@)
    &&& (a.os is Some <==> last_child(c, "os"@) is Some)
    &&& (a.property is Some <==> last_child(c, "property"@) is Some)
    &&& (a.file is Some <==> last_child(c, "file"@) is Some)
}

/// The activation an element describes.
fn get_activation(activation_element: &Node) -> (r: Activation)
    ensures
        activation_matches(r, *activation_element),
{
    let c = &activation_element.children;
    Activation {
        active_by_default: child_flag(c, "activeByDefault", false),
        jdk: child_text(c, "jdk"),
        os: match find_last_child(c, "os") {
            Some(n) => Some(get_activation_os(n)),
            None => None,
        },
        property: match find_last_child(c, "property") {
            Some(n) => Some(get_activation_property(n)),
            None => None,
        },
        file: match find_last_child(c, "file") {
            Some(n) => Some(get_activation_file(n)),
            None => None,
        },
    }
}

/// The name and text of each child.
fn get_properties(element: &Node) -> (r: Vec<Property>)
    ensures
        r.len() == element.children.len(),
        forall|i: int|
            0 <= i < r.len() ==> (#[trigger] r@[i]).name@ == element.children@[i].name@ && opt_view(
                r@[i].value,
            ) == opt_view(element.children@[i].text),
{
    let mut properties: Vec<Property> = Vec::new();
    let mut i: usize = 0;
    while i < element.children.len()
        invariant
            i <= element.children.len(),
            properties.len() == i,
            forall|k: int|
                0 <= k < i ==> (#[trigger] properties@[k]).name@ == element.children@[k].name@
                    && opt_view(properties@[k].value) == opt_view(element.children@[k].text),
        decreases element.children.len() - i,
    {
        let child = &element.children[i];
        let value = match &child.text {
            Some(t) => Some(copy_string(t)),
            None => None,
        };
        properties.push(Property { name: copy_string(&child.name), value });
        i = i + 1;
    }
    properties
}

/// The operating system an element describes.
fn get_activation_os(element: &Node) -> (r: ActivationOs)
    ensures
        opt_view(r.name) == field_text(element.children@, "name"@),
        opt_view(r.family) == field_text(element.children@, "family"@),
        opt_view(r.arch) == field_text(element.children@, "arch"@),
        opt_view(r.version) == field_text(element.children@, "version"@),
{
    let c = &element.children;
    ActivationOs {
        name: child_text(c, "name"),
        family: child_text(c, "family"),
        arch: child_text(c, "arch"),
        version: child_text(c, "version"),
    }
}

/// The property condition an element describes.
fn get_activation_property(element: &Node) -> (r: ActivationProperty)
    ensures
        opt_view(r.name) == field_text(element.children@, "name"@),
        opt_view(r.value) == field_text(element.children@, "value"@),
{
    ActivationProperty {
        name: child_text(&element.children, "name"),
        value: child_text(&element.children, "value"),
    }
}

/// The file condition an element describes.
fn get_activation_file(element: &Node) -> (r: ActivationFile)
    ensures
        opt_view(r.missing) == field_text(element.children@, "missing"@),
        opt_view(r.exists) == field_text(element.children@, "exists"@),
{
    ActivationFile {
        missing: child_text(&element.children, "missing"),
        exists: child_text(&element.children, "exists"),
    }
}

/// A deep copy of a tree.
pub fn copy_node(n: &Node) -> (r: Node)
    ensures
        same_tree(r, *n),
    decreases n,
{
    let mut children: Vec<Node> = Vec::new();
    let mut i: usize = 0;
    while i < n.children.len()
        invariant
            i <= n.children.len(),
            children.len() == i,
            forall|k: int| 0 <= k < i ==> same_tree(#[trigger] children@[k], n.children@[k]),
        decreases n.children.len() - i,
    {
        children.push(copy_node(&n.children[i]));
        i = i + 1;
    }
    Node {
        name: copy_string(&n.name),
        namespace: copy_optional_string(&n.namespace),
        children,
        attributes: copy_attributes(&n.attributes),
        text: copy_optional_string(&n.text),
    }
}

impl Settings {
    /// Whether a profile is active: by its activation's default when it has
    /// one, else by being listed among the active profiles.
    pub open spec fn is_active(&self, p: Profile) -> bool {
        match p.activation {
            Some(a) => a.active_by_default,
            None => match p.id {
                Some(id) => exists|j: int|
                    0 <= j < self.active_profiles.len() && (#[trigger] self.active_profiles@[j])@
                        == id@,
                None => false,
            },
        }
    }

    /// The active profiles among `ps`, in order.
    pub open spec fn active_in(&self, ps: Seq<Profile>) -> Seq<Profile>
        decreases ps.len(),
    {
        if ps.len() == 0 {
            Seq::empty()
        } else if self.is_active(ps.last()) {
            self.active_in(ps.drop_last()).push(ps.last())
        } else {
            self.active_in(ps.drop_last())
        }
    }

    /// The active profiles, in order.
    pub fn get_active_profiles(&self) -> (r: Vec<&Profile>)
        ensures
            r@.map_values(|p: &Profile| *p) == self.active_in(self.profiles@),
    {
        let mut active: Vec<&Profile> = Vec::new();
        let mut i: usize = 0;
        while i < self.profiles.len()
            invariant
                i <= self.profiles.len(),
                active@.map_values(|p: &Profile| *p) == self.active_in(self.profiles@.take(i as int)),
            decreases self.profiles.len() - i,
        {
            let ghost before = active@;
            assert(self.profiles@.take(i + 1).drop_last() =~= self.profiles@.take(i as int));
            assert(self.profiles@.take(i + 1).last() == self.profiles@[i as int]);
            let p = &self.profiles[i];
            if self.profile_is_active(p) {
                active.push(p);
                assert(active@.map_values(|p: &Profile| *p) =~= before.map_values(|p: &Profile| *p).push(*p));
            }
            i = i + 1;
        }
        assert(self.profiles@.take(self.profiles.len() as int) =~= self.profiles@);
        active
    }

    /// Whether a profile is active.
    pub fn profile_is_active(&self, p: &Profile) -> (r: bool)
        ensures
            r == self.is_active(*p),
    {
        match &p.activation {
            Some(a) => a.active_by_default,
            None => match &p.id {
                Some(id) => {
                    let mut j: usize = 0;
                    while j < self.active_profiles.len()
                        invariant
                            j <= self.active_profiles.len(),
                            p.activation is None,
                            p.id == Some(*id),
                            forall|k: int| 0 <= k < j ==> (#[trigger] self.active_profiles@[k])@ != id@,
                        decreases self.active_profiles.len() - j,
                    {
                        if self.active_profiles[j] == *id {
                            assert(self.active_profiles@[j as int]@ == id@);
                            return true;
                        }
                        j = j + 1;
                    }
                    false
                },
                None => false,
            },
        }
    }

    /// The repositories of the active profiles, in order.
    pub fn get_repositories(&self) -> (r: Vec<Repository>)
        ensures
            repositories_view(r@) == repositories_of(self.active_in(self.profiles@), false),
    {
        self.collect_repositories(false)
    }

    /// The plugin repositories of the active profiles, in order.
    pub fn get_plugin_repositories(&self) -> (r: Vec<Repository>)
        ensures
            repositories_view(r@) == repositories_of(self.active_in(self.profiles@), true),
    {
        self.collect_repositories(true)
    }

    fn collect_repositories(&self, plugins: bool) -> (r: Vec<Repository>)
        ensures
            repositories_view(r@) == repositories_of(self.active_in(self.profiles@), plugins),
    {
        let active = self.get_active_profiles();
        let ghost ps = active@.map_values(|p: &Profile| *p);
        let mut result: Vec<Repository> = Vec::new();
        let mut i: usize = 0;
        assert(repositories_view(result@) =~= Seq::<RepositoryView>::empty());
        while i < active.len()
            invariant
                i <= active.len(),
                ps == active@.map_values(|p: &Profile| *p),
                repositories_view(result@) == repositories_of(ps.take(i as int), plugins),
            decreases active.len() - i,
        {
            let p = active[i];
            let list = if plugins { &p.plugin_repositories } else { &p.repositories };
            let ghost start = repositories_view(result@);
            let mut k: usize = 0;
            while k < list.len()
                invariant
                    k <= list.len(),
                    repositories_view(result@) == start + repositories_view(list@.take(k as int)),
                decreases list.len() - k,
            {
                let ghost before = result@;
                result.push(copy_repository(&list[k]));
                assert(repositories_view(result@) =~= repositories_view(before).push(repository_view(list@[k as int])));
                assert(repositories_view(list@.take(k + 1)) =~= repositories_view(list@.take(k as int)).push(repository_view(list@[k as int])));
                k = k + 1;
            }
            assert(list@.take(list.len() as int) =~= list@);
            assert(ps.take(i + 1).drop_last() =~= ps.take(i as int));
            assert(ps.take(i + 1).last() == *p);
            i = i + 1;
        }
        assert(ps.take(active.len() as int) =~= ps);
        result
    }
}

/// The repositories of the given profiles, in order: their plugin
/// repositories when `plugins` holds.
pub open spec fn repositories_of(ps: Seq<Profile>, plugins: bool) -> Seq<RepositoryView>
    decreases ps.len(),
{
    if ps.len() == 0 {
        Seq::empty()
    } else {
        repositories_of(ps.drop_last(), plugins) + repositories_view(
            if plugins {
                ps.last().plugin_repositories@
            } else {
                ps.last().repositories@
            },
        )
    }
}

} // verus!
