use vstd::prelude::*;

verus! {

/// A group of the desired state.
#[derive(Debug, Clone, PartialEq)]
pub struct Group {
    pub present: bool,
    pub members: Vec<String>,
    pub overwrite_members: bool,
}

/// A person of the desired state.
#[derive(Debug, Clone, PartialEq)]
pub struct Person {
    pub present: bool,
    pub display_name: String,
    pub legal_name: Option<String>,
    pub mail_addresses: Option<Vec<String>>,
}

/// A claim map of an OAuth2 system: values by group, each group named once.
#[derive(Debug, Clone, PartialEq)]
pub struct ClaimMap {
    pub join_type: String,
    pub values_by_group: Vec<(String, Vec<String>)>,
}

/// Either one string or a list of strings.
#[derive(Debug, Clone, PartialEq)]
pub enum StringOrStrings {
    String(String),
    Strings(Vec<String>),
}

impl StringOrStrings {
    /// The strings held, one or many.
    pub fn strings(self) -> (r: Vec<String>)
        ensures
            match self {
                StringOrStrings::String(x) => r@ == seq![x],
                StringOrStrings::Strings(xs) => r@ == xs@,
            },
    {
        match self {
            StringOrStrings::String(x) => vec![x],
            StringOrStrings::Strings(xs) => xs,
        }
    }
}

/// An OAuth2 system (client) of the desired state. The maps keep one
/// entry per key.
#[derive(Debug, Clone, PartialEq)]
pub struct Oauth2System {
    pub present: bool,
    pub public: bool,
    pub display_name: String,
    pub basic_secret_file: Option<String>,
    pub image_file: Option<String>,
    pub origin_url: StringOrStrings,
    pub origin_landing: String,
    pub enable_localhost_redirects: bool,
    pub enable_legacy_crypto: bool,
    pub allow_insecure_client_disable_pkce: bool,
    pub prefer_short_username: bool,
    pub scope_maps: Vec<(String, Vec<String>)>,
    pub supplementary_scope_maps: Vec<(String, Vec<String>)>,
    pub remove_orphaned_claim_maps: bool,
    pub claim_maps: Vec<(String, ClaimMap)>,
    pub k8s: Option<Oauth2K8sConfig>,
}

/// The systems of the desired state, by name.
#[derive(Debug, Clone, PartialEq)]
pub struct Systems {
    pub oauth2: Vec<(String, Oauth2System)>,
}

/// The desired state: groups, persons and systems, each by name.
#[derive(Debug, Clone, PartialEq)]
pub struct State {
    pub groups: Vec<(String, Group)>,
    pub persons: Vec<(String, Person)>,
    pub systems: Systems,
}

/// How the credentials of an OAuth2 system are published as a Kubernetes
/// secret.
#[derive(Debug, Clone, PartialEq)]
pub struct Oauth2K8sConfig {
    pub image_url: Option<String>,
    pub client_id_key: String,
    pub client_secret_key: String,
    pub target_namespace: Option<String>,
}

impl Default for Oauth2K8sConfig {
    fn default() -> (r: Self)
        ensures
            r.image_url is None,
            r.client_id_key@ == Seq::<char>::empty(),
            r.client_secret_key@ == Seq::<char>::empty(),
            r.target_namespace is None,
    {
        Oauth2K8sConfig {
            image_url: None,
            client_id_key: String::new(),
            client_secret_key: String::new(),
            target_namespace: None,
        }
    }
}

/// No key occurs twice in a list of named entries.
pub open spec fn names_unique<T>(entries: Seq<(String, T)>) -> bool {
    forall|i: int, j: int|
        0 <= i < j < entries.len() ==> #[trigger] entries[i].0@ != #[trigger] entries[j].0@
}

impl State {
    /// Every map of the state names each entry once.
    pub open spec fn well_formed(&self) -> bool {
        &&& names_unique(self.groups@)
        &&& names_unique(self.persons@)
        &&& names_unique(self.systems.oauth2@)
    }
}

/// The key under which the client id is stored when none is configured.
pub fn default_client_id_key() -> (r: String)
    ensures
        r@ == "client-id"@,
{
    String::from_str("client-id")
}

/// The key under which the client secret is stored when none is configured.
pub fn default_client_secret_key() -> (r: String)
    ensures
        r@ == "client-secret"@,
{
    String::from_str("client-secret")
}

pub fn default_false() -> (r: bool)
    ensures
        r == false,
{
    false
}

pub fn default_true() -> (r: bool)
    ensures
        r == true,
{
    true
}

} // verus!
