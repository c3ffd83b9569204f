use vstd::prelude::*;

verus! {

/// The label selector of the ConfigMaps that carry provisioning documents.
pub fn config_map_selector() -> (r: &'static str)
    ensures
        r@ == "kanidm_config=1"@,
{
    "kanidm_config=1"
}

/// The field manager under which secrets are applied.
pub fn field_manager() -> (r: &'static str)
    ensures
        r@ == "kanidm-provision"@,
{
    "kanidm-provision"
}

/// The directory where downloaded client icons are kept.
pub fn icons_dir() -> (r: &'static str)
    ensures
        r@ == "/data/icons"@,
{
    "/data/icons"
}

/// The Kanidm endpoint that hands out the basic secret of an OAuth2 client.
pub fn basic_secret_url(kanidm_url: &str, client_name: &str) -> (r: String)
    ensures
        r@ == kanidm_url@ + "/v1/oauth2/"@ + client_name@ + "/_basic_secret"@,
{
    let mut s = String::from_str(kanidm_url);
    s.append("/v1/oauth2/");
    s.append(client_name);
    s.append("/_basic_secret");
    s
}

/// The Kanidm endpoint that serves the image of an OAuth2 client.
pub fn client_image_url(kanidm_url: &str, client_name: &str) -> (r: String)
    ensures
        r@ == kanidm_url@ + "/ui/images/oauth2/"@ + client_name@,
{
    let mut s = String::from_str(kanidm_url);
    s.append("/ui/images/oauth2/");
    s.append(client_name);
    s
}

/// The Kanidm health endpoint.
pub fn status_url(kanidm_url: &str) -> (r: String)
    ensures
        r@ == kanidm_url@ + "/status"@,
{
    let mut s = String::from_str(kanidm_url);
    s.append("/status");
    s
}

/// The value of the `Authorization` header that carries `token`.
pub fn bearer_authorization(token: &str) -> (r: String)
    ensures
        r@ == "Bearer "@ + token@,
{
    let mut s = String::from_str("Bearer ");
    s.append(token);
    s
}

/// The name of the Kubernetes secret that holds an OAuth2 client's
/// credentials.
pub fn secret_name(client_name: &str) -> (r: String)
    ensures
        r@ == "kanidm-"@ + client_name@ + "-oidc"@,
{
    let mut s = String::from_str("kanidm-");
    s.append(client_name);
    s.append("-oidc");
    s
}

/// The file name under which an OAuth2 client's icon is kept.
pub fn icon_file_name(client_name: &str) -> (r: String)
    ensures
        r@ == client_name@ + ".svg"@,
{
    let mut s = String::from_str(client_name);
    s.append(".svg");
    s
}

/// The icon is worth fetching exactly when Kanidm answered the image
/// request with 404 Not Found; no answer at all counts as not needed.
pub fn needs_image(status: Option<u16>) -> (r: bool)
    ensures
        r == (status == Some(404u16)),
{
    match status {
        Some(code) => code == 404,
        None => false,
    }
}

} // verus!
