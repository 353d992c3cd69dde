//! How a resource's URL becomes the key and the label of its session.
use vstd::prelude::*;

use url::Url;

verus! {

#[verifier::external_type_specification]
#[verifier::external_body]
pub struct ExUrl(Url);

/// The serialization of a URL.
pub uninterp spec fn url_text_of(u: Url) -> Seq<char>;

/// The scheme of a URL.
pub uninterp spec fn url_scheme_of(u: Url) -> Seq<char>;

/// Relies on `url::Url::as_str`: the URL's serialization, which is also what
/// its `Display` writes.
#[verifier::external_body]
fn url_text(u: &Url) -> (r: String)
    ensures
        r@ == url_text_of(*u),
{
    u.as_str().to_owned()
}

/// Relies on `url::Url::scheme`: the URL's scheme, in lower case and without
/// the `:` delimiter.
#[verifier::external_body]
fn url_scheme(u: &Url) -> (r: String)
    ensures
        r@ == url_scheme_of(*u),
{
    u.scheme().to_owned()
}

/// Relies on `url::Url::to_file_path`: the local path that the URL names,
/// where it names one, turned into a string. A path it gives is never empty:
/// it is absolute (on Unix it starts with `/`).
#[verifier::external_body]
fn url_file_path(u: &Url) -> (r: Option<String>)
    ensures
        r matches Some(p) ==> p@.len() > 0,
{
    u.to_file_path().ok().map(|p| p.to_string_lossy().to_string())
}

/// Whether a URL scheme is the one for local files.
pub fn is_file_scheme(scheme: &String) -> (r: bool)
    ensures
        r == (scheme@ == "file"@),
{
    let file = "file".to_owned();
    *scheme == file
}

/// The label of a resource: its local path where it has one, else the raw
/// identifier.
pub fn label_or_identifier(identifier: String, path: Option<String>) -> (r: String)
    ensures
        r@ == (match path {
            Some(p) => p@,
            None => identifier@,
        }),
{
    match path {
        Some(p) => p,
        None => identifier,
    }
}

/// The local path of a `file` URL; `None` for any other scheme, and for a
/// file URL that names no local path.
pub fn uri_to_path_string(uri: &Url) -> (r: Option<String>)
    ensures
        url_scheme_of(*uri) != "file"@ ==> r is None,
        r matches Some(p) ==> p@.len() > 0,
{
    let scheme = url_scheme(uri);
    if is_file_scheme(&scheme) {
        url_file_path(uri)
    } else {
        None
    }
}

/// The key and the display label of a resource.
pub struct ResourceId {
    pub key: String,
    pub entity: String,
}

/// Whether `label` can be the label of the resource at `u`: a URL that is not
/// a `file` URL is labelled with its own text. Of a `file` URL's label this
/// says nothing: it is the local path that the platform gives, where there is
/// one.
pub open spec fn is_label_of(u: Url, label: Seq<char>) -> bool {
    url_scheme_of(u) != "file"@ ==> label == url_text_of(u)
}

/// The display label of the resource at `uri`: its local path where it has
/// one, else the URL as written.
pub fn resource_label(uri: &Url) -> (r: String)
    ensures
        is_label_of(*uri, r@),
{
    let path = uri_to_path_string(uri);
    label_or_identifier(url_text(uri), path)
}

/// The key of a resource is its URL as written; its label is its local path,
/// or the URL where it has none.
pub fn resolve_resource(uri: &Url) -> (r: ResourceId)
    ensures
        r.key@ == url_text_of(*uri),
        is_label_of(*uri, r.entity@),
{
    let key = url_text(uri);
    let entity = resource_label(uri);
    ResourceId { key, entity }
}

/// The workspace root that sessions take as their project: the label of the
/// root URL where the editor gives one, else that of the first workspace
/// folder, else none.
pub fn workspace_root(root_uri: Option<&Url>, first_folder: Option<&Url>) -> (r: Option<String>)
    ensures
        r is None <==> (root_uri is None && first_folder is None),
        root_uri matches Some(u) ==> (r matches Some(x) && is_label_of(*u, x@)),
        root_uri is None ==> (first_folder matches Some(f) ==> (r matches Some(x) && is_label_of(*f, x@))),
{
    match root_uri {
        Some(u) => Some(resource_label(u)),
        None => match first_folder {
            Some(f) => Some(resource_label(f)),
            None => None,
        },
    }
}

} // verus!
