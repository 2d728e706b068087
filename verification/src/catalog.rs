//! Catalog lookup: mapping an application identifier to a display name.
//! A fixed table covers the known compatibility-layer runtime packages
//! without any remote call; for everything else the remote catalog's
//! JSON response is decoded and interpreted here.

use vstd::prelude::*;

use crate::text::{dec_of, u32_to_dec};

verus! {

pub const PROTON_EXPERIMENTAL_ID: u32 = 1493710;

pub const PROTON_9_ID: u32 = 2805730;

/// The identifiers in the known-runtime table.
pub open spec fn is_known_runtime(app_id: u32) -> bool {
    app_id == PROTON_EXPERIMENTAL_ID || app_id == PROTON_9_ID
}

/// The table's display name for a known runtime identifier.
pub open spec fn known_runtime_name_spec(app_id: u32) -> Seq<char>
    recommends
        is_known_runtime(app_id),
{
    if app_id == PROTON_EXPERIMENTAL_ID {
        "Proton Experimental"@
    } else {
        "Proton 9.0"@
    }
}

/// Whether an identifier names a known compatibility-layer runtime.
pub fn is_proton_version(app_id: u32) -> (r: bool)
    ensures
        r == is_known_runtime(app_id),
{
    app_id == PROTON_EXPERIMENTAL_ID || app_id == PROTON_9_ID
}

/// The known-runtime table: the display name for the fixed identifiers,
/// nothing for any other.
pub fn proton_version_name(app_id: u32) -> (r: Option<String>)
    ensures
        match r {
            Some(n) => is_known_runtime(app_id) && n@ == known_runtime_name_spec(app_id),
            None => !is_known_runtime(app_id),
        },
{
    if app_id == PROTON_EXPERIMENTAL_ID {
        Some("Proton Experimental".to_owned())
    } else if app_id == PROTON_9_ID {
        Some("Proton 9.0".to_owned())
    } else {
        None
    }
}

/// The fields of interest in a catalog response body, at the object under
/// the given key: nothing when the body is not JSON or the key is absent;
/// otherwise the `success` boolean and the `data.name` string, each where
/// present with its declared type.
pub uninterp spec fn catalog_fields(body: Seq<char>, key: Seq<u8>) -> Option<
    (Option<bool>, Option<Seq<char>>),
>;

/// The decoded fields, seen at the spec level.
pub open spec fn fields_view(f: Option<(Option<bool>, Option<String>)>) -> Option<
    (Option<bool>, Option<Seq<char>>),
> {
    match f {
        None => None,
        Some(p) => Some(
            (
                p.0,
                match p.1 {
                    None => None,
                    Some(s) => Some(s@),
                },
            ),
        ),
    }
}

/// A lookup result, seen at the spec level.
pub open spec fn lookup_view(r: Option<(bool, String)>) -> Option<(bool, Seq<char>)> {
    match r {
        None => None,
        Some(p) => Some((p.0, p.1@)),
    }
}

/// How the decoded fields become a lookup result: no fields is "no data";
/// otherwise `success` defaults to false when absent, a successful entry
/// reports its name (or `Unknown` when it has none), and an unsuccessful
/// one reports `Unknown Application`.
pub open spec fn interpret_fields_spec(f: Option<(Option<bool>, Option<Seq<char>>)>) -> Option<
    (bool, Seq<char>),
> {
    match f {
        None => None,
        Some(p) => {
            let success = match p.0 {
                Some(b) => b,
                None => false,
            };
            if success {
                Some(
                    (
                        true,
                        match p.1 {
                            Some(n) => n,
                            None => "Unknown"@,
                        },
                    ),
                )
            } else {
                Some((false, "Unknown Application"@))
            }
        },
    }
}

/// Relies on serde_json 1: `from_str` parses the body into a `Value`
/// (nothing on malformed JSON), `Value::get` looks `key` up in the
/// top-level object, and `as_bool`/`as_str` read the entry's `success`
/// and `data.name` fields where they have the right type. The outcome is
/// a function of the body and key text alone.
#[verifier::external_body]
fn decode_catalog_body(body: &str, key: &[u8]) -> (r: Option<(Option<bool>, Option<String>)>)
    ensures
        fields_view(r) == catalog_fields(body@, key@),
{
    let key = std::str::from_utf8(key).ok()?;
    let json: serde_json::Value = serde_json::from_str(body).ok()?;
    let entry = json.get(key)?;
    let success = entry.get("success").and_then(|v| v.as_bool());
    let name = entry.get("data").and_then(|d| d.get("name")).and_then(|n| n.as_str()).map(
        |s| s.to_owned(),
    );
    Some((success, name))
}

/// Turns the decoded fields of a catalog response into the lookup result.
pub fn interpret_catalog_fields(fields: Option<(Option<bool>, Option<String>)>) -> (r: Option<
    (bool, String),
>)
    ensures
        lookup_view(r) == interpret_fields_spec(fields_view(fields)),
{
    match fields {
        None => None,
        Some((s_opt, n_opt)) => {
            let success = match s_opt {
                Some(b) => b,
                None => false,
            };
            if success {
                let name = match n_opt {
                    Some(n) => n,
                    None => "Unknown".to_owned(),
                };
                Some((true, name))
            } else {
                Some((false, "Unknown Application".to_owned()))
            }
        },
    }
}

/// Interprets a remote catalog response body for one identifier: the
/// entry under the identifier's decimal key decides the result.
pub fn fetch_app_info_from_body(app_id: u32, body: &str) -> (r: Option<(bool, String)>)
    ensures
        lookup_view(r) == interpret_fields_spec(catalog_fields(body@, dec_of(app_id as nat))),
{
    let key = u32_to_dec(app_id);
    let fields = decode_catalog_body(body, key.as_slice());
    interpret_catalog_fields(fields)
}

/// The whole lookup decision for one identifier: a known runtime resolves
/// from the table, needing no response; otherwise the response body (or
/// its absence, when the request failed) decides.
pub fn fetch_app_info_from_response(app_id: u32, body: Option<&str>) -> (r: Option<
    (bool, String),
>)
    ensures
        is_known_runtime(app_id) ==> lookup_view(r) == Some(
            (true, known_runtime_name_spec(app_id)),
        ),
        !is_known_runtime(app_id) ==> match body {
            Some(b) => lookup_view(r) == interpret_fields_spec(
                catalog_fields(b@, dec_of(app_id as nat)),
            ),
            None => r is None,
        },
{
    match proton_version_name(app_id) {
        Some(name) => Some((true, name)),
        None => match body {
            Some(b) => fetch_app_info_from_body(app_id, b),
            None => None,
        },
    }
}

/// The remote catalog's detail endpoint.
pub open spec fn url_prefix() -> Seq<u8> {
    seq![104u8, 116u8, 116u8, 112u8, 115u8, 58u8, 47u8, 47u8, 115u8, 116u8, 111u8, 114u8, 101u8,
        46u8, 115u8, 116u8, 101u8, 97u8, 109u8, 112u8, 111u8, 119u8, 101u8, 114u8, 101u8, 100u8,
        46u8, 99u8, 111u8, 109u8, 47u8, 97u8, 112u8, 105u8, 47u8, 97u8, 112u8, 112u8, 100u8,
        101u8, 116u8, 97u8, 105u8, 108u8, 115u8, 63u8, 97u8, 112u8, 112u8, 105u8, 100u8, 115u8,
        61u8]
}

/// The detail-endpoint URL for one identifier: the endpoint with the
/// identifier's decimal form appended.
pub open spec fn catalog_url_spec(app_id: u32) -> Seq<u8> {
    url_prefix() + dec_of(app_id as nat)
}

/// Builds the detail-endpoint URL for an identifier.
pub fn catalog_url(app_id: u32) -> (r: Vec<u8>)
    ensures
        r@ == catalog_url_spec(app_id),
{
    let prefix: [u8; 53] = [104, 116, 116, 112, 115, 58, 47, 47, 115, 116, 111, 114, 101, 46, 115,
        116, 101, 97, 109, 112, 111, 119, 101, 114, 101, 100, 46, 99, 111, 109, 47, 97, 112, 105,
        47, 97, 112, 112, 100, 101, 116, 97, 105, 108, 115, 63, 97, 112, 112, 105, 100, 115, 61];
    let mut r = vstd::slice::slice_to_vec(prefix.as_slice());
    proof {
        assert(prefix@ =~= url_prefix());
    }
    let digits = u32_to_dec(app_id);
    r.extend_from_slice(digits.as_slice());
    proof {
        assert(r@ =~= catalog_url_spec(app_id));
    }
    r
}

} // verus!
