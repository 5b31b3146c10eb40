//! What the library asks a chat provider when it lists models or tests a
//! connection: the address, the authorization headers and the key to use, and how a
//! failed answer is reported.
use vstd::prelude::*;
use crate::model::trim_trailing_slashes;
use crate::text::{append_chars, chars_of, str_eq, string_of};

verus! {

/// The address that lists a provider's models.
pub open spec fn models_url_of(base_url: Seq<char>) -> Seq<char> {
    trim_trailing_slashes(base_url) + "/v1/models"@
}

/// The address that lists a provider's models: its base address without trailing
/// slashes, then `/v1/models`.
pub fn models_url(base_url: &str) -> (res: String)
    ensures
        res@ == models_url_of(base_url@),
{
    let base = chars_of(base_url);
    let mut end = base.len();
    proof {
        assert(base@.take(end as int) =~= base@);
    }
    while end > 0 && base[end - 1] == '/'
        invariant
            end <= base@.len(),
            trim_trailing_slashes(base_url@) == trim_trailing_slashes(base@.take(end as int)),
            base@ == base_url@,
        decreases end,
    {
        proof {
            assert(base@.take(end as int).drop_last() =~= base@.take(end - 1));
        }
        end = end - 1;
    }
    let mut out = crate::text::slice_to_vec(base.as_slice(), 0, end);
    append_chars(&mut out, chars_of("/v1/models").as_slice());
    proof {
        assert(base@.subrange(0, end as int) =~= base@.take(end as int));
    }
    string_of(out.as_slice())
}

/// The headers that carry a key to a provider: `x-api-key` with the API version for
/// the Anthropic format, a bearer token otherwise.
pub open spec fn auth_headers(api_format: Seq<char>, key: Seq<char>) -> Seq<(Seq<char>, Seq<char>)> {
    if api_format == "anthropic"@ {
        seq![("x-api-key"@, key), ("anthropic-version"@, "2023-06-01"@)]
    } else {
        seq![("Authorization"@, "Bearer "@ + key)]
    }
}

pub open spec fn header_views(v: Seq<(String, String)>) -> Seq<(Seq<char>, Seq<char>)> {
    v.map_values(|h: (String, String)| (h.0@, h.1@))
}

fn bearer(key: &str) -> (res: String)
    ensures
        res@ == "Bearer "@ + key@,
{
    let mut v = chars_of("Bearer ");
    append_chars(&mut v, chars_of(key).as_slice());
    string_of(v.as_slice())
}

/// The headers of a request for a provider's models: none without a key.
pub fn model_list_headers(api_format: &str, key: &Option<String>) -> (res: Vec<(String, String)>)
    ensures
        header_views(res@) == match key {
            Some(k) => auth_headers(api_format@, k@),
            None => Seq::<(Seq<char>, Seq<char>)>::empty(),
        },
{
    let mut out: Vec<(String, String)> = Vec::new();
    match key {
        Some(k) => {
            if str_eq(api_format, "anthropic") {
                out.push((String::from_str("x-api-key"), string_of(chars_of(k.as_str()).as_slice())));
                out.push((String::from_str("anthropic-version"), String::from_str("2023-06-01")));
            } else {
                out.push((String::from_str("Authorization"), bearer(k.as_str())));
            }
        },
        None => {},
    }
    assert(header_views(out@) =~= match key {
        Some(k) => auth_headers(api_format@, k@),
        None => Seq::<(Seq<char>, Seq<char>)>::empty(),
    });
    out
}

/// The headers of a connection test: a bearer token where the key is not empty.
pub fn connection_test_headers(api_key: &str) -> (res: Vec<(String, String)>)
    ensures
        header_views(res@) == if api_key@.len() > 0 {
            seq![("Authorization"@, "Bearer "@ + api_key@)]
        } else {
            Seq::<(Seq<char>, Seq<char>)>::empty()
        },
{
    let mut out: Vec<(String, String)> = Vec::new();
    if chars_of(api_key).len() > 0 {
        out.push((String::from_str("Authorization"), bearer(api_key)));
    }
    assert(header_views(out@) =~= if api_key@.len() > 0 {
        seq![("Authorization"@, "Bearer "@ + api_key@)]
    } else {
        Seq::<(Seq<char>, Seq<char>)>::empty()
    });
    out
}

/// The key given with a request, where it is not empty.
pub fn provided_api_key(api_key: &Option<String>) -> (res: Option<String>)
    ensures
        match api_key {
            Some(k) => if k@.len() > 0 {
                res matches Some(r) && r@ == k@
            } else {
                res is None
            },
            None => res is None,
        },
{
    match api_key {
        Some(k) => if chars_of(k.as_str()).len() > 0 {
            Some(string_of(chars_of(k.as_str()).as_slice()))
        } else {
            None
        },
        None => None,
    }
}

/// The keychain entry to read the key from: the reference, where no key was given
/// and the reference is not empty.
pub fn keychain_reference(api_key: &Option<String>, api_key_ref: &Option<String>) -> (res: Option<String>)
    ensures
        match api_key {
            Some(k) if k@.len() > 0 => res is None,
            _ => match api_key_ref {
                Some(r) => if r@.len() > 0 {
                    res matches Some(x) && x@ == r@
                } else {
                    res is None
                },
                None => res is None,
            },
        },
{
    match provided_api_key(api_key) {
        Some(_) => None,
        None => provided_api_key(api_key_ref),
    }
}

/// The message for an answer with a failing status: the status, then its reason or
/// 未知错误.
pub fn http_failure_message(status: &str, reason: Option<&str>) -> (res: String)
    ensures
        res@ == "HTTP "@ + status@ + ": "@ + match reason {
            Some(r) => r@,
            None => "未知错误"@,
        },
{
    let mut v = chars_of("HTTP ");
    append_chars(&mut v, chars_of(status).as_slice());
    append_chars(&mut v, chars_of(": ").as_slice());
    match reason {
        Some(r) => append_chars(&mut v, chars_of(r).as_slice()),
        None => append_chars(&mut v, chars_of("未知错误").as_slice()),
    }
    string_of(v.as_slice())
}

} // verus!
