//! Web addresses, read and written with `reqwest::Url`.

use reqwest::Url;
use vstd::prelude::*;

use crate::text;

verus! {

/// The two hosts of the file network.
pub open spec fn is_file_host(host: Seq<char>) -> bool {
    host == "cdn2.booksdl.lc"@ || host == "cdn3.booksdl.lc"@
}

/// A query of letters, digits and the signs `=`, `&`, `-` and `_`.
pub open spec fn is_simple_query(query: Seq<char>) -> bool {
    forall|i: int|
        0 <= i < query.len() ==> {
            let c = #[trigger] query[i];
            ||| '0' <= c <= '9'
            ||| 'A' <= c <= 'Z'
            ||| 'a' <= c <= 'z'
            ||| c == '='
            ||| c == '&'
            ||| c == '-'
            ||| c == '_'
        }
}

/// The address of a file on the file network, as it is always written.
pub open spec fn file_address(host: Seq<char>, query: Seq<char>) -> Seq<char> {
    "https://"@ + host + "/get.php?"@ + query
}

/// The host that an address names.
pub uninterp spec fn url_host(url: Seq<char>) -> Option<Seq<char>>;

/// `reqwest::Url::parse`, then `Url::host_str`: the host, if the address can be
/// parsed and names one. It is named; stated is only that the address of a file
/// on the file network, with a simple query, names the host that stands in it.
#[verifier::external_body]
pub(crate) fn host(url: &str) -> (r: Option<String>)
    ensures
        text::text_in(r) == url_host(url@),
        forall|h: Seq<char>, q: Seq<char>|
            url@ == #[trigger] file_address(h, q) && is_file_host(h) && is_simple_query(q)
                ==> text::text_in(r) == Some(h),
{
    Url::parse(url).ok()?.host_str().map(str::to_string)
}

/// An address with another host.
pub uninterp spec fn url_with_host(url: Seq<char>, host: Seq<char>) -> Option<Seq<char>>;

/// `reqwest::Url::parse`, then `Url::set_host`: the address with `host` in the
/// place of its own, if both can be parsed. It is named; stated is only that
/// the address of a file on the file network, with a simple query, is otherwise
/// unchanged. Both hosts are on the file network, so they are equally long: an
/// address that grows past 32 bits would make the call panic.
#[verifier::external_body]
pub(crate) fn with_host(url: &str, host: &str) -> (r: Option<String>)
    requires
        is_file_host(host@),
        url_host(url@) is Some,
        is_file_host(url_host(url@)->0),
    ensures
        text::text_in(r) == url_with_host(url@, host@),
        forall|h: Seq<char>, q: Seq<char>|
            url@ == #[trigger] file_address(h, q) && is_file_host(h) && is_simple_query(q)
                ==> text::text_in(r) == Some(file_address(host@, q)),
{
    let mut url = Url::parse(url).ok()?;
    url.set_host(Some(host)).ok()?;
    Some(url.to_string())
}

/// The path of an address.
pub uninterp spec fn url_path(url: Seq<char>) -> Option<Seq<char>>;

/// `reqwest::Url::parse`, then `Url::path`: the path, if the address can be
/// parsed. It is named, not stated.
#[verifier::external_body]
pub(crate) fn path(url: &str) -> (r: Option<String>)
    ensures
        text::text_in(r) == url_path(url@),
{
    Url::parse(url).ok().map(|url| url.path().to_string())
}

/// An address with two query parameters.
pub uninterp spec fn url_with_query(
    base: Seq<char>,
    first: (Seq<char>, Seq<char>),
    second: (Seq<char>, Seq<char>),
) -> Option<Seq<char>>;

/// A short address without a fragment, to which a query can be added.
pub open spec fn is_base(base: Seq<char>) -> bool {
    base.len() <= 1000 && !base.contains('#')
}

/// `reqwest::Url::parse_with_params`: `base` with two query parameters, if it
/// can be parsed. It is named, not stated. The place where the query begins,
/// and the one where a fragment begins, have to fit into 32 bits; else the call
/// would panic.
#[verifier::external_body]
pub(crate) fn with_query(base: &str, first: (&str, &str), second: (&str, &str)) -> (r: Option<
    String,
>)
    requires
        is_base(base@),
    ensures
        text::text_in(r) == url_with_query(
            base@,
            (first.0@, first.1@),
            (second.0@, second.1@),
        ),
{
    Url::parse_with_params(base, &[first, second]).ok().map(|url| url.to_string())
}

} // verus!
