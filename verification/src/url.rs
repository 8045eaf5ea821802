//! The address of a verification request.
//!
//! `{server}/license/{user id}/{license key}/verify`, followed by the query:
//! `metadata`, `scope` and `challenge`, in this order, each only where it is
//! given, each value percent-encoded.

use vstd::prelude::*;
use vstd::utf8::encode_utf8;

verus! {

/// The bytes that stay as they are in a percent-encoded text: letters, digits
/// and `-`, `.`, `_`, `~`.
pub open spec fn is_unreserved(b: u8) -> bool {
    ||| 0x30 <= b <= 0x39
    ||| 0x41 <= b <= 0x5A
    ||| 0x61 <= b <= 0x7A
    ||| b == 0x2D
    ||| b == 0x2E
    ||| b == 0x5F
    ||| b == 0x7E
}

/// The hexadecimal digit `d`, in upper case.
pub open spec fn hex_digit(d: int) -> char {
    if d < 10 {
        ('0' as int + d) as char
    } else {
        ('A' as int + d - 10) as char
    }
}

/// One byte, percent-encoded: itself where it is unreserved, else `%` and its
/// two hexadecimal digits.
pub open spec fn encoded_byte(b: u8) -> Seq<char> {
    if is_unreserved(b) {
        seq![b as char]
    } else {
        seq!['%', hex_digit(b as int / 16), hex_digit(b as int % 16)]
    }
}

/// The bytes, percent-encoded one by one.
pub open spec fn percent_encoded(bytes: Seq<u8>) -> Seq<char>
    decreases bytes.len(),
{
    if bytes.len() == 0 {
        Seq::empty()
    } else {
        encoded_byte(bytes[0]) + percent_encoded(bytes.skip(1))
    }
}

/// A text, percent-encoded: the bytes of its UTF-8 form, one by one.
pub open spec fn encoded(text: Seq<char>) -> Seq<char> {
    percent_encoded(encode_utf8(text))
}

/// `urlencoding::encode`, copied into a `String`. It passes letters, digits
/// and `-`, `.`, `_`, `~` through and writes every other byte of the text as
/// `%` and two upper-case hexadecimal digits.
#[verifier::external_body]
pub(crate) fn percent_encode(text: &str) -> (out: String)
    ensures
        out@ == encoded(text@),
{
    urlencoding::encode(text).into_owned()
}

/// The texts of `parts`, with `sep` between each two.
pub open spec fn joined(parts: Seq<Seq<char>>, sep: Seq<char>) -> Seq<char>
    decreases parts.len(),
{
    if parts.len() == 0 {
        Seq::empty()
    } else if parts.len() == 1 {
        parts[0]
    } else {
        joined(parts.drop_last(), sep) + sep + parts.last()
    }
}

/// One query parameter: `name`, `=`, and the value percent-encoded.
pub open spec fn query_param(name: Seq<char>, value: Seq<char>) -> Seq<char> {
    name + "="@ + encoded(value)
}

/// The list that holds `query_param(name, value)` where there is a value, and
/// nothing where there is none.
pub open spec fn optional_param(name: Seq<char>, value: Option<Seq<char>>) -> Seq<Seq<char>> {
    match value {
        Some(v) => seq![query_param(name, v)],
        None => Seq::empty(),
    }
}

/// The query parameters of a request, in the order in which they are sent.
pub open spec fn query_params(
    metadata: Option<Seq<char>>,
    scope: Option<Seq<char>>,
    challenge: Option<Seq<char>>,
) -> Seq<Seq<char>> {
    optional_param("metadata"@, metadata) + optional_param("scope"@, scope) + optional_param(
        "challenge"@,
        challenge,
    )
}

/// The query of a request: empty without parameters, else `?` and the
/// parameters with `&` between them.
pub open spec fn query_text(params: Seq<Seq<char>>) -> Seq<char> {
    if params.len() == 0 {
        Seq::empty()
    } else {
        "?"@ + joined(params, "&"@)
    }
}

/// The address of a request without its query.
pub open spec fn path_text(server: Seq<char>, user_id: Seq<char>, license: Seq<char>) -> Seq<
    char,
> {
    server + "/license/"@ + user_id + "/"@ + license + "/verify"@
}

/// The address of a request.
pub open spec fn url_text(
    server: Seq<char>,
    user_id: Seq<char>,
    license: Seq<char>,
    metadata: Option<Seq<char>>,
    scope: Option<Seq<char>>,
    challenge: Option<Seq<char>>,
) -> Seq<char> {
    path_text(server, user_id, license) + query_text(query_params(metadata, scope, challenge))
}

/// The views of the texts in `parts`.
pub open spec fn views(parts: Seq<String>) -> Seq<Seq<char>> {
    parts.map_values(|t: String| t@)
}

/// The texts of `parts`, with `sep` between each two.
pub fn join_text(parts: &Vec<String>, sep: &str) -> (out: String)
    ensures
        out@ == joined(views(parts@), sep@),
{
    let mut out = String::new();
    let mut i: usize = 0;
    while i < parts.len()
        invariant
            i <= parts.len(),
            out@ == joined(views(parts@).take(i as int), sep@),
        decreases parts.len() - i,
    {
        let ghost upto = views(parts@).take(i + 1);
        if i > 0 {
            out.append(sep);
        }
        out.append(parts[i].as_str());
        proof {
            assert(upto.drop_last() == views(parts@).take(i as int));
            assert(upto.last() == parts@[i as int]@);
            assert(out@ =~= joined(upto, sep@));
        }
        i += 1;
    }
    assert(views(parts@).take(i as int) == views(parts@));
    out
}

/// `name`, `=`, and `value` percent-encoded.
pub fn param_text(name: &str, value: &str) -> (out: String)
    ensures
        out@ == query_param(name@, value@),
{
    let mut out = name.to_owned();
    out.append("=");
    let value = percent_encode(value);
    out.append(value.as_str());
    out
}

/// Without metadata, scope and challenge the address is the path alone. It
/// then holds a `?` only where the server, the user id or the key holds one.
pub proof fn lemma_url_without_query(server: Seq<char>, user_id: Seq<char>, license: Seq<char>)
    ensures
        url_text(server, user_id, license, None, None, None) == path_text(
            server,
            user_id,
            license,
        ),
        !server.contains('?') && !user_id.contains('?') && !license.contains('?') ==> !url_text(
            server,
            user_id,
            license,
            None,
            None,
            None,
        ).contains('?'),
{
    reveal_strlit("/license/");
    reveal_strlit("/");
    reveal_strlit("/verify");
    let path = path_text(server, user_id, license);
    assert(query_params(None, None, None) =~= Seq::<Seq<char>>::empty());
    assert(url_text(server, user_id, license, None, None, None) =~= path);
    if !server.contains('?') && !user_id.contains('?') && !license.contains('?') {
        assert forall|i: int| 0 <= i < path.len() implies path[i] != '?' by {
            let a = server.len() as int;
            let b = a + 9;
            let c = b + user_id.len();
            let d = c + 1;
            let e = d + license.len();
            if i < a {
                assert(server.contains(path[i]));
            } else if i < b {
                assert(path[i] == "/license/"@[i - a]);
            } else if i < c {
                assert(user_id[i - b] == path[i]);
                assert(user_id.contains(path[i]));
            } else if i < d {
                assert(path[i] == '/');
            } else if i < e {
                assert(license[i - d] == path[i]);
                assert(license.contains(path[i]));
            } else {
                assert(path[i] == "/verify"@[i - e]);
            }
        }
    }
}

/// With metadata alone the query is `?metadata=` and the encoded value.
pub proof fn lemma_url_metadata_alone(
    server: Seq<char>,
    user_id: Seq<char>,
    license: Seq<char>,
    metadata: Seq<char>,
)
    ensures
        url_text(server, user_id, license, Some(metadata), None, None) == path_text(
            server,
            user_id,
            license,
        ) + "?metadata="@ + encoded(metadata),
{
    reveal_strlit("?metadata=");
    reveal_strlit("?");
    reveal_strlit("metadata");
    reveal_strlit("=");
    let params = query_params(Some(metadata), None, None);
    assert(params =~= seq![query_param("metadata"@, metadata)]);
    assert(query_text(params) =~= "?metadata="@ + encoded(metadata));
    assert(url_text(server, user_id, license, Some(metadata), None, None) =~= path_text(
        server,
        user_id,
        license,
    ) + "?metadata="@ + encoded(metadata));
}

/// With metadata and scope the query holds both, metadata first.
pub proof fn lemma_url_metadata_and_scope(
    server: Seq<char>,
    user_id: Seq<char>,
    license: Seq<char>,
    metadata: Seq<char>,
    scope: Seq<char>,
)
    ensures
        url_text(server, user_id, license, Some(metadata), Some(scope), None) == path_text(
            server,
            user_id,
            license,
        ) + "?metadata="@ + encoded(metadata) + "&scope="@ + encoded(scope),
{
    reveal_strlit("?metadata=");
    reveal_strlit("&scope=");
    reveal_strlit("?");
    reveal_strlit("&");
    reveal_strlit("metadata");
    reveal_strlit("scope");
    reveal_strlit("=");
    let first = query_param("metadata"@, metadata);
    let second = query_param("scope"@, scope);
    let params = query_params(Some(metadata), Some(scope), None);
    assert(params =~= seq![first, second]);
    assert(params.drop_last() =~= seq![first]);
    assert(joined(params.drop_last(), "&"@) == first);
    assert(joined(params, "&"@) == first + "&"@ + second);
    assert(query_text(params) =~= "?metadata="@ + encoded(metadata) + "&scope="@ + encoded(scope));
    assert(url_text(server, user_id, license, Some(metadata), Some(scope), None) =~= path_text(
        server,
        user_id,
        license,
    ) + "?metadata="@ + encoded(metadata) + "&scope="@ + encoded(scope));
}

/// A challenge always comes last: the address with it is the address without
/// it, then `?` where it is the only parameter and `&` where it is not, then
/// `challenge=` and the encoded value.
pub proof fn lemma_url_challenge_last(
    server: Seq<char>,
    user_id: Seq<char>,
    license: Seq<char>,
    metadata: Option<Seq<char>>,
    scope: Option<Seq<char>>,
    challenge: Seq<char>,
)
    ensures
        url_text(server, user_id, license, metadata, scope, Some(challenge)) == url_text(
            server,
            user_id,
            license,
            metadata,
            scope,
            None,
        ) + (if metadata is None && scope is None {
            "?"@
        } else {
            "&"@
        }) + "challenge="@ + encoded(challenge),
{
    reveal_strlit("challenge=");
    reveal_strlit("challenge");
    reveal_strlit("=");
    let last = query_param("challenge"@, challenge);
    let before = query_params(metadata, scope, None);
    let params = query_params(metadata, scope, Some(challenge));
    assert(before =~= optional_param("metadata"@, metadata) + optional_param("scope"@, scope));
    assert(params =~= before.push(last));
    assert(params.drop_last() =~= before);
    assert(last =~= "challenge="@ + encoded(challenge));
    let sep = if metadata is None && scope is None {
        "?"@
    } else {
        "&"@
    };
    if before.len() == 0 {
        assert(query_text(params) =~= query_text(before) + sep + last);
    } else {
        if before.len() == 1 {
            assert(joined(before, "&"@) == before[0]);
        }
        assert(joined(params, "&"@) == joined(before, "&"@) + "&"@ + last);
        assert(query_text(params) =~= query_text(before) + sep + last);
    }
    assert(url_text(server, user_id, license, metadata, scope, Some(challenge)) =~= url_text(
        server,
        user_id,
        license,
        metadata,
        scope,
        None,
    ) + sep + "challenge="@ + encoded(challenge));
}

} // verus!
