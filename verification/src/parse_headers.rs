//! Request-line and header-block parsing: the first line carries the
//! method, the raw request target and the protocol version; every further
//! line is a `Name: Value` header, the last occurrence of a name winning.

use crate::string_map::{lemma_pairs_map_push, pairs_map, StringMap};
use crate::text::{
    find_pair, first_pair, split_whitespace_vec, str_eq, tokens_spec, trim, trim_spec, views_of,
};
use vstd::prelude::*;

verus! {

/// The HTTP request methods; a token outside the closed set is kept as
/// [`RequestType::Unrecognized`] with its raw text.
#[allow(non_camel_case_types)]
#[derive(Debug)]
pub enum RequestType {
    GET,
    HEAD,
    POST,
    PUT,
    PATCH,
    DELETE,
    CONNECT,
    OPTIONS,
    TRACE,
    Unrecognized(String),
}

/// What equality of two method values means: same variant, and for
/// unrecognized tokens the same raw text.
pub open spec fn req_eq(a: RequestType, b: RequestType) -> bool {
    match (a, b) {
        (RequestType::GET, RequestType::GET) => true,
        (RequestType::HEAD, RequestType::HEAD) => true,
        (RequestType::POST, RequestType::POST) => true,
        (RequestType::PUT, RequestType::PUT) => true,
        (RequestType::PATCH, RequestType::PATCH) => true,
        (RequestType::DELETE, RequestType::DELETE) => true,
        (RequestType::CONNECT, RequestType::CONNECT) => true,
        (RequestType::OPTIONS, RequestType::OPTIONS) => true,
        (RequestType::TRACE, RequestType::TRACE) => true,
        (RequestType::Unrecognized(x), RequestType::Unrecognized(y)) => x@ == y@,
        _ => false,
    }
}

impl PartialEq for RequestType {
    fn eq(&self, other: &RequestType) -> bool {
        match (self, other) {
            (RequestType::GET, RequestType::GET) => true,
            (RequestType::HEAD, RequestType::HEAD) => true,
            (RequestType::POST, RequestType::POST) => true,
            (RequestType::PUT, RequestType::PUT) => true,
            (RequestType::PATCH, RequestType::PATCH) => true,
            (RequestType::DELETE, RequestType::DELETE) => true,
            (RequestType::CONNECT, RequestType::CONNECT) => true,
            (RequestType::OPTIONS, RequestType::OPTIONS) => true,
            (RequestType::TRACE, RequestType::TRACE) => true,
            (RequestType::Unrecognized(x), RequestType::Unrecognized(y)) => str_eq(
                x.as_str(),
                y.as_str(),
            ),
            _ => false,
        }
    }
}

impl vstd::std_specs::cmp::PartialEqSpecImpl for RequestType {
    open spec fn obeys_eq_spec() -> bool {
        true
    }

    open spec fn eq_spec(&self, other: &RequestType) -> bool {
        req_eq(*self, *other)
    }
}

/// The protocol version of the request line: `HTTP/1.1`, or anything else
/// kept as raw text.
#[derive(Debug, PartialEq)]
pub enum HttpType {
    OnePointOne,
    NotSupported(String),
}

/// Why a header block failed to parse.
#[derive(Clone, Copy, Debug, PartialEq, Eq, Structural)]
pub enum ParseError {
    /// There was no line to parse at all.
    NoHeaders,
    /// The request line had no tokens.
    InvalidRequestLine,
    /// The request line had no version token.
    InvalidVersion,
}

/// The method tokens the parser recognises.
pub open spec fn is_known_method(t: Seq<char>) -> bool {
    t == "GET"@ || t == "HEAD"@ || t == "POST"@ || t == "PUT"@ || t == "PATCH"@ || t == "DELETE"@
        || t == "CONNECT"@ || t == "OPTIONS"@ || t == "TRACE"@
}

/// The method value that the token `t` parses to.
pub open spec fn method_matches(rt: RequestType, t: Seq<char>) -> bool {
    match rt {
        RequestType::GET => t == "GET"@,
        RequestType::HEAD => t == "HEAD"@,
        RequestType::POST => t == "POST"@,
        RequestType::PUT => t == "PUT"@,
        RequestType::PATCH => t == "PATCH"@,
        RequestType::DELETE => t == "DELETE"@,
        RequestType::CONNECT => t == "CONNECT"@,
        RequestType::OPTIONS => t == "OPTIONS"@,
        RequestType::TRACE => t == "TRACE"@,
        RequestType::Unrecognized(raw) => raw@ == t && !is_known_method(t),
    }
}

/// The version value that the token `t` parses to.
pub open spec fn version_matches(ht: HttpType, t: Seq<char>) -> bool {
    match ht {
        HttpType::OnePointOne => t == "HTTP/1.1"@,
        HttpType::NotSupported(raw) => raw@ == t && t != "HTTP/1.1"@,
    }
}

/// One token parses to one method: any two method values matching the
/// same token are equal, so the parser's method outcome is determined.
pub proof fn lemma_method_determined(rt1: RequestType, rt2: RequestType, t: Seq<char>)
    requires
        method_matches(rt1, t),
        method_matches(rt2, t),
    ensures
        req_eq(rt1, rt2),
{
    reveal_strlit("GET");
    reveal_strlit("HEAD");
    reveal_strlit("POST");
    reveal_strlit("PUT");
    reveal_strlit("PATCH");
    reveal_strlit("DELETE");
    reveal_strlit("CONNECT");
    reveal_strlit("OPTIONS");
    reveal_strlit("TRACE");
    assert("GET"@.len() == 3);
    assert("HEAD"@.len() == 4);
    assert("POST"@.len() == 4);
    assert("PUT"@.len() == 3);
    assert("PATCH"@.len() == 5);
    assert("DELETE"@.len() == 6);
    assert("CONNECT"@.len() == 7);
    assert("OPTIONS"@.len() == 7);
    assert("TRACE"@.len() == 5);
    // tokens of equal length differ in their first character
    assert("GET"@ != "PUT"@) by {
        assert("GET"@[0] != "PUT"@[0]);
    }
    assert("HEAD"@ != "POST"@) by {
        assert("HEAD"@[0] != "POST"@[0]);
    }
    assert("PATCH"@ != "TRACE"@) by {
        assert("PATCH"@[0] != "TRACE"@[0]);
    }
    assert("CONNECT"@ != "OPTIONS"@) by {
        assert("CONNECT"@[0] != "OPTIONS"@[0]);
    }
}

/// One token parses to one version value, up to the raw text it carries.
pub proof fn lemma_version_determined(ht1: HttpType, ht2: HttpType, t: Seq<char>)
    requires
        version_matches(ht1, t),
        version_matches(ht2, t),
    ensures
        ht1 is OnePointOne <==> ht2 is OnePointOne,
        ht1 matches HttpType::NotSupported(x) ==> (ht2 matches HttpType::NotSupported(y) && x@
            == y@),
{
}

/// Whether a header line carries the `": "` name/value separator.
pub open spec fn has_separator(line: Seq<char>) -> bool {
    first_pair(line, ':', ' ') < line.len()
}

/// The trimmed name of a header line: the text before the first `": "`.
pub open spec fn header_key(line: Seq<char>) -> Seq<char> {
    trim_spec(line.take(first_pair(line, ':', ' ')))
}

/// The trimmed value of a header line: the text after the first `": "`.
pub open spec fn header_value(line: Seq<char>) -> Seq<char> {
    trim_spec(line.skip(first_pair(line, ':', ' ') + 2))
}

/// The name/value pairs of a header block, in line order; the request line
/// (index 0) and lines without the separator contribute nothing.
pub open spec fn header_pairs(lines: Seq<Seq<char>>) -> Seq<(Seq<char>, Seq<char>)>
    decreases lines.len(),
{
    if lines.len() <= 1 {
        Seq::<(Seq<char>, Seq<char>)>::empty()
    } else if has_separator(lines.last()) {
        header_pairs(lines.drop_last()).push(
            (header_key(lines.last()), header_value(lines.last())),
        )
    } else {
        header_pairs(lines.drop_last())
    }
}

/// What [`parse_headers`] returns for the header block `lines`.
pub open spec fn parse_result_matches(
    lines: Seq<Seq<char>>,
    r: Result<(RequestType, HttpType, StringMap, Option<String>), ParseError>,
) -> bool {
    if lines.len() == 0 {
        r == Err::<(RequestType, HttpType, StringMap, Option<String>), ParseError>(
            ParseError::NoHeaders,
        )
    } else {
        let toks = tokens_spec(lines[0]);
        if toks.len() == 0 {
            r == Err::<(RequestType, HttpType, StringMap, Option<String>), ParseError>(
                ParseError::InvalidRequestLine,
            )
        } else if toks.len() < 3 {
            r == Err::<(RequestType, HttpType, StringMap, Option<String>), ParseError>(
                ParseError::InvalidVersion,
            )
        } else {
            match r {
                Ok(t) => method_matches(t.0, toks[0]) && version_matches(t.1, toks[2]) && t.2.wf()
                    && t.2@ == pairs_map(header_pairs(lines)) && (match t.3 {
                    Some(u) => u@ == toks[1],
                    None => false,
                }),
                Err(_) => false,
            }
        }
    }
}

/// Maps a method token to its [`RequestType`].
fn method_of_token(tok: String) -> (rt: RequestType)
    ensures
        method_matches(rt, tok@),
{
    if str_eq(tok.as_str(), "GET") {
        RequestType::GET
    } else if str_eq(tok.as_str(), "HEAD") {
        RequestType::HEAD
    } else if str_eq(tok.as_str(), "POST") {
        RequestType::POST
    } else if str_eq(tok.as_str(), "PUT") {
        RequestType::PUT
    } else if str_eq(tok.as_str(), "PATCH") {
        RequestType::PATCH
    } else if str_eq(tok.as_str(), "DELETE") {
        RequestType::DELETE
    } else if str_eq(tok.as_str(), "CONNECT") {
        RequestType::CONNECT
    } else if str_eq(tok.as_str(), "OPTIONS") {
        RequestType::OPTIONS
    } else if str_eq(tok.as_str(), "TRACE") {
        RequestType::TRACE
    } else {
        RequestType::Unrecognized(tok)
    }
}

/// Parses a header block: the request line into method, raw target and
/// version, and every further `Name: Value` line into the header mapping,
/// the last occurrence of a name winning.
pub fn parse_headers(headers: Vec<String>) -> (r: Result<
    (RequestType, HttpType, StringMap, Option<String>),
    ParseError,
>)
    ensures
        parse_result_matches(views_of(headers@), r),
{
    let ghost lines = views_of(headers@);
    if headers.len() == 0 {
        return Err(ParseError::NoHeaders);
    }
    let toks = split_whitespace_vec(headers[0].as_str());
    proof {
        assert(lines[0] == headers@[0]@);
        assert(views_of(toks@) == tokens_spec(lines[0]));
    }
    if toks.len() == 0 {
        return Err(ParseError::InvalidRequestLine);
    }
    if toks.len() < 3 {
        return Err(ParseError::InvalidVersion);
    }
    let method_tok = toks[0].clone();
    let url_tok = toks[1].clone();
    let version_tok = toks[2].clone();
    proof {
        assert(method_tok@ == tokens_spec(lines[0])[0]);
        assert(url_tok@ == tokens_spec(lines[0])[1]);
        assert(version_tok@ == tokens_spec(lines[0])[2]);
    }
    let request_type = method_of_token(method_tok);
    let http_type = if str_eq(version_tok.as_str(), "HTTP/1.1") {
        HttpType::OnePointOne
    } else {
        HttpType::NotSupported(version_tok)
    };
    let mut header_map = StringMap::new();
    let n = headers.len();
    proof {
        assert(header_pairs(lines.take(1)) =~= Seq::<(Seq<char>, Seq<char>)>::empty());
        assert(header_map@ =~= pairs_map(header_pairs(lines.take(1))));
    }
    let mut i: usize = 1;
    while i < n
        invariant
            1 <= i <= n,
            n == headers@.len(),
            lines == views_of(headers@),
            lines.len() == n,
            header_map.wf(),
            header_map@ == pairs_map(header_pairs(lines.take(i as int))),
        decreases n - i,
    {
        let line = &headers[i];
        proof {
            assert(lines[i as int] == line@);
        }
        let len_i = line.as_str().unicode_len();
        let sep = find_pair(line.as_str(), ':', ' ');
        proof {
            crate::text::lemma_first_pair(line@, ':', ' ');
        }
        let ghost prev = lines.take(i as int);
        proof {
            assert(lines.take(i + 1).drop_last() =~= prev);
            assert(lines.take(i + 1).last() == lines[i as int]);
        }
        if sep < len_i {
            let key = trim(line.as_str().substring_char(0, sep)).to_owned();
            let value = trim(line.as_str().substring_char(sep + 2, len_i)).to_owned();
            proof {
                assert(line@.subrange(0, sep as int) =~= line@.take(first_pair(line@, ':', ' ')));
                assert(line@.subrange(sep + 2, len_i as int) =~= line@.skip(
                    first_pair(line@, ':', ' ') + 2,
                ));
                assert(key@ == header_key(lines[i as int]));
                assert(value@ == header_value(lines[i as int]));
            }
            header_map.insert(key, value);
            proof {
                assert(header_pairs(lines.take(i + 1)) == header_pairs(prev).push(
                    (header_key(lines[i as int]), header_value(lines[i as int])),
                ));
                lemma_pairs_map_push(
                    header_pairs(prev),
                    header_key(lines[i as int]),
                    header_value(lines[i as int]),
                );
            }
        } else {
            proof {
                assert(!has_separator(lines[i as int]));
                assert(header_pairs(lines.take(i + 1)) == header_pairs(prev));
            }
        }
        i += 1;
    }
    proof {
        assert(lines.take(n as int) =~= lines);
    }
    Ok((request_type, http_type, header_map, Some(url_tok)))
}

/// Duplicate header names keep the last-written value only: when line `j`
/// is the last line of the block carrying the name `k`, the parsed
/// mapping holds `k` with exactly that line's value.
pub proof fn lemma_duplicate_header_last_wins(lines: Seq<Seq<char>>, k: Seq<char>, j: int)
    requires
        1 <= j < lines.len(),
        has_separator(lines[j]),
        header_key(lines[j]) == k,
        forall|l: int|
            j < l < lines.len() ==> !(has_separator(#[trigger] lines[l]) && header_key(lines[l])
                == k),
    ensures
        pairs_map(header_pairs(lines)).contains_key(k),
        pairs_map(header_pairs(lines))[k] == header_value(lines[j]),
    decreases lines.len(),
{
    if j == lines.len() - 1 {
        assert(lines.last() == lines[j]);
        lemma_pairs_map_push(header_pairs(lines.drop_last()), k, header_value(lines[j]));
    } else {
        let dl = lines.drop_last();
        assert(dl[j] == lines[j]);
        assert(forall|l: int|
            j < l < dl.len() ==> !(has_separator(#[trigger] dl[l]) && header_key(dl[l]) == k)) by {
            assert(forall|l: int| 0 <= l < lines.len() - 1 ==> #[trigger] dl[l] == lines[l]);
        }
        lemma_duplicate_header_last_wins(dl, k, j);
        if has_separator(lines.last()) {
            assert(header_key(lines.last()) != k) by {
                assert(lines[lines.len() - 1] == lines.last());
            }
            lemma_pairs_map_push(
                header_pairs(dl),
                header_key(lines.last()),
                header_value(lines.last()),
            );
        }
    }
}

/// The parser recovers a well-formed input exactly: a request line built
/// from a blank-free method token, target and version splits back into
/// those three tokens, and a header line built from a trimmed name and
/// value (the name free of the `": "` separator) yields exactly that
/// name/value pair in the mapping.
pub proof fn lemma_parser_recovers(
    m: Seq<char>,
    target: Seq<char>,
    version: Seq<char>,
    name: Seq<char>,
    value: Seq<char>,
)
    requires
        m.len() > 0,
        forall|k: int| 0 <= k < m.len() ==> !crate::text::is_ws(#[trigger] m[k]),
        target.len() > 0,
        forall|k: int| 0 <= k < target.len() ==> !crate::text::is_ws(#[trigger] target[k]),
        version.len() > 0,
        forall|k: int| 0 <= k < version.len() ==> !crate::text::is_ws(#[trigger] version[k]),
        forall|k: int|
            0 <= k < name.len() - 1 ==> !(#[trigger] name[k] == ':' && name[k + 1] == ' '),
        trim_spec(name) == name,
        trim_spec(value) == value,
    ensures
        tokens_spec(m + " "@ + target + " "@ + version) == seq![m, target, version],
        header_pairs(seq![m + " "@ + target + " "@ + version, name + ": "@ + value]) == seq![
            (name, value),
        ],
        pairs_map(header_pairs(seq![m + " "@ + target + " "@ + version, name + ": "@ + value]))
            =~= Map::<Seq<char>, Seq<char>>::empty().insert(name, value),
{
    reveal_strlit(" ");
    reveal_strlit(": ");
    let line0 = m + " "@ + target + " "@ + version;
    let tail2 = target + (" "@ + version);
    let tail1 = " "@ + tail2;
    assert(" "@ =~= seq![' ']);
    // the request line splits into its three tokens
    assert(line0 =~= m + tail1);
    crate::text::lemma_tokens_prefix(m, tail1);
    assert(tail1 =~= seq![' '] + tail2);
    crate::text::lemma_tokens_skip_blank(tail2, ' ');
    crate::text::lemma_tokens_prefix(target, " "@ + version);
    assert(" "@ + version =~= seq![' '] + version);
    crate::text::lemma_tokens_skip_blank(version, ' ');
    crate::text::lemma_tokens_prefix(version, Seq::<char>::empty());
    assert(version + Seq::<char>::empty() =~= version);
    assert(tokens_spec(Seq::<char>::empty()) =~= Seq::<Seq<char>>::empty());
    assert(tokens_spec(line0) =~= seq![m, target, version]);
    // the header line splits at its separator into the trimmed pair
    let line1 = name + ": "@ + value;
    crate::text::lemma_first_pair(line1, ':', ' ');
    assert(line1[name.len() as int] == ':');
    assert(line1[name.len() as int + 1] == ' ');
    assert(first_pair(line1, ':', ' ') == name.len()) by {
        let fp = first_pair(line1, ':', ' ');
        if fp < name.len() {
            if fp < name.len() - 1 {
                assert(line1[fp] == name[fp]);
                assert(line1[fp + 1] == name[fp + 1]);
            } else {
                assert(line1[fp + 1] == ':');
            }
        }
        if fp > name.len() {
            assert(!(line1[name.len() as int] == ':' && line1[name.len() as int + 1] == ' '));
        }
    }
    assert(line1.take(name.len() as int) =~= name);
    assert(line1.skip(name.len() as int + 2) =~= value);
    assert(header_key(line1) == name);
    assert(header_value(line1) == value);
    let lines = seq![line0, line1];
    assert(lines.last() == line1);
    assert(lines.drop_last() =~= seq![line0]);
    assert(header_pairs(seq![line0]) =~= Seq::<(Seq<char>, Seq<char>)>::empty());
    assert(header_pairs(lines) =~= seq![(name, value)]);
    let hp = header_pairs(lines);
    lemma_pairs_map_push(Seq::<(Seq<char>, Seq<char>)>::empty(), name, value);
    assert(Seq::<(Seq<char>, Seq<char>)>::empty().push((name, value)) =~= hp);
    assert(pairs_map(hp) =~= Map::<Seq<char>, Seq<char>>::empty().insert(name, value));
}

} // verus!
