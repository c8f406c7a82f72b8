//! Response encoding: the status line, the header block with `Date` and
//! `Content-Length` injected, and the optional body, serialized to the
//! exact byte-for-byte wire text.

use crate::numbers::{dec_digits, usize_to_string};
use crate::string_map::{entries_insert, StringMap};
use vstd::prelude::*;
use vstd::utf8::encode_utf8;

verus! {

/// An HTTP response as a handler builds it, before wire encoding.
#[derive(Clone, Debug)]
pub struct Response {
    pub status_code: u16,
    pub reason: String,
    pub response_body: Option<String>,
    pub headers: StringMap,
}

/// What chrono's HTTP-date formatting produces for a count of seconds
/// since the Unix epoch.
pub uninterp spec fn http_date_of(secs: i64) -> Seq<char>;

/// A character sequence the date formatter can produce for some instant.
pub open spec fn is_http_date(date: Seq<char>) -> bool {
    exists|secs: i64| 0 <= secs && date == http_date_of(secs)
}

/// Relies on std::time::SystemTime::now and its duration_since the Unix
/// epoch: the clock decides the count, so nothing is promised of it
/// beyond its sign.
#[verifier::external_body]
fn current_epoch_seconds() -> (r: i64)
    ensures
        0 <= r,
{
    match std::time::SystemTime::now().duration_since(std::time::UNIX_EPOCH) {
        Ok(d) => i64::try_from(d.as_secs()).unwrap_or(i64::MAX),
        Err(_) => 0,
    }
}

/// Relies on chrono::DateTime::<Utc>::from_timestamp and on formatting the
/// result with `%a, %d %b %Y %H:%M:%S GMT`: the text (an HTTP-date such as
/// `Sun, 07 Jul 2024 12:00:00 GMT`) is a function of the seconds alone.
#[verifier::external_body]
fn format_http_date(secs: i64) -> (r: String)
    ensures
        r@ == http_date_of(secs),
{
    let dt = chrono::DateTime::<chrono::Utc>::from_timestamp(secs, 0).unwrap_or_default();
    dt.format("%a, %d %b %Y %H:%M:%S GMT").to_string()
}

/// The current instant in HTTP-date form.
pub fn get_current_utc_date() -> (r: String)
    ensures
        is_http_date(r@),
{
    let secs = current_epoch_seconds();
    let r = format_http_date(secs);
    proof {
        assert(0 <= secs && r@ == http_date_of(secs as i64));
    }
    r
}

/// The status line for a code and reason: `HTTP/1.1 {code} {reason} \r\n`.
/// The single space before the line break is part of the wire format.
pub open spec fn status_line_spec(status_code: u16, reason: Seq<char>) -> Seq<char> {
    "HTTP/1.1 "@ + dec_digits(status_code as int) + " "@ + reason + " \r\n"@
}

/// Builds the status line, exactly [`status_line_spec`].
pub fn write_status_header(status_code: u16, reason: &str) -> (r: String)
    ensures
        r@ == status_line_spec(status_code, reason@),
{
    let mut s: String = "HTTP/1.1 ".to_owned();
    let code = usize_to_string(status_code as usize);
    s.append(code.as_str());
    s.append(" ");
    s.append(reason);
    s.append(" \r\n");
    proof {
        assert(s@ =~= status_line_spec(status_code, reason@));
    }
    s
}

/// The byte length of an optional body.
pub open spec fn content_length_value(body: Option<&str>) -> int {
    match body {
        Some(b) => (encode_utf8(b@).len() as usize) as int,
        None => 0,
    }
}

/// Header pairs serialized in storage order, `Name: Value\r\n` each.
pub open spec fn rendered_headers(es: Seq<(Seq<char>, Seq<char>)>) -> Seq<char>
    decreases es.len(),
{
    if es.len() == 0 {
        Seq::<char>::empty()
    } else {
        rendered_headers(es.drop_last()) + es.last().0 + ": "@ + es.last().1 + "\r\n"@
    }
}

/// The mapping and text that the header-block builders produce when the
/// clock reads `date`: `Date` and `Content-Length` are set (overwriting
/// caller values), every pair is serialized in storage order, and a blank
/// line closes the block.
pub open spec fn header_block_matches(
    pre: StringMap,
    post: StringMap,
    body_len: int,
    date: Seq<char>,
    r: Seq<char>,
) -> bool {
    &&& post.entries() == entries_insert(
        entries_insert(pre.entries(), "Date"@, date),
        "Content-Length"@,
        dec_digits(body_len),
    )
    &&& post@ == pre@.insert("Date"@, date).insert("Content-Length"@, dec_digits(body_len))
    &&& r == rendered_headers(post.entries()) + "\r\n"@
}

/// Builds the header block for a given `Date` value, exactly
/// [`header_block_matches`].
pub fn render_header_block(headers: &mut StringMap, body: Option<&str>, date: &str) -> (r: String)
    requires
        old(headers).wf(),
    ensures
        final(headers).wf(),
        header_block_matches(
            *old(headers),
            *final(headers),
            content_length_value(body),
            date@,
            r@,
        ),
{
    headers.insert("Date".to_owned(), date.to_owned());
    let cl: usize = match body {
        Some(b) => b.len(),
        None => 0,
    };
    headers.insert("Content-Length".to_owned(), usize_to_string(cl));
    let ghost es = headers.entries();
    let mut out = String::new();
    let n = headers.len();
    proof {
        assert(rendered_headers(es.take(0)) =~= Seq::<char>::empty());
        assert(out@ =~= rendered_headers(es.take(0)));
    }
    let mut i: usize = 0;
    while i < n
        invariant
            0 <= i <= n,
            es == headers.entries(),
            n == es.len(),
            headers.wf(),
            headers.entries() == entries_insert(
                entries_insert(old(headers).entries(), "Date"@, date@),
                "Content-Length"@,
                dec_digits(content_length_value(body)),
            ),
            headers@ == old(headers)@.insert("Date"@, date@).insert(
                "Content-Length"@,
                dec_digits(content_length_value(body)),
            ),
            out@ == rendered_headers(es.take(i as int)),
        decreases n - i,
    {
        out.append(headers.key_at(i).as_str());
        out.append(": ");
        out.append(headers.value_at(i).as_str());
        out.append("\r\n");
        proof {
            assert(es.take(i + 1).drop_last() =~= es.take(i as int));
            assert(es.take(i + 1).last() == es[i as int]);
            assert(out@ =~= rendered_headers(es.take(i + 1)));
        }
        i += 1;
    }
    out.append("\r\n");
    proof {
        assert(es.take(n as int) =~= es);
        assert(out@ =~= rendered_headers(es) + "\r\n"@);
    }
    out
}

/// Builds the header block with the current instant as `Date`: the exact
/// [`header_block_matches`] text for some clock reading.
pub fn write_header(headers: &mut StringMap, body: Option<&str>) -> (r: String)
    requires
        old(headers).wf(),
    ensures
        final(headers).wf(),
        exists|date: Seq<char>|
            is_http_date(date) && #[trigger] header_block_matches(
                *old(headers),
                *final(headers),
                content_length_value(body),
                date,
                r@,
            ),
{
    let date = get_current_utc_date();
    let r = render_header_block(headers, body, date.as_str());
    proof {
        assert(is_http_date(date@) && header_block_matches(
            *old(headers),
            *final(headers),
            content_length_value(body),
            date@,
            r@,
        ));
    }
    r
}

/// The byte length of a response's optional body.
pub open spec fn response_body_len(resp: Response) -> int {
    match resp.response_body {
        Some(b) => (encode_utf8(b@).len() as usize) as int,
        None => 0,
    }
}

/// The full wire text of a response when the clock reads `date`: status
/// line, header block with `Date` and `Content-Length` injected, blank
/// line, then the body when there is one.
pub open spec fn encoded_response(resp: Response, date: Seq<char>) -> Seq<char> {
    let es = entries_insert(
        entries_insert(resp.headers.entries(), "Date"@, date),
        "Content-Length"@,
        dec_digits(response_body_len(resp)),
    );
    status_line_spec(resp.status_code, resp.reason@) + rendered_headers(es) + "\r\n"@ + (
    match resp.response_body {
        Some(b) => b@,
        None => Seq::<char>::empty(),
    })
}

/// Encodes a response to its full wire text, [`encoded_response`] for some
/// clock reading; the handler's response is consumed, never shared.
pub fn render_response(response: Response) -> (r: String)
    requires
        response.headers.wf(),
    ensures
        exists|date: Seq<char>| is_http_date(date) && r@ == #[trigger] encoded_response(
            response,
            date,
        ),
{
    let ghost orig = response;
    let mut resp = response;
    let status_line = write_status_header(resp.status_code, resp.reason.as_str());
    let body_ref: Option<&str> = match &resp.response_body {
        Some(b) => Some(b.as_str()),
        None => None,
    };
    let header_string = write_header(&mut resp.headers, body_ref);
    let mut full = status_line;
    full.append(header_string.as_str());
    if let Some(b) = &resp.response_body {
        full.append(b.as_str());
    }
    proof {
        let date = choose|date: Seq<char>|
            is_http_date(date) && #[trigger] header_block_matches(
                orig.headers,
                resp.headers,
                content_length_value(body_ref),
                date,
                header_string@,
            );
        assert(content_length_value(body_ref) == response_body_len(orig));
        assert(full@ =~= encoded_response(orig, date));
        assert(is_http_date(date) && full@ == encoded_response(orig, date));
    }
    full
}

/// One pair rendered as `"key": "value"`.
pub open spec fn json_item(p: (Seq<char>, Seq<char>)) -> Seq<char> {
    "\""@ + p.0 + "\": \""@ + p.1 + "\""@
}

/// The pairs rendered in storage order, joined with `", "`.
pub open spec fn json_items(es: Seq<(Seq<char>, Seq<char>)>) -> Seq<char>
    decreases es.len(),
{
    if es.len() == 0 {
        Seq::<char>::empty()
    } else if es.len() == 1 {
        json_item(es[0])
    } else {
        json_items(es.drop_last()) + ", "@ + json_item(es.last())
    }
}

/// Renders a mapping as a one-level JSON object, pairs in storage order.
pub fn hashmap_to_json(map: &StringMap) -> (r: String)
    ensures
        r@ == "{"@ + json_items(map.entries()) + "}"@,
{
    let ghost es = map.entries();
    let mut out: String = "{".to_owned();
    let n = map.len();
    let mut i: usize = 0;
    while i < n
        invariant
            0 <= i <= n,
            es == map.entries(),
            n == es.len(),
            out@ == "{"@ + json_items(es.take(i as int)),
        decreases n - i,
    {
        if i > 0 {
            out.append(", ");
        }
        out.append("\"");
        out.append(map.key_at(i).as_str());
        out.append("\": \"");
        out.append(map.value_at(i).as_str());
        out.append("\"");
        proof {
            assert(es.take(i + 1).drop_last() =~= es.take(i as int));
            assert(es.take(i + 1).last() == es[i as int]);
            assert(es.take(i + 1)[0] == es[0]);
            assert(out@ =~= "{"@ + json_items(es.take(i + 1)));
        }
        i += 1;
    }
    out.append("}");
    proof {
        assert(es.take(n as int) =~= es);
        assert(out@ =~= "{"@ + json_items(es) + "}"@);
    }
    out
}

} // verus!
