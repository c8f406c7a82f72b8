//! Path extraction from a request target or URL: the text after the host
//! part, with surrounding slashes trimmed.

use crate::text::{
    find_char, find_triple, first_at, first_triple, lemma_first_at, lemma_first_triple,
    trim_slashes, trim_slashes_spec,
};
use vstd::prelude::*;

verus! {

/// Where [`parse_path`] finds the path of `s`: everything after the first
/// `/` that follows the scheme separator `://` (or after the first `/` at
/// all when there is no scheme), with leading and trailing slashes
/// trimmed. No `/`, or nothing left after trimming, means no path.
pub open spec fn parse_path_spec(s: Seq<char>) -> Option<Seq<char>> {
    let t = first_triple(s, ':', '/', '/');
    let rest = if t < s.len() {
        s.skip(t + 3)
    } else {
        s
    };
    let sl = first_at(rest, '/');
    if sl == rest.len() {
        None
    } else {
        let trimmed = trim_slashes_spec(rest.skip(sl + 1));
        if trimmed.len() == 0 {
            None
        } else {
            Some(trimmed)
        }
    }
}

/// Extracts the path component of a URL or request target, with and
/// without a scheme prefix, exactly as [`parse_path_spec`] describes.
pub fn parse_path(url: &str) -> (r: Option<&str>)
    ensures
        match r {
            Some(p) => parse_path_spec(url@) == Some(p@),
            None => parse_path_spec(url@) is None,
        },
{
    proof {
        lemma_first_triple(url@, ':', '/', '/');
    }
    let n = url.unicode_len();
    let t = find_triple(url, ':', '/', '/');
    let rest: &str = if t < n {
        url.substring_char(t + 3, n)
    } else {
        url
    };
    let ghost spec_rest = if first_triple(url@, ':', '/', '/') < url@.len() {
        url@.skip(first_triple(url@, ':', '/', '/') + 3)
    } else {
        url@
    };
    proof {
        assert(rest@ =~= spec_rest);
        lemma_first_at(rest@, '/');
    }
    let m = rest.unicode_len();
    let sl = find_char(rest, '/');
    if sl == m {
        return None;
    }
    let cand = rest.substring_char(sl + 1, m);
    proof {
        assert(cand@ =~= rest@.skip(first_at(rest@, '/') + 1));
    }
    let p = trim_slashes(cand);
    if p.unicode_len() == 0 {
        return None;
    }
    Some(p)
}

} // verus!
