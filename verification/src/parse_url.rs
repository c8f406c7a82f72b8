//! Query-parameter extraction: the text after the first `?` split on `&`,
//! each `key=value` segment collected into a mapping where the last
//! occurrence of a key wins. No percent-decoding is performed.

use crate::string_map::{lemma_pairs_map_push, pairs_map, StringMap};
use crate::text::{find_char, first_at, lemma_first_at, split_char_vec, split_spec, views_of};
use vstd::prelude::*;

verus! {

/// Whether a query segment carries a `=`.
pub open spec fn segment_has_eq(seg: Seq<char>) -> bool {
    first_at(seg, '=') < seg.len()
}

/// The key/value pair of a query segment: the text before the first `=`
/// and the text after it.
pub open spec fn segment_pair(seg: Seq<char>) -> (Seq<char>, Seq<char>) {
    (seg.take(first_at(seg, '=')), seg.skip(first_at(seg, '=') + 1))
}

/// The pairs a list of query segments contributes, in order; segments
/// without `=` contribute nothing.
pub open spec fn param_pairs(segs: Seq<Seq<char>>) -> Seq<(Seq<char>, Seq<char>)>
    decreases segs.len(),
{
    if segs.len() == 0 {
        Seq::<(Seq<char>, Seq<char>)>::empty()
    } else if segment_has_eq(segs.last()) {
        param_pairs(segs.drop_last()).push(segment_pair(segs.last()))
    } else {
        param_pairs(segs.drop_last())
    }
}

/// What [`parse_url_param`] collects from `s`: the text after the first
/// `?`, split on `&`, each `key=value` segment inserted in order so that
/// the last occurrence of a key wins. Without a `?` the mapping is empty.
pub open spec fn url_params_spec(s: Seq<char>) -> Map<Seq<char>, Seq<char>> {
    let q = first_at(s, '?');
    if q == s.len() {
        Map::<Seq<char>, Seq<char>>::empty()
    } else {
        pairs_map(param_pairs(split_spec(s.skip(q + 1), '&')))
    }
}

/// Collects the query parameters of a URL, exactly as [`url_params_spec`]
/// describes; the keys of the result are pairwise distinct.
pub fn parse_url_param(url: &str) -> (r: StringMap)
    ensures
        r.wf(),
        r@ == url_params_spec(url@),
{
    proof {
        lemma_first_at(url@, '?');
    }
    let n = url.unicode_len();
    let q = find_char(url, '?');
    let mut map = StringMap::new();
    if q == n {
        return map;
    }
    let query = url.substring_char(q + 1, n);
    proof {
        assert(query@ =~= url@.skip(first_at(url@, '?') + 1));
    }
    let segs = split_char_vec(query, '&');
    let ghost sv = views_of(segs@);
    let len = segs.len();
    proof {
        assert(param_pairs(sv.take(0)) =~= Seq::<(Seq<char>, Seq<char>)>::empty());
        assert(map@ =~= pairs_map(param_pairs(sv.take(0))));
    }
    let mut i: usize = 0;
    while i < len
        invariant
            0 <= i <= len,
            len == segs@.len(),
            sv == views_of(segs@),
            sv.len() == len,
            map.wf(),
            map@ == pairs_map(param_pairs(sv.take(i as int))),
        decreases len - i,
    {
        let seg = &segs[i];
        proof {
            assert(sv[i as int] == seg@);
            lemma_first_at(seg@, '=');
        }
        let m = seg.as_str().unicode_len();
        let e = find_char(seg.as_str(), '=');
        let ghost prev = sv.take(i as int);
        proof {
            assert(sv.take(i + 1).drop_last() =~= prev);
            assert(sv.take(i + 1).last() == sv[i as int]);
        }
        if e < m {
            let key = seg.as_str().substring_char(0, e).to_owned();
            let value = seg.as_str().substring_char(e + 1, m).to_owned();
            proof {
                assert(key@ =~= seg@.take(first_at(seg@, '=')));
                assert(value@ =~= seg@.skip(first_at(seg@, '=') + 1));
            }
            map.insert(key, value);
            proof {
                assert(param_pairs(sv.take(i + 1)) == param_pairs(prev).push(
                    segment_pair(sv[i as int]),
                ));
                lemma_pairs_map_push(
                    param_pairs(prev),
                    segment_pair(sv[i as int]).0,
                    segment_pair(sv[i as int]).1,
                );
            }
        } else {
            proof {
                assert(!segment_has_eq(sv[i as int]));
                assert(param_pairs(sv.take(i + 1)) == param_pairs(prev));
            }
        }
        i += 1;
    }
    proof {
        assert(sv.take(len as int) =~= sv);
    }
    map
}

/// Every `key=value` segment's key appears in the collected mapping, and
/// of segments sharing a key the last one's value wins: when segment `j`
/// is the last one carrying the key `k`, the mapping holds `k` with
/// exactly that segment's value.
pub proof fn lemma_duplicate_param_last_wins(segs: Seq<Seq<char>>, k: Seq<char>, j: int)
    requires
        0 <= j < segs.len(),
        segment_has_eq(segs[j]),
        segment_pair(segs[j]).0 == k,
        forall|l: int|
            j < l < segs.len() ==> !(segment_has_eq(#[trigger] segs[l]) && segment_pair(segs[l]).0
                == k),
    ensures
        pairs_map(param_pairs(segs)).contains_key(k),
        pairs_map(param_pairs(segs))[k] == segment_pair(segs[j]).1,
    decreases segs.len(),
{
    if j == segs.len() - 1 {
        assert(segs.last() == segs[j]);
        lemma_pairs_map_push(param_pairs(segs.drop_last()), k, segment_pair(segs[j]).1);
    } else {
        let dl = segs.drop_last();
        assert(dl[j] == segs[j]);
        assert(forall|l: int|
            j < l < dl.len() ==> !(segment_has_eq(#[trigger] dl[l]) && segment_pair(dl[l]).0
                == k)) by {
            assert(forall|l: int| 0 <= l < segs.len() - 1 ==> #[trigger] dl[l] == segs[l]);
        }
        lemma_duplicate_param_last_wins(dl, k, j);
        if segment_has_eq(segs.last()) {
            assert(segment_pair(segs.last()).0 != k) by {
                assert(segs[segs.len() - 1] == segs.last());
            }
            lemma_pairs_map_push(
                param_pairs(dl),
                segment_pair(segs.last()).0,
                segment_pair(segs.last()).1,
            );
        }
    }
}

} // verus!
