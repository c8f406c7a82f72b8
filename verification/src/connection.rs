//! The verified piece of connection intake: finding the body length that a
//! block of header lines declares. Reading the lines from a socket and
//! reading the body itself are the host program's work.

use crate::numbers::{parse_usize, parsed_usize};
use crate::text::{find_char, first_at, lemma_first_at, trim, trim_spec, views_of};
use vstd::prelude::*;

verus! {

/// Whether `line` starts with the header name `Content-Length` and its
/// colon, compared ASCII case-insensitively.
pub open spec fn cl_prefix(line: Seq<char>) -> bool {
    line.len() >= 15 && (line[0] == 'c' || line[0] == 'C') && (line[1] == 'o' || line[1] == 'O')
        && (line[2] == 'n' || line[2] == 'N') && (line[3] == 't' || line[3] == 'T') && (line[4]
        == 'e' || line[4] == 'E') && (line[5] == 'n' || line[5] == 'N') && (line[6] == 't'
        || line[6] == 'T') && line[7] == '-' && (line[8] == 'l' || line[8] == 'L') && (line[9]
        == 'e' || line[9] == 'E') && (line[10] == 'n' || line[10] == 'N') && (line[11] == 'g'
        || line[11] == 'G') && (line[12] == 't' || line[12] == 'T') && (line[13] == 'h'
        || line[13] == 'H') && line[14] == ':'
}

/// The length a `Content-Length` line declares: the text between the colon
/// after the name and the next colon (or the line end), trimmed and read
/// as a non-negative integer; an unparsable value counts as zero.
pub open spec fn line_content_length(line: Seq<char>) -> int {
    let rest = line.skip(15);
    let vtxt = trim_spec(rest.take(first_at(rest, ':')));
    match parsed_usize(vtxt) {
        Some(v) => v,
        None => 0,
    }
}

/// The declared body length of a header block: the last `Content-Length`
/// line wins; with none at all the length is zero.
pub open spec fn content_length_spec(lines: Seq<Seq<char>>) -> int
    decreases lines.len(),
{
    if lines.len() == 0 {
        0
    } else if cl_prefix(lines.last()) {
        line_content_length(lines.last())
    } else {
        content_length_spec(lines.drop_last())
    }
}

/// Runtime test for [`cl_prefix`].
fn has_cl_prefix(s: &str) -> (b: bool)
    ensures
        b == cl_prefix(s@),
{
    let n = s.unicode_len();
    if n < 15 {
        return false;
    }
    let c0 = s.get_char(0);
    let c1 = s.get_char(1);
    let c2 = s.get_char(2);
    let c3 = s.get_char(3);
    let c4 = s.get_char(4);
    let c5 = s.get_char(5);
    let c6 = s.get_char(6);
    let c7 = s.get_char(7);
    let c8 = s.get_char(8);
    let c9 = s.get_char(9);
    let c10 = s.get_char(10);
    let c11 = s.get_char(11);
    let c12 = s.get_char(12);
    let c13 = s.get_char(13);
    let c14 = s.get_char(14);
    (c0 == 'c' || c0 == 'C') && (c1 == 'o' || c1 == 'O') && (c2 == 'n' || c2 == 'N') && (c3 == 't'
        || c3 == 'T') && (c4 == 'e' || c4 == 'E') && (c5 == 'n' || c5 == 'N') && (c6 == 't' || c6
        == 'T') && c7 == '-' && (c8 == 'l' || c8 == 'L') && (c9 == 'e' || c9 == 'E') && (c10 == 'n'
        || c10 == 'N') && (c11 == 'g' || c11 == 'G') && (c12 == 't' || c12 == 'T') && (c13 == 'h'
        || c13 == 'H') && c14 == ':'
}

/// Scans header lines for a `Content-Length` declaration, the name matched
/// ASCII case-insensitively; the last declaration wins, a missing or
/// unparsable value degrades to zero.
pub fn content_length_of(lines: &Vec<String>) -> (n: usize)
    ensures
        n == content_length_spec(views_of(lines@)),
{
    let ghost lv = views_of(lines@);
    let count = lines.len();
    let mut n: usize = 0;
    proof {
        assert(lv.take(0) =~= Seq::<Seq<char>>::empty());
    }
    let mut i: usize = 0;
    while i < count
        invariant
            0 <= i <= count,
            count == lines@.len(),
            lv == views_of(lines@),
            lv.len() == count,
            n == content_length_spec(lv.take(i as int)),
        decreases count - i,
    {
        let line = &lines[i];
        proof {
            assert(lv[i as int] == line@);
            assert(lv.take(i + 1).drop_last() =~= lv.take(i as int));
            assert(lv.take(i + 1).last() == lv[i as int]);
        }
        if has_cl_prefix(line.as_str()) {
            let s = line.as_str();
            let len = s.unicode_len();
            let rest = s.substring_char(15, len);
            proof {
                assert(rest@ =~= line@.skip(15));
                lemma_first_at(rest@, ':');
            }
            let colon = find_char(rest, ':');
            let vtxt = trim(rest.substring_char(0, colon));
            proof {
                assert(rest@.subrange(0, first_at(rest@, ':')) =~= rest@.take(
                    first_at(rest@, ':'),
                ));
            }
            n = match parse_usize(vtxt) {
                Some(v) => v,
                None => 0,
            };
        }
        i += 1;
    }
    proof {
        assert(lv.take(count as int) =~= lv);
    }
    n
}

} // verus!
