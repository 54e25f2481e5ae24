//! Path-segment handling: splitting a path string into `/`-separated
//! segments and extracting its last *normal* component.
//!
//! A segment is *normal* when it is neither empty (which arises from the
//! root, from doubled separators or from a trailing separator) nor the
//! current-directory segment `.` nor the parent-directory segment `..`.
//! The last normal component of a path is the name under which the path's
//! item is mirrored inside a profile's repository subdirectory.

use vstd::prelude::*;

verus! {

/// A separator between path segments.
pub open spec fn is_sep(c: char) -> bool {
    c == '/'
}

/// The segments of a path string, split at every separator.
/// Splitting keeps empty segments: `"a//b"` has segments `["a", "", "b"]`,
/// `"/"` has segments `["", ""]`, and the empty string has segments `[""]`.
pub open spec fn segments(s: Seq<char>) -> Seq<Seq<char>>
    decreases s.len(),
{
    if s.len() == 0 {
        seq![Seq::<char>::empty()]
    } else {
        let init = segments(s.drop_last());
        if is_sep(s.last()) {
            init + seq![Seq::<char>::empty()]
        } else {
            init.update(init.len() - 1, init.last().push(s.last()))
        }
    }
}

/// A normal segment: non-empty, not `.`, not `..`.
pub open spec fn is_normal_segment(seg: Seq<char>) -> bool {
    seg.len() > 0 && seg != seq!['.'] && seq!['.', '.'] != seg
}

/// The last normal segment of a segment list, or the empty sequence when
/// none is normal.
pub open spec fn last_normal_in(segs: Seq<Seq<char>>) -> Seq<char>
    decreases segs.len(),
{
    if segs.len() == 0 {
        Seq::<char>::empty()
    } else if is_normal_segment(segs.last()) {
        segs.last()
    } else {
        last_normal_in(segs.drop_last())
    }
}

/// The last normal component of a path string: the last segment that is
/// neither empty nor `.` nor `..`, or the empty sequence when the path has
/// no such segment (as for `"/"`, `""` or `".."`).
pub open spec fn last_normal_component(s: Seq<char>) -> Seq<char> {
    last_normal_in(segments(s))
}

/// Splitting always yields at least one segment.
proof fn lemma_segments_nonempty(s: Seq<char>)
    ensures
        segments(s).len() > 0,
    decreases s.len(),
{
    if s.len() > 0 {
        lemma_segments_nonempty(s.drop_last());
    }
}

/// No segment produced by splitting contains a separator.
proof fn lemma_segments_sep_free(s: Seq<char>)
    ensures
        forall|i: int, j: int|
            0 <= i < segments(s).len() && 0 <= j < segments(s)[i].len()
                ==> !is_sep(#[trigger] segments(s)[i][j]),
    decreases s.len(),
{
    if s.len() > 0 {
        lemma_segments_sep_free(s.drop_last());
        lemma_segments_nonempty(s.drop_last());
    }
}

/// A string without separators is its own single segment.
proof fn lemma_segments_of_sep_free(s: Seq<char>)
    requires
        forall|j: int| 0 <= j < s.len() ==> !is_sep(#[trigger] s[j]),
    ensures
        segments(s) =~~= seq![s],
    decreases s.len(),
{
    if s.len() > 0 {
        assert(!is_sep(s.last()));
        lemma_segments_of_sep_free(s.drop_last());
        assert(segments(s.drop_last()).last().push(s.last()) =~= s);
    }
}

/// The last normal segment is either empty or one of the segments, and in
/// the latter case it is normal.
proof fn lemma_last_normal_in_cases(segs: Seq<Seq<char>>)
    ensures
        last_normal_in(segs) =~= Seq::<char>::empty() || (is_normal_segment(last_normal_in(segs))
            && exists|i: int| 0 <= i < segs.len() && segs[i] == last_normal_in(segs)),
    decreases segs.len(),
{
    if segs.len() > 0 && !is_normal_segment(segs.last()) {
        lemma_last_normal_in_cases(segs.drop_last());
    }
}

/// Whether a segment (holding no separator) is normal.
fn is_normal_segment_exec(seg: &String) -> (r: bool)
    ensures
        r == is_normal_segment(seg@),
{
    let n = seg.as_str().unicode_len();
    if n == 0 {
        assert(!is_normal_segment(seg@));
        false
    } else if n == 1 && seg.as_str().get_char(0) == '.' {
        assert(seg@ =~= seq!['.']);
        false
    } else if n == 2 && seg.as_str().get_char(0) == '.' && seg.as_str().get_char(1) == '.' {
        assert(seg@ =~= seq!['.', '.']);
        false
    } else {
        proof {
            if seg@ == seq!['.'] {
                assert(seg@.len() == 1 && seg@[0] == '.');
            }
            if seg@ == seq!['.', '.'] {
                assert(seg@.len() == 2 && seg@[0] == '.' && seg@[1] == '.');
            }
        }
        true
    }
}

/// Splits a path string into its segments.
fn split_segments(s: &str) -> (r: Vec<String>)
    ensures
        r.deep_view() == segments(s@),
{
    let n = s.unicode_len();
    let mut done: Vec<String> = Vec::new();
    let mut seg_start: usize = 0;
    let mut i: usize = 0;
    while i < n
        invariant
            0 <= seg_start <= i <= n,
            n == s@.len(),
            done.deep_view().push(s@.subrange(seg_start as int, i as int)) =~~= segments(
                s@.take(i as int),
            ),
        decreases n - i,
    {
        let c = s.get_char(i);
        proof {
            assert(s@.take(i + 1).drop_last() =~= s@.take(i as int));
            assert(s@.take(i + 1).last() == s@[i as int]);
            lemma_segments_nonempty(s@.take(i as int));
        }
        if c == '/' {
            let seg = s.substring_char(seg_start, i).to_owned();
            done.push(seg);
            seg_start = i + 1;
            proof {
                assert(done.deep_view().push(s@.subrange(seg_start as int, i + 1)) =~~= segments(
                    s@.take(i + 1),
                ));
            }
        } else {
            proof {
                assert(segments(s@.take(i as int)).last() == s@.subrange(
                    seg_start as int,
                    i as int,
                ));
                assert(s@.subrange(seg_start as int, i as int).push(s@[i as int]) =~= s@.subrange(
                    seg_start as int,
                    i + 1,
                ));
                assert(done.deep_view().push(s@.subrange(seg_start as int, i + 1)) =~~= segments(
                    s@.take(i + 1),
                ));
            }
        }
        i = i + 1;
    }
    let last = s.substring_char(seg_start, n).to_owned();
    done.push(last);
    proof {
        assert(s@.take(n as int) =~= s@);
    }
    done
}

/// Extracts the last normal component of a path string: the last segment
/// that is neither empty nor `.` nor `..`, or the empty string when the
/// path has no such segment.
pub fn extract_last_normal_component(path: &str) -> (r: String)
    ensures
        r@ == last_normal_component(path@),
{
    let segs = split_segments(path);
    let ghost all = segs.deep_view();
    let mut j: usize = segs.len();
    proof {
        assert(all == segments(path@));
        assert(all.take(j as int) =~~= all);
    }
    while j > 0
        invariant
            0 <= j <= segs.len(),
            all == segs.deep_view(),
            all == segments(path@),
            last_normal_in(all.take(j as int)) == last_normal_in(all),
        decreases j,
    {
        proof {
            assert(all.take(j as int).last() == all[j - 1]);
            assert(all.take(j as int).drop_last() =~~= all.take(j - 1));
        }
        if is_normal_segment_exec(&segs[j - 1]) {
            let found = segs[j - 1].clone();
            proof {
                assert(last_normal_in(all.take(j as int)) == all[j - 1]);
                assert(found@ == segs[j - 1]@);
                assert(all[j - 1] == segs[j - 1]@);
                assert(found@ == last_normal_in(all));
                assert(all == segments(path@));
                assert(found@ == last_normal_component(path@));
            }
            return found;
        }
        j = j - 1;
    }
    proof {
        assert(all.take(0) =~~= Seq::<Seq<char>>::empty());
    }
    String::new()
}

/// Extracting the last normal component is idempotent: re-applying the
/// extraction to its own output returns the same value.
pub proof fn lemma_last_normal_component_idempotent(s: Seq<char>)
    ensures
        last_normal_component(last_normal_component(s)) == last_normal_component(s),
{
    let r = last_normal_component(s);
    lemma_last_normal_in_cases(segments(s));
    if r =~= Seq::<char>::empty() {
        assert(segments(r) =~~= seq![r]) by {
            lemma_segments_of_sep_free(r);
        }
        assert(!is_normal_segment(r));
        assert(seq![r].drop_last() =~= Seq::<Seq<char>>::empty());
        assert(last_normal_in(seq![r]) == last_normal_in(Seq::<Seq<char>>::empty()));
        assert(last_normal_component(r) =~= Seq::<char>::empty());
    } else {
        lemma_segments_sep_free(s);
        assert(forall|j: int| 0 <= j < r.len() ==> !is_sep(#[trigger] r[j]));
        lemma_segments_of_sep_free(r);
        assert(segments(r) =~~= seq![r]);
        assert(last_normal_in(seq![r]) == r);
    }
}

} // verus!
