//! Rewrites a resource file's source path into a relative install path that
//! cannot climb out of, or collide with, the resources directory: each `..`
//! becomes the marker `_up_`, an absolute root becomes `_root_`, and `.` and
//! empty segments vanish.
use vstd::prelude::*;
use crate::text::{join, join_strings};

verus! {

/// The `/`-separated segments of `s`, empty ones included (one segment for
/// the empty string).
pub open spec fn split_slash(s: Seq<char>) -> Seq<Seq<char>>
    decreases s.len(),
{
    if s.len() == 0 {
        seq![Seq::empty()]
    } else {
        let prev = split_slash(s.drop_last());
        if s.last() == '/' {
            prev.push(Seq::empty())
        } else {
            prev.update(prev.len() - 1, prev.last().push(s.last()))
        }
    }
}

/// What one segment of a source path contributes to the install path.
pub open spec fn segment_relpath(seg: Seq<char>) -> Seq<Seq<char>> {
    if seg.len() == 0 || seg == seq!['.'] {
        Seq::empty()
    } else if seg == seq!['.', '.'] {
        seq!["_up_"@]
    } else {
        seq![seg]
    }
}

/// The install-path segments contributed by a list of source segments.
pub open spec fn segments_relpath(segs: Seq<Seq<char>>) -> Seq<Seq<char>>
    decreases segs.len(),
{
    if segs.len() == 0 {
        Seq::empty()
    } else {
        segments_relpath(segs.drop_last()) + segment_relpath(segs.last())
    }
}

/// The relative install path, as segments, of the resource at `path`.
pub open spec fn relpath_segments(path: Seq<char>) -> Seq<Seq<char>> {
    let root: Seq<Seq<char>> = if path.len() > 0 && path[0] == '/' {
        seq!["_root_"@]
    } else {
        Seq::empty()
    };
    root + segments_relpath(split_slash(path))
}

/// Whether the characters `path[start..end]` are exactly `.` or `..`;
/// returns (is `.`, is `..`).
fn dot_segment(path: &str, start: usize, end: usize) -> (r: (bool, bool))
    requires
        start <= end <= path@.len(),
    ensures
        r.0 == (path@.subrange(start as int, end as int) == seq!['.']),
        r.1 == (path@.subrange(start as int, end as int) == seq!['.', '.']),
{
    let seg = Ghost(path@.subrange(start as int, end as int));
    if end - start == 1 {
        let c = path.get_char(start);
        assert(c == '.' ==> seg@ =~= seq!['.']);
        assert(seg@ == seq!['.'] ==> c == '.') by {
            if seg@ == seq!['.'] {
                assert(seg@[0] == c);
            }
        }
        (c == '.', false)
    } else if end - start == 2 {
        let c0 = path.get_char(start);
        let c1 = path.get_char(start + 1);
        assert(c0 == '.' && c1 == '.' ==> seg@ =~= seq!['.', '.']);
        assert(seg@ == seq!['.', '.'] ==> c0 == '.' && c1 == '.') by {
            if seg@ == seq!['.', '.'] {
                assert(seg@[0] == c0);
                assert(seg@[1] == c1);
            }
        }
        (false, c0 == '.' && c1 == '.')
    } else {
        assert(seg@.len() != 1 && seg@.len() != 2);
        (false, false)
    }
}

/// Appends to `out` what the segment `path[start..end]` contributes.
fn push_segment(out: &mut Vec<String>, path: &str, start: usize, end: usize)
    requires
        start <= end <= path@.len(),
    ensures
        final(out).deep_view() == old(out).deep_view() + segment_relpath(
            path@.subrange(start as int, end as int),
        ),
{
    let ghost seg = path@.subrange(start as int, end as int);
    let (is_cur, is_up) = dot_segment(path, start, end);
    if start == end || is_cur {
        assert(out.deep_view() =~= out.deep_view() + segment_relpath(seg));
    } else if is_up {
        out.push(String::from_str("_up_"));
        assert(out.deep_view() =~= old(out).deep_view() + segment_relpath(seg));
    } else {
        out.push(String::from_str(path.substring_char(start, end)));
        assert(out.deep_view() =~= old(out).deep_view() + segment_relpath(seg));
    }
}

/// The relative install path, as segments, of the resource at `path`.
pub fn resource_relpath_segments(path: &str) -> (r: Vec<String>)
    ensures
        r.deep_view() == relpath_segments(path@),
{
    let n = path.unicode_len();
    let mut out: Vec<String> = Vec::new();
    if n > 0 && path.get_char(0) == '/' {
        out.push(String::from_str("_root_"));
    }
    let ghost root = out.deep_view();
    let ghost mut done: Seq<Seq<char>> = Seq::empty();
    let mut start: usize = 0;
    let mut i: usize = 0;
    proof {
        assert(path@.subrange(0, 0) =~= Seq::<char>::empty());
        assert(split_slash(path@.subrange(0, 0)) == done.push(path@.subrange(0, 0)));
    }
    while i < n
        invariant
            n == path@.len(),
            start <= i <= n,
            root == (if n > 0 && path@[0] == '/' { seq!["_root_"@] } else { Seq::<Seq<char>>::empty() }),
            split_slash(path@.subrange(0, i as int)) == done.push(path@.subrange(start as int, i as int)),
            out.deep_view() == root + segments_relpath(done),
        decreases n - i,
    {
        let c = path.get_char(i);
        let ghost pre = path@.subrange(0, i as int);
        let ghost next = path@.subrange(0, i + 1);
        assert(next.drop_last() =~= pre);
        assert(next.last() == c);
        if c == '/' {
            push_segment(&mut out, path, start, i);
            proof {
                let seg = path@.subrange(start as int, i as int);
                assert(done.push(seg).drop_last() =~= done);
                assert(segments_relpath(done.push(seg)) == segments_relpath(done) + segment_relpath(seg));
                assert(out.deep_view() =~= root + segments_relpath(done.push(seg)));
                done = done.push(seg);
                assert(path@.subrange(i + 1, i + 1) =~= Seq::<char>::empty());
            }
            start = i + 1;
        } else {
            proof {
                let seg = path@.subrange(start as int, i as int);
                assert(path@.subrange(start as int, i + 1) =~= seg.push(c));
                assert(split_slash(next) =~= done.push(path@.subrange(start as int, i + 1)));
            }
        }
        i = i + 1;
    }
    push_segment(&mut out, path, start, n);
    proof {
        let seg = path@.subrange(start as int, n as int);
        assert(path@.subrange(0, n as int) =~= path@);
        assert(done.push(seg).drop_last() =~= done);
        assert(out.deep_view() =~= root + segments_relpath(done.push(seg)));
    }
    out
}

/// Given a path (absolute or relative) to a resource file, returns the
/// relative path, `/`-separated, under which it is stored in the bundle's
/// resources directory.
pub fn resource_relpath(path: &str) -> (r: String)
    ensures
        r@ == join(relpath_segments(path@), "/"@),
{
    let segs = resource_relpath_segments(path);
    join_strings(&segs, "/")
}

} // verus!
