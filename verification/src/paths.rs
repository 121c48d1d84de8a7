//! The path model: project-relative paths and import specifiers are sequences
//! of characters; a path is split on `/` into segments, segments are walked to
//! resolve `.` and `..`, and the result is joined back with `/`.

use vstd::prelude::*;

verus! {

/// Splits a string on `/`, keeping empty pieces: the result always holds at
/// least one (possibly empty) segment.
pub open spec fn raw_split(s: Seq<char>) -> Seq<Seq<char>>
    decreases s.len(),
{
    if s.len() == 0 {
        seq![Seq::<char>::empty()]
    } else if s.last() == '/' {
        raw_split(s.drop_last()).push(Seq::<char>::empty())
    } else {
        let r = raw_split(s.drop_last());
        r.update(r.len() - 1, r.last().push(s.last()))
    }
}

/// Joins segments with `/` separators.
pub open spec fn join_path(segs: Seq<Seq<char>>) -> Seq<char>
    decreases segs.len(),
{
    if segs.len() == 0 {
        Seq::<char>::empty()
    } else if segs.len() == 1 {
        segs[0]
    } else {
        join_path(segs.drop_last()) + seq!['/'] + segs.last()
    }
}

/// Walks specifier segments over a directory: an empty or `.` segment is a
/// no-op, `..` removes the last retained segment, and any other segment is
/// appended.
pub open spec fn apply_segments(dir: Seq<Seq<char>>, segs: Seq<Seq<char>>) -> Seq<Seq<char>>
    decreases segs.len(),
{
    if segs.len() == 0 {
        dir
    } else {
        let s = segs.first();
        let stepped = if s.len() == 0 || (s.len() == 1 && s[0] == '.') {
            dir
        } else if s.len() == 2 && s[0] == '.' && s[1] == '.' {
            if dir.len() > 0 {
                dir.drop_last()
            } else {
                dir
            }
        } else {
            dir.push(s)
        };
        apply_segments(stepped, segs.drop_first())
    }
}

/// The directory that holds a file: its path with the final segment removed.
pub open spec fn parent_segments(path: Seq<char>) -> Seq<Seq<char>> {
    raw_split(path).drop_last()
}

/// A relative specifier walked from the importing file's directory, as one
/// joined path.
pub open spec fn walked_path(importer: Seq<char>, specifier: Seq<char>) -> Seq<char> {
    join_path(apply_segments(parent_segments(importer), raw_split(specifier)))
}

/// A normalized project-relative path: non-empty, forward-slash separated,
/// with no empty, `.` or `..` segments.
pub open spec fn normalized_path(s: Seq<char>) -> bool {
    forall|i: int|
        0 <= i < raw_split(s).len() ==> (#[trigger] raw_split(s)[i]).len() > 0 && raw_split(s)[i]
            != seq!['.'] && raw_split(s)[i] != seq!['.', '.']
}

/// Splits a string on `/`, keeping empty pieces.
pub fn split_slash(s: &str) -> (r: Vec<String>)
    ensures
        r.deep_view() == raw_split(s@),
        r@.len() >= 1,
{
    let len = s.unicode_len();
    let mut r: Vec<String> = Vec::new();
    let mut start: usize = 0;
    let mut i: usize = 0;
    proof {
        assert(s@.take(0) =~= Seq::<char>::empty());
        assert(raw_split(s@.take(0)) =~= r.deep_view().push(s@.subrange(0, 0)));
    }
    while i < len
        invariant
            start <= i <= len,
            len == s@.len(),
            raw_split(s@.take(i as int)) == r.deep_view().push(
                s@.subrange(start as int, i as int),
            ),
        decreases len - i,
    {
        let c = s.get_char(i);
        let ghost prev = r.deep_view();
        let ghost prev_seg = s@.subrange(start as int, i as int);
        if c == '/' {
            let seg = String::from_str(s.substring_char(start, i));
            r.push(seg);
            start = i + 1;
            proof {
                assert(r.deep_view() =~= prev.push(prev_seg));
            }
        }
        i = i + 1;
        proof {
            let t = s@.take(i as int);
            assert(t.len() > 0 && t.last() == c && t.drop_last() =~= s@.take(i - 1));
            if c == '/' {
                assert(raw_split(t) == raw_split(t.drop_last()).push(Seq::<char>::empty()));
                assert(s@.subrange(start as int, i as int) =~= Seq::<char>::empty());
                assert(raw_split(t) =~= r.deep_view().push(
                    s@.subrange(start as int, i as int),
                ));
            } else {
                let old_raw = prev.push(prev_seg);
                assert(raw_split(t) == old_raw.update(
                    old_raw.len() - 1,
                    old_raw.last().push(c),
                ));
                assert(prev_seg.push(c) =~= s@.subrange(start as int, i as int));
                assert(old_raw.update(old_raw.len() - 1, old_raw.last().push(c)) =~= r
                    .deep_view()
                    .push(s@.subrange(start as int, i as int)));
            }
        }
    }
    let seg = String::from_str(s.substring_char(start, len));
    let ghost prev = r.deep_view();
    r.push(seg);
    proof {
        assert(s@.take(len as int) =~= s@);
        assert(r.deep_view() =~= prev.push(s@.subrange(start as int, len as int)));
    }
    r
}

/// Joins segments with `/` separators.
pub fn join_segments(segs: &Vec<String>) -> (r: String)
    ensures
        r@ == join_path(segs.deep_view()),
{
    let mut r = String::new();
    let mut i: usize = 0;
    proof {
        assert(segs.deep_view().take(0) =~= Seq::<Seq<char>>::empty());
    }
    while i < segs.len()
        invariant
            i <= segs@.len(),
            r@ == join_path(segs.deep_view().take(i as int)),
        decreases segs@.len() - i,
    {
        let ghost dv = segs.deep_view();
        if i > 0 {
            r.append("/");
        }
        r.append(segs[i].as_str());
        i = i + 1;
        proof {
            reveal_strlit("/");
            assert("/"@ =~= seq!['/']);
            let t = dv.take(i as int);
            assert(t.last() == dv[i - 1]);
            if i == 1 {
                assert(join_path(t) == t[0]);
                assert(r@ =~= t[0]);
            } else {
                assert(t.drop_last() =~= dv.take(i - 1));
                assert(join_path(t) == join_path(dv.take(i - 1)) + seq!['/'] + dv[i - 1]);
            }
        }
    }
    proof {
        assert(segs.deep_view().take(segs@.len() as int) =~= segs.deep_view());
    }
    r
}

/// Whether `prefix` is a prefix of `s`, compared character by character.
pub fn str_starts_with(s: &str, prefix: &str) -> (r: bool)
    ensures
        r == prefix@.is_prefix_of(s@),
{
    let n = prefix.unicode_len();
    let m = s.unicode_len();
    if n > m {
        return false;
    }
    let mut i: usize = 0;
    while i < n
        invariant
            i <= n,
            n == prefix@.len(),
            m == s@.len(),
            n <= m,
            forall|j: int| 0 <= j < i ==> s@[j] == prefix@[j],
        decreases n - i,
    {
        if s.get_char(i) != prefix.get_char(i) {
            proof {
                assert(s@.subrange(0, n as int)[i as int] != prefix@[i as int]);
            }
            return false;
        }
        i = i + 1;
    }
    proof {
        assert(s@.subrange(0, n as int) =~= prefix@);
    }
    true
}

/// The concatenation of two strings.
pub fn appended(base: &str, suffix: &str) -> (r: String)
    ensures
        r@ == base@ + suffix@,
{
    let mut r = String::from_str(base);
    r.append(suffix);
    r
}

} // verus!
