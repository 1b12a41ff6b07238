//! Resolution of path globs against the module paths that are known.
//!
//! A glob is matched byte by byte. A `*` matches any run of bytes that holds
//! no path separator, so it stays within one segment of a path; every other
//! byte matches itself. Both `/` and `.` separate the segments of a path.

use crate::hir::{Path, PathGlob, Text};
use std::borrow::Cow;
use vstd::prelude::*;
use vstd::string::StringSliceAdditionalSpecFns;
use vstd::utf8::encode_utf8;

verus! {

/// Whether the byte separates two segments of a path.
pub open spec fn is_separator(b: u8) -> bool {
    b == '/' as u8 || b == '.' as u8
}

/// Whether the glob `pattern` matches the whole of `text`.
pub open spec fn glob_matches(pattern: Text, text: Text) -> bool
    decreases pattern.len() + text.len(),
{
    if pattern.len() == 0 {
        text.len() == 0
    } else if pattern[0] == '*' as u8 {
        glob_matches(pattern.drop_first(), text) || (text.len() > 0 && !is_separator(text[0])
            && glob_matches(pattern, text.drop_first()))
    } else {
        text.len() > 0 && text[0] == pattern[0] && glob_matches(
            pattern.drop_first(),
            text.drop_first(),
        )
    }
}

/// Whether the rest of `pattern` from `i` matches the rest of `text` from `j`.
pub open spec fn matches_from(pattern: Text, text: Text, i: int, j: int) -> bool {
    glob_matches(pattern.subrange(i, pattern.len() as int), text.subrange(j, text.len() as int))
}

/// How a match from `i` and `j` follows from the matches to their right.
proof fn lemma_matches_step(pattern: Text, text: Text, i: int, j: int)
    requires
        0 <= i <= pattern.len(),
        0 <= j <= text.len(),
    ensures
        i == pattern.len() ==> matches_from(pattern, text, i, j) == (j == text.len()),
        i < pattern.len() && pattern[i] == '*' as u8 ==> matches_from(pattern, text, i, j) == (
        matches_from(pattern, text, i + 1, j) || (j < text.len() && !is_separator(text[j])
            && matches_from(pattern, text, i, j + 1))),
        i < pattern.len() && pattern[i] != '*' as u8 ==> matches_from(pattern, text, i, j) == (j
            < text.len() && text[j] == pattern[i] && matches_from(pattern, text, i + 1, j + 1)),
{
    let p = pattern.subrange(i, pattern.len() as int);
    let t = text.subrange(j, text.len() as int);
    if i < pattern.len() {
        assert(p.drop_first() =~= pattern.subrange(i + 1, pattern.len() as int));
        assert(p[0] == pattern[i]);
    }
    if j < text.len() {
        assert(t.drop_first() =~= text.subrange(j + 1, text.len() as int));
        assert(t[0] == text[j]);
    }
}

/// Whether the glob `pattern` matches the whole of `text`.
pub fn glob_match(pattern: &[u8], text: &[u8]) -> (r: bool)
    ensures
        r == glob_matches(pattern@, text@),
{
    let m = pattern.len();
    let n = text.len();
    let mut row: Vec<bool> = Vec::new();
    let mut k: usize = 0;
    while k < n
        invariant
            k <= n,
            n == text@.len(),
            m == pattern@.len(),
            row@.len() == k,
            forall|j: int| 0 <= j < k ==> row@[j] == matches_from(pattern@, text@, m as int, j),
        decreases n - k,
    {
        proof {
            lemma_matches_step(pattern@, text@, m as int, k as int);
        }
        row.push(false);
        k += 1;
    }
    let mut tail = true;
    proof {
        lemma_matches_step(pattern@, text@, m as int, n as int);
    }
    let mut i = m;
    while i > 0
        invariant
            i <= m,
            n == text@.len(),
            m == pattern@.len(),
            row@.len() == n,
            forall|j: int| 0 <= j < n ==> row@[j] == matches_from(pattern@, text@, i as int, j),
            tail == matches_from(pattern@, text@, i as int, n as int),
        decreases i,
    {
        i -= 1;
        let star = pattern[i] == '*' as u8;
        let new_tail = star && tail;
        proof {
            lemma_matches_step(pattern@, text@, i as int, n as int);
        }
        let mut old_right = tail;
        let mut new_right = new_tail;
        let mut j = n;
        while j > 0
            invariant
                i < m,
                j <= n,
                n == text@.len(),
                m == pattern@.len(),
                row@.len() == n,
                star == (pattern@[i as int] == '*' as u8),
                forall|k: int| 0 <= k < j ==> row@[k] == matches_from(pattern@, text@, i + 1, k),
                forall|k: int| j <= k < n ==> row@[k] == matches_from(pattern@, text@, i as int, k),
                old_right == matches_from(pattern@, text@, i + 1, j as int),
                new_right == matches_from(pattern@, text@, i as int, j as int),
            decreases j,
        {
            j -= 1;
            let old_here = row[j];
            let b = text[j];
            let here = if star {
                old_here || (!(b == '/' as u8 || b == '.' as u8) && new_right)
            } else {
                b == pattern[i] && old_right
            };
            proof {
                lemma_matches_step(pattern@, text@, i as int, j as int);
            }
            row.set(j, here);
            old_right = old_here;
            new_right = here;
        }
        tail = new_tail;
    }
    assert(pattern@.subrange(0, m as int) =~= pattern@);
    assert(text@.subrange(0, n as int) =~= text@);
    if n == 0 {
        tail
    } else {
        row[0]
    }
}

/// Whether the glob holds no `*`, so that it can match nothing but itself.
pub open spec fn is_plain(pattern: Text) -> bool {
    forall|k: int| 0 <= k < pattern.len() ==> pattern[k] != '*' as u8
}

/// A glob without `*` matches itself and nothing else.
pub proof fn lemma_plain_matches_itself(pattern: Text, text: Text)
    requires
        is_plain(pattern),
    ensures
        glob_matches(pattern, text) == (text == pattern),
    decreases pattern.len(),
{
    if pattern.len() == 0 {
        assert(glob_matches(pattern, text) == (text =~= pattern));
    } else {
        assert(pattern[0] != '*' as u8);
        if text.len() > 0 {
            assert forall|k: int| 0 <= k < pattern.drop_first().len() implies pattern.drop_first()[k]
                != '*' as u8 by {
                assert(pattern.drop_first()[k] == pattern[k + 1]);
            }
            lemma_plain_matches_itself(pattern.drop_first(), text.drop_first());
            if text[0] == pattern[0] && text.drop_first() == pattern.drop_first() {
                assert(text =~= seq![text[0]] + text.drop_first());
                assert(pattern =~= seq![pattern[0]] + pattern.drop_first());
            }
        }
    }
}

/// Whether `text` lies within one segment of a path: it holds no separator.
pub open spec fn is_segment(text: Text) -> bool {
    forall|k: int| 0 <= k < text.len() ==> !is_separator(#[trigger] text[k])
}

/// A lone `*` matches the texts that lie within one segment, and no others.
pub proof fn law_star_matches_a_segment(text: Text)
    ensures
        glob_matches(seq!['*' as u8], text) == is_segment(text),
    decreases text.len(),
{
    let star = seq!['*' as u8];
    assert(star.drop_first() =~= Seq::<u8>::empty());
    assert(glob_matches(Seq::<u8>::empty(), text) == (text.len() == 0));
    assert(star[0] == '*' as u8);
    if text.len() > 0 {
        law_star_matches_a_segment(text.drop_first());
        let rest = text.drop_first();
        if is_segment(text) {
            assert forall|k: int| 0 <= k < rest.len() implies !is_separator(#[trigger] rest[k]) by {
                assert(rest[k] == text[k + 1]);
            }
        }
        if !is_separator(text[0]) && is_segment(rest) {
            assert forall|k: int| 0 <= k < text.len() implies !is_separator(#[trigger] text[k]) by {
                if k > 0 {
                    assert(text[k] == rest[k - 1]);
                }
            }
        }
    }
}

/// A glob of a plain prefix and a `*` matches the texts that begin with the
/// prefix and go on within one segment, and no others.
pub proof fn law_prefix_and_star(prefix: Text, text: Text)
    requires
        is_plain(prefix),
    ensures
        glob_matches(prefix + seq!['*' as u8], text) == (prefix.len() <= text.len()
            && text.subrange(0, prefix.len() as int) == prefix && is_segment(
            text.subrange(prefix.len() as int, text.len() as int),
        )),
    decreases prefix.len(),
{
    let glob = prefix + seq!['*' as u8];
    if prefix.len() == 0 {
        assert(glob =~= seq!['*' as u8]);
        assert(text.subrange(0, 0) =~= prefix);
        assert(text.subrange(0, text.len() as int) =~= text);
        law_star_matches_a_segment(text);
    } else {
        assert(glob[0] == prefix[0]);
        assert(prefix[0] != '*' as u8);
        assert(glob.drop_first() =~= prefix.drop_first() + seq!['*' as u8]);
        if text.len() > 0 {
            let short = prefix.drop_first();
            let rest = text.drop_first();
            assert forall|k: int| 0 <= k < short.len() implies short[k] != '*' as u8 by {
                assert(short[k] == prefix[k + 1]);
            }
            law_prefix_and_star(short, rest);
            if prefix.len() <= text.len() {
                assert(rest.subrange(short.len() as int, rest.len() as int) =~= text.subrange(
                    prefix.len() as int,
                    text.len() as int,
                ));
                if text[0] == prefix[0] && rest.subrange(0, short.len() as int) == short {
                    assert(text.subrange(0, prefix.len() as int) =~= prefix) by {
                        assert forall|k: int| 0 <= k < prefix.len() implies text[k] == prefix[k] by {
                            if k > 0 {
                                assert(rest.subrange(0, short.len() as int)[k - 1] == short[k - 1]);
                            }
                        }
                    }
                }
                if text.subrange(0, prefix.len() as int) == prefix {
                    assert(text[0] == text.subrange(0, prefix.len() as int)[0]);
                    assert(rest.subrange(0, short.len() as int) =~= short) by {
                        assert forall|k: int| 0 <= k < short.len() implies rest[k] == short[k] by {
                            assert(text.subrange(0, prefix.len() as int)[k + 1] == prefix[k + 1]);
                        }
                    }
                }
            }
        }
    }
}

/// Whether the glob holds no `*`.
pub fn plain(pattern: &[u8]) -> (r: bool)
    ensures
        r == is_plain(pattern@),
{
    let mut k: usize = 0;
    while k < pattern.len()
        invariant
            k <= pattern@.len(),
            forall|j: int| 0 <= j < k ==> pattern@[j] != '*' as u8,
        decreases pattern@.len() - k,
    {
        if pattern[k] == '*' as u8 {
            return false;
        }
        k += 1;
    }
    true
}

/// The paths of `universe` that `pattern` matches, in the order of the
/// universe.
pub open spec fn resolved(pattern: Text, universe: Seq<Text>) -> Seq<Text>
    decreases universe.len(),
{
    if universe.len() == 0 {
        Seq::empty()
    } else if glob_matches(pattern, universe.last()) {
        resolved(pattern, universe.drop_last()).push(universe.last())
    } else {
        resolved(pattern, universe.drop_last())
    }
}

/// The bytes of each path of a universe.
pub open spec fn universe_view(universe: Seq<String>) -> Seq<Text> {
    Seq::new(universe.len(), |k: int| encode_utf8(universe[k]@))
}

/// The bytes of each of the paths.
pub open spec fn paths_view(paths: Seq<Path>) -> Seq<Text> {
    Seq::new(paths.len(), |k: int| paths[k]@)
}

/// Whether a path borrows its text.
pub open spec fn is_borrowed(path: Path) -> bool {
    path.0 is Borrowed
}

impl<'prgrm> PathGlob<'prgrm> {
    /// Resolve any globs in the `PathGlob` to a vector of fully-realized
    /// paths: those of `universe` that the glob matches, in the order of
    /// the universe. A glob without `*` resolves to paths that borrow its
    /// own text, and nothing is copied.
    pub fn resolve(&self, universe: &[String]) -> (r: Vec<Path<'prgrm>>)
        ensures
            paths_view(r@) == resolved(self@, universe_view(universe@)),
            is_plain(self@) ==> forall|k: int| 0 <= k < r@.len() ==> is_borrowed(#[trigger] r@[k]),
    {
        let pattern = self.0.as_bytes();
        let literal = plain(pattern);
        let ghost all = universe_view(universe@);
        let mut found: Vec<Path<'prgrm>> = Vec::new();
        let mut k: usize = 0;
        assert(all.subrange(0, 0) =~= Seq::empty());
        assert(paths_view(found@) =~= Seq::empty());
        while k < universe.len()
            invariant
                k <= universe@.len(),
                all == universe_view(universe@),
                pattern@ == self@,
                literal == is_plain(self@),
                paths_view(found@) == resolved(self@, all.subrange(0, k as int)),
                literal ==> forall|j: int| 0 <= j < found@.len() ==> is_borrowed(#[trigger] found@[j]),
            decreases universe@.len() - k,
        {
            let candidate = universe[k].as_str();
            proof {
                assert(all.subrange(0, k + 1).drop_last() =~= all.subrange(0, k as int));
                assert(all.subrange(0, k + 1).last() == candidate.spec_bytes());
            }
            if glob_match(pattern, candidate.as_bytes()) {
                let ghost before = paths_view(found@);
                let path = if literal {
                    proof {
                        lemma_plain_matches_itself(self@, candidate.spec_bytes());
                    }
                    Path(Cow::Borrowed(self.0))
                } else {
                    Path(Cow::Owned(universe[k].clone()))
                };
                found.push(path);
                assert(paths_view(found@) =~= before.push(candidate.spec_bytes()));
            }
            k += 1;
        }
        assert(all.subrange(0, k as int) =~= all);
        found
    }
}

} // verus!
