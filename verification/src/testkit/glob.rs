//! Globs with `*` alone, which stands for any run of characters.
use vstd::prelude::*;

use crate::text::chars_of;

verus! {

/// A glob matches a text: `*` stands for any run of characters, the empty one
/// too, and every other character for itself.
pub open spec fn globs(glob: Seq<char>, text: Seq<char>) -> bool
    decreases glob.len() + text.len(),
{
    if glob.len() == 0 {
        text.len() == 0
    } else if glob[0] == '*' {
        globs(glob.drop_first(), text) || (text.len() > 0 && globs(glob, text.drop_first()))
    } else {
        text.len() > 0 && text[0] == glob[0] && globs(glob.drop_first(), text.drop_first())
    }
}

/// Row `i` of the table: which ends of the text the rest of the glob matches.
spec fn is_row(glob: Seq<char>, text: Seq<char>, i: int, row: Seq<bool>) -> bool {
    &&& row.len() == text.len() + 1
    &&& forall|j: int|
        0 <= j <= text.len() ==> (#[trigger] row[j]) == globs(glob.skip(i), text.skip(j))
}

/// Whether a glob matches a text.
pub fn glob_matches(glob: &str, value: &str) -> (r: bool)
    ensures
        r == globs(glob@, value@),
{
    let pattern = chars_of(glob);
    let text = chars_of(value);
    let n: usize = text.len();
    let mut row: Vec<bool> = Vec::new();
    let mut j: usize = 0;
    while j < n
        invariant
            j <= n,
            n == text@.len(),
            row@.len() == j,
            forall|k: int| 0 <= k < j ==> !(#[trigger] row@[k]),
        decreases n - j,
    {
        row.push(false);
        j = j + 1;
    }
    row.push(true);
    let mut i: usize = pattern.len();
    proof {
        assert(pattern@.skip(i as int) =~= Seq::empty());
        assert forall|k: int| 0 <= k <= text@.len() implies (#[trigger] row@[k]) == globs(
            pattern@.skip(i as int),
            text@.skip(k),
        ) by {}
    }
    while i > 0
        invariant
            i <= pattern@.len(),
            n == text@.len(),
            is_row(pattern@, text@, i as int, row@),
        decreases i,
    {
        let c = pattern[i - 1];
        let ghost rest = pattern@.skip(i - 1);
        let ghost below = row@;
        assert(rest[0] == c);
        assert(rest.drop_first() =~= pattern@.skip(i as int));
        let mut next: Vec<bool> = row.clone();
        assert(next@ =~= row@);
        let mut k: usize = n + 1;
        while k > 0
            invariant
                k <= n + 1,
                n == text@.len(),
                1 <= i <= pattern@.len(),
                rest == pattern@.skip(i - 1),
                rest.len() > 0,
                rest[0] == c,
                rest.drop_first() == pattern@.skip(i as int),
                row@ == below,
                is_row(pattern@, text@, i as int, below),
                next@.len() == n + 1,
                forall|m: int| k <= m <= n ==> (#[trigger] next@[m]) == globs(rest, text@.skip(m)),
            decreases k,
        {
            let at: usize = k - 1;
            let ghost tail = text@.skip(at as int);
            assert(below[at as int] == globs(pattern@.skip(i as int), tail));
            if at < n {
                assert(tail[0] == text@[at as int]);
                assert(tail.drop_first() =~= text@.skip(at + 1));
                assert(below[at + 1] == globs(pattern@.skip(i as int), text@.skip(at + 1)));
                assert(next@[at + 1] == globs(rest, text@.skip(at + 1)));
            }
            let hit: bool = if c == '*' {
                row[at] || (at < n && next[at + 1])
            } else {
                at < n && text[at] == c && row[at + 1]
            };
            assert(hit == globs(rest, tail));
            next.set(at, hit);
            k = k - 1;
        }
        row = next;
        i = i - 1;
    }
    assert(pattern@.skip(0) =~= glob@);
    assert(text@.skip(0) =~= value@);
    row[0]
}

/// A `*` stands for some run of characters: what follows it matches some end
/// of the text.
pub proof fn a_star_stands_for_any_run(rest: Seq<char>, text: Seq<char>)
    ensures
        globs(seq!['*'] + rest, text) <==> exists|k: int|
            0 <= k <= text.len() && #[trigger] globs(rest, text.skip(k)),
    decreases text.len(),
{
    let glob = seq!['*'] + rest;
    assert(glob[0] == '*');
    assert(glob.drop_first() =~= rest);
    assert(text.skip(0) =~= text);
    let some = exists|k: int| 0 <= k <= text.len() && #[trigger] globs(rest, text.skip(k));
    if text.len() > 0 {
        let tail = text.drop_first();
        a_star_stands_for_any_run(rest, tail);
        assert(globs(glob, text) == (globs(rest, text) || globs(glob, tail)));
        if globs(rest, text) {
            assert(globs(rest, text.skip(0)));
        }
        if globs(glob, tail) {
            let k = choose|k: int| 0 <= k <= tail.len() && #[trigger] globs(rest, tail.skip(k));
            assert(tail.skip(k) =~= text.skip(k + 1));
            assert(globs(rest, text.skip(k + 1)));
        }
        if some {
            let k = choose|k: int| 0 <= k <= text.len() && #[trigger] globs(rest, text.skip(k));
            if k > 0 {
                assert(tail.skip(k - 1) =~= text.skip(k));
                assert(globs(rest, tail.skip(k - 1)));
            }
        }
    } else {
        assert(globs(glob, text) == globs(rest, text));
        if globs(rest, text) {
            assert(globs(rest, text.skip(0)));
        }
    }
}

/// A glob without a `*` matches its own text and no other.
pub proof fn a_plain_glob_matches_itself(glob: Seq<char>, text: Seq<char>)
    requires
        !glob.contains('*'),
    ensures
        globs(glob, text) <==> glob == text,
    decreases glob.len(),
{
    if glob.len() > 0 {
        assert(glob[0] != '*');
        assert forall|k: int| 0 <= k < glob.drop_first().len() implies glob.drop_first()[k]
            != '*' by {
            assert(glob.drop_first()[k] == glob[k + 1]);
        }
        if text.len() > 0 {
            a_plain_glob_matches_itself(glob.drop_first(), text.drop_first());
            if glob[0] == text[0] && glob.drop_first() == text.drop_first() {
                assert(seq![glob[0]] + glob.drop_first() =~= glob);
                assert(seq![text[0]] + text.drop_first() =~= text);
            }
            if glob == text {
                assert(glob.drop_first() =~= text.drop_first());
            }
        }
    } else {
        assert(text.len() == 0 ==> glob =~= text);
    }
}

} // verus!
