//! Naming of newly added games: whitespace trimming and the file
//! stem of an executable path.
//!
//! A new game takes the name the user entered, trimmed; when that is
//! empty, the trimmed stem of the chosen file (the file name after
//! the last path separator, trailing separators dropped, cut at the
//! last dot when one follows a leading character) serves instead.
//! Whitespace means the Unicode white-space characters throughout.

use vstd::prelude::*;
use vstd::string::StrSliceExecFns;
use crate::duration::{is_space, is_space_char};

verus! {

/// The string with its leading whitespace removed.
pub open spec fn trim_front(s: Seq<char>) -> Seq<char>
    decreases s.len(),
{
    if s.len() == 0 {
        s
    } else if is_space(s[0]) {
        trim_front(s.drop_first())
    } else {
        s
    }
}

/// The string with its trailing whitespace removed.
pub open spec fn trim_back(s: Seq<char>) -> Seq<char>
    decreases s.len(),
{
    if s.len() == 0 {
        s
    } else if is_space(s.last()) {
        trim_back(s.drop_last())
    } else {
        s
    }
}

/// The string with leading and trailing whitespace removed.
pub open spec fn trim_spec(s: Seq<char>) -> Seq<char> {
    trim_back(trim_front(s))
}

/// A path separator character.
pub open spec fn is_sep(c: char) -> bool {
    c == '/' || c == '\\'
}

/// The path with its trailing separators removed.
pub open spec fn drop_trailing_seps(p: Seq<char>) -> Seq<char>
    decreases p.len(),
{
    if p.len() > 0 && is_sep(p.last()) {
        drop_trailing_seps(p.drop_last())
    } else {
        p
    }
}

/// What follows the last separator of the path.
pub open spec fn after_last_sep(p: Seq<char>) -> Seq<char>
    decreases p.len(),
{
    if p.len() == 0 {
        Seq::empty()
    } else if is_sep(p.last()) {
        Seq::empty()
    } else {
        after_last_sep(p.drop_last()).push(p.last())
    }
}

/// The path's file name: what follows the last separator once the
/// trailing separators are dropped, as the standard path reading
/// does for a path such as `"/games/foo/"`.
pub open spec fn base_name(p: Seq<char>) -> Seq<char> {
    after_last_sep(drop_trailing_seps(p))
}

/// A dot occurs at an index past the first character.
pub open spec fn dotted(b: Seq<char>) -> bool
    decreases b.len(),
{
    if b.len() <= 1 {
        false
    } else {
        b.last() == '.' || dotted(b.drop_last())
    }
}

/// The file name cut at its last dot, when a dot follows a leading
/// character; otherwise unchanged, so a leading dot alone never
/// counts as an extension marker.
pub open spec fn strip_ext(b: Seq<char>) -> Seq<char>
    decreases b.len(),
{
    if b.len() <= 1 {
        b
    } else if b.last() == '.' {
        b.drop_last()
    } else if dotted(b.drop_last()) {
        strip_ext(b.drop_last())
    } else {
        b
    }
}

/// The name a newly added game receives: the entered name trimmed,
/// or, when that is empty, the trimmed file stem of the chosen path,
/// or the empty name when both are empty.
pub open spec fn default_game_name(entered: Seq<char>, path: Seq<char>) -> Seq<char> {
    let en = trim_spec(entered);
    if en.len() > 0 {
        en
    } else {
        let st = trim_spec(strip_ext(base_name(path)));
        if st.len() > 0 {
            st
        } else {
            en
        }
    }
}

/// A dot at an index past the first character makes `dotted` true.
proof fn lemma_dotted_witness(b: Seq<char>, d: int)
    requires
        1 <= d < b.len(),
        b[d] == '.',
    ensures
        dotted(b),
    decreases b.len(),
{
    if d == b.len() - 1 {
        assert(b.last() == '.');
    } else {
        lemma_dotted_witness(b.drop_last(), d);
    }
}

/// A file name without a dot past its first character is not dotted.
proof fn lemma_not_dotted(b: Seq<char>)
    requires
        forall|k: int| 1 <= k < b.len() ==> b[k] != '.',
    ensures
        !dotted(b),
    decreases b.len(),
{
    if b.len() <= 1 {
    } else {
        assert(b.last() == b[b.len() - 1]);
        assert(forall|k: int| 1 <= k < b.drop_last().len() ==> b.drop_last()[k] == b[k]);
        lemma_not_dotted(b.drop_last());
    }
}

/// Cutting at the last dot: when the dot at `d` follows a leading
/// character and no dot follows it, the stem is everything before it.
proof fn lemma_strip_ext_at(b: Seq<char>, d: int)
    requires
        1 <= d < b.len(),
        b[d] == '.',
        forall|k: int| d < k < b.len() ==> b[k] != '.',
    ensures
        strip_ext(b) == b.take(d),
    decreases b.len(),
{
    if d == b.len() - 1 {
        assert(b.last() == '.');
        assert(b.drop_last() =~= b.take(d));
    } else {
        assert(b.last() == b[b.len() - 1]);
        assert(b.last() != '.');
        let p = b.drop_last();
        assert(forall|k: int| 0 <= k < p.len() ==> p[k] == b[k]);
        lemma_dotted_witness(p, d);
        lemma_strip_ext_at(p, d);
        assert(p.take(d) =~= b.take(d));
    }
}

/// Without a dot past its first character the stem is the whole file
/// name.
proof fn lemma_strip_ext_none(b: Seq<char>)
    requires
        forall|k: int| 1 <= k < b.len() ==> b[k] != '.',
    ensures
        strip_ext(b) == b,
    decreases b.len(),
{
    if b.len() <= 1 {
    } else {
        assert(b.last() == b[b.len() - 1]);
        assert(forall|k: int| 1 <= k < b.drop_last().len() ==> b.drop_last()[k] == b[k]);
        lemma_not_dotted(b.drop_last());
    }
}

/// Index of the first non-whitespace character, or the length.
fn first_non_space(s: &str) -> (a: usize)
    ensures
        a <= s@.len(),
        trim_front(s@) == s@.skip(a as int),
{
    let n = s.unicode_len();
    let mut a: usize = 0;
    proof {
        assert(s@.skip(0) =~= s@);
    }
    while a < n
        invariant
            n == s@.len(),
            a <= n,
            trim_front(s@) == trim_front(s@.skip(a as int)),
        decreases n - a,
    {
        let c = s.get_char(a);
        proof {
            assert(s@.skip(a as int)[0] == s@[a as int]);
        }
        if is_space_char(c) {
            proof {
                assert(s@.skip(a as int).drop_first() =~= s@.skip(a + 1));
            }
            a += 1;
        } else {
            proof {
                assert(trim_front(s@.skip(a as int)) == s@.skip(a as int));
            }
            return a;
        }
    }
    proof {
        assert(s@.skip(n as int) =~= Seq::<char>::empty());
        assert(trim_front(Seq::<char>::empty()) == Seq::<char>::empty());
    }
    n
}

/// Removes leading and trailing whitespace.
pub fn trim_str(s: &str) -> (r: String)
    ensures
        r@ == trim_spec(s@),
{
    let n = s.unicode_len();
    let a = first_non_space(s);
    let mut e: usize = n;
    proof {
        assert(s@.skip(a as int) =~= s@.subrange(a as int, n as int));
    }
    while e > a
        invariant
            n == s@.len(),
            a <= e <= n,
            trim_front(s@) == s@.skip(a as int),
            trim_back(s@.skip(a as int)) == trim_back(s@.subrange(a as int, e as int)),
        decreases e,
    {
        let c = s.get_char(e - 1);
        proof {
            assert(s@.subrange(a as int, e as int).last() == s@[e - 1]);
        }
        if is_space_char(c) {
            proof {
                assert(s@.subrange(a as int, e as int).drop_last() =~= s@.subrange(
                    a as int,
                    e - 1,
                ));
            }
            e -= 1;
        } else {
            let r = s.substring_char(a, e).to_owned();
            proof {
                assert(trim_back(s@.subrange(a as int, e as int)) == s@.subrange(
                    a as int,
                    e as int,
                ));
            }
            return r;
        }
    }
    proof {
        assert(s@.subrange(a as int, a as int) =~= Seq::<char>::empty());
        assert(trim_back(Seq::<char>::empty()) == Seq::<char>::empty());
    }
    String::new()
}

/// The file stem once the base name is known to be `path[j..m]`.
fn stem_from(path: &str, j: usize, m: usize) -> (r: String)
    requires
        j <= m,
        m <= path@.len(),
        base_name(path@) == path@.subrange(j as int, m as int),
    ensures
        r@ == strip_ext(base_name(path@)),
{
    let ghost b = path@.subrange(j as int, m as int);
    let mut e: usize = m;
    while e > j && e - 1 > j
        invariant
            j <= m,
            m <= path@.len(),
            j <= e <= m,
            b == path@.subrange(j as int, m as int),
            base_name(path@) == b,
            forall|k: int| e <= k < m ==> #[trigger] path@[k] != '.',
        decreases e,
    {
        let c = path.get_char(e - 1);
        if c == '.' {
            proof {
                let d = e - 1 - j;
                assert(b[d] == path@[e - 1]);
                assert forall|k: int| d < k < b.len() implies b[k] != '.' by {
                    assert(b[k] == path@[k + j]);
                }
                lemma_strip_ext_at(b, d);
                assert(b.take(d) =~= path@.subrange(j as int, e - 1));
            }
            return path.substring_char(j, e - 1).to_owned();
        }
        e -= 1;
    }
    proof {
        assert forall|k: int| 1 <= k < b.len() implies b[k] != '.' by {
            assert(b[k] == path@[k + j]);
        }
        lemma_strip_ext_none(b);
    }
    path.substring_char(j, m).to_owned()
}

/// Index just past the last character of the path once trailing
/// separators are dropped.
fn end_without_trailing_seps(path: &str, n: usize) -> (m: usize)
    requires
        n == path@.len(),
    ensures
        m <= n,
        drop_trailing_seps(path@) == path@.take(m as int),
{
    let mut m: usize = n;
    proof {
        assert(path@.take(n as int) =~= path@);
    }
    while m > 0
        invariant
            n == path@.len(),
            m <= n,
            drop_trailing_seps(path@) == drop_trailing_seps(path@.take(m as int)),
        decreases m,
    {
        let c = path.get_char(m - 1);
        proof {
            assert(path@.take(m as int).last() == path@[m - 1]);
        }
        if c == '/' || c == '\\' {
            proof {
                assert(path@.take(m as int).drop_last() =~= path@.take(m - 1));
            }
            m -= 1;
        } else {
            proof {
                assert(drop_trailing_seps(path@.take(m as int)) == path@.take(m as int));
            }
            return m;
        }
    }
    proof {
        assert(path@.take(0) =~= Seq::<char>::empty());
        assert(drop_trailing_seps(Seq::<char>::empty()) == Seq::<char>::empty());
    }
    0
}

/// The file stem of a path: the file name (what follows the last
/// separator, trailing separators dropped), cut at the last dot when
/// one follows a leading character.
pub fn file_stem_of(path: &str) -> (r: String)
    ensures
        r@ == strip_ext(base_name(path@)),
{
    let n = path.unicode_len();
    let m = end_without_trailing_seps(path, n);
    let mut j: usize = m;
    proof {
        assert(path@.subrange(m as int, m as int) =~= Seq::<char>::empty());
        assert(after_last_sep(path@.take(m as int)) + path@.subrange(m as int, m as int)
            =~= after_last_sep(path@.take(m as int)));
    }
    while j > 0
        invariant
            n == path@.len(),
            j <= m <= n,
            drop_trailing_seps(path@) == path@.take(m as int),
            base_name(path@) == after_last_sep(path@.take(j as int)) + path@.subrange(
                j as int,
                m as int,
            ),
        decreases j,
    {
        let c = path.get_char(j - 1);
        proof {
            assert(path@.take(j as int).last() == path@[j - 1]);
        }
        if c == '/' || c == '\\' {
            proof {
                assert(after_last_sep(path@.take(j as int)) =~= Seq::<char>::empty());
                assert(base_name(path@) =~= path@.subrange(j as int, m as int));
            }
            return stem_from(path, j, m);
        }
        proof {
            assert(path@.take(j as int).drop_last() =~= path@.take(j - 1));
            assert(after_last_sep(path@.take(j as int)) == after_last_sep(path@.take(j - 1)).push(
                path@[j - 1],
            ));
            assert(after_last_sep(path@.take(j - 1)).push(path@[j - 1]) + path@.subrange(
                j as int,
                m as int,
            ) =~= after_last_sep(path@.take(j - 1)) + path@.subrange(j - 1, m as int));
        }
        j -= 1;
    }
    proof {
        assert(path@.take(0) =~= Seq::<char>::empty());
        assert(after_last_sep(Seq::<char>::empty()) =~= Seq::<char>::empty());
        assert(base_name(path@) =~= path@.subrange(0, m as int));
    }
    stem_from(path, 0, m)
}

/// The display name for a new game from the entered name and the
/// chosen path.
pub fn default_name(entered: &str, path: &str) -> (r: String)
    ensures
        r@ == default_game_name(entered@, path@),
{
    let en = trim_str(entered);
    if !en.as_str().is_empty() {
        en
    } else {
        let st = trim_str(file_stem_of(path).as_str());
        proof {
            assert(trim_spec(strip_ext(base_name(path@))) == st@);
        }
        if !st.as_str().is_empty() {
            st
        } else {
            en
        }
    }
}

} // verus!
