//! Path normalization, extension handling and identifier validation.

use vstd::prelude::*;

use crate::text::{
    drop_leading, drop_trailing, in_class, lemma_drop_leading_skip, lemma_drop_trailing_take,
    lower_char, map_lower, scan_class_back, scan_class_fwd, trim, trim_bounds, CharClass,
};

verus! {

/// Backslashes turned into forward slashes, character for character.
pub open spec fn replace_bs(s: Seq<char>) -> Seq<char> {
    s.map_values(|c: char| if c == '\\' { '/' } else { c })
}

/// The core of path normalization: white space trimmed, backslashes turned
/// into slashes, leading and trailing slashes stripped.
pub open spec fn strip_path(s: Seq<char>) -> Seq<char> {
    drop_trailing(CharClass::Slash, drop_leading(CharClass::Slash, replace_bs(trim(s))))
}

/// A normalized path: a single leading slash followed by the stripped core.
/// A path whose core is empty normalizes to just `/`.
pub open spec fn norm_slash(s: Seq<char>) -> Seq<char> {
    seq!['/'] + strip_path(s)
}

/// Whether `path` lies within the root directory `root`, on segment
/// boundaries.  An empty normalized root matches everything; otherwise the
/// stripped path must equal the stripped root or extend it past a `/`.
pub open spec fn path_in_root(path: Seq<char>, root: Seq<char>) -> bool {
    let p = strip_path(path);
    let r = strip_path(root);
    ||| r.len() == 0
    ||| p == r
    ||| (p.len() > r.len() && p.subrange(0, r.len() as int) == r && p[r.len() as int] == '/')
}

/// Index of the last `.` in `name`, or `-1` if there is none.
pub open spec fn last_dot(s: Seq<char>) -> int
    decreases s.len(),
{
    if s.len() == 0 {
        -1
    } else if s.last() == '.' {
        s.len() - 1
    } else {
        last_dot(s.drop_last())
    }
}

/// The lowercase extension of a file name, leading dot included; empty when
/// the name has no extension.  A name whose only dot is its first character
/// (a bare dotfile) has no extension.
pub open spec fn ext_of(name: Seq<char>) -> Seq<char> {
    let i = last_dot(name);
    if i <= 0 {
        Seq::empty()
    } else {
        seq!['.'] + map_lower(name.subrange(i + 1, name.len() as int))
    }
}

/// A normalized configured extension: trimmed, leading dots stripped,
/// lowercased, and prefixed with a single dot.
pub open spec fn norm_ext(e: Seq<char>) -> Seq<char> {
    seq!['.'] + map_lower(drop_leading(CharClass::Dot, trim(e)))
}

pub open spec fn is_ascii_alnum(c: char) -> bool {
    ('0' <= c && c <= '9') || ('a' <= c && c <= 'z') || ('A' <= c && c <= 'Z')
}

/// A valid remote file identifier: after trimming, exactly 17 characters,
/// all ASCII letters or digits.
pub open spec fn valid_pickcode(pc: Seq<char>) -> bool {
    let t = trim(pc);
    t.len() == 17 && (forall|i: int| 0 <= i < t.len() ==> is_ascii_alnum(t[i]))
}

/// The stripped core of a path, built as a fresh string.
fn stripped_path_str(s: &str) -> (r: String)
    ensures
        r@ == strip_path(s@),
{
    let (a, b) = trim_bounds(s);
    let mut t = String::new();
    let mut i: usize = a;
    while i < b
        invariant
            a <= i <= b <= s@.len(),
            t@ == replace_bs(s@.subrange(a as int, i as int)),
        decreases b - i,
    {
        let c = s.get_char(i);
        let d = if c == '\\' {
            '/'
        } else {
            c
        };
        t.push(d);
        proof {
            assert(t@ =~= replace_bs(s@.subrange(a as int, i + 1)));
        }
        i = i + 1;
    }
    proof {
        assert(s@.subrange(a as int, b as int) == trim(s@));
        assert(t@ == replace_bs(trim(s@)));
    }
    let tl = t.as_str().unicode_len();
    let c0 = scan_class_fwd(CharClass::Slash, t.as_str(), 0, tl);
    let c1 = scan_class_back(CharClass::Slash, t.as_str(), c0, tl);
    proof {
        lemma_drop_leading_skip(CharClass::Slash, t@, c0 as int);
        let u = t@.skip(c0 as int);
        assert(forall|j: int| c1 - c0 <= j < u.len() ==> in_class(CharClass::Slash, u[j]));
        if c1 > c0 {
            assert(!in_class(CharClass::Slash, u[c1 - c0 - 1]));
        }
        lemma_drop_trailing_take(CharClass::Slash, u, c1 - c0);
        assert(u.take(c1 - c0) =~= t@.subrange(c0 as int, c1 as int));
    }
    let core = t.as_str().substring_char(c0, c1);
    String::from_str(core)
}

/// Normalizes a path to a single leading slash followed by its stripped
/// core; a path with an empty core becomes just `/`.
pub fn normalize_slash(p: &str) -> (r: String)
    ensures
        r@ == norm_slash(p@),
{
    let core = stripped_path_str(p);
    let mut r = String::from_str("/");
    proof {
        reveal_strlit("/");
        assert(r@ =~= seq!['/']);
    }
    r.append(core.as_str());
    r
}

/// Whether `path` lies under the root directory `prefix`, the root treated
/// as a directory: the path must equal the root or continue past it at a
/// segment boundary.  An empty root matches every path.
pub fn has_prefix(path: &str, prefix: &str) -> (b: bool)
    ensures
        b == path_in_root(path@, prefix@),
{
    let p = stripped_path_str(path);
    let r = stripped_path_str(prefix);
    let rl = r.as_str().unicode_len();
    if rl == 0 {
        return true;
    }
    if p == r {
        return true;
    }
    let pl = p.as_str().unicode_len();
    if pl <= rl {
        proof {
            assert(!(p@.len() > r@.len()));
        }
        return false;
    }
    if p.as_str().get_char(rl) != '/' {
        return false;
    }
    let mut k: usize = 0;
    while k < rl
        invariant
            0 <= k <= rl,
            rl == r@.len() < p@.len(),
            p@ == strip_path(path@),
            r@ == strip_path(prefix@),
            p@ != r@,
            forall|j: int| 0 <= j < k ==> p@[j] == r@[j],
        decreases rl - k,
    {
        if p.as_str().get_char(k) != r.as_str().get_char(k) {
            proof {
                assert(p@ != r@);
                assert(p@.subrange(0, rl as int) != r@) by {
                    assert(p@.subrange(0, rl as int)[k as int] != r@[k as int]);
                }
                assert(!path_in_root(path@, prefix@));
            }
            return false;
        }
        k = k + 1;
    }
    proof {
        assert(p@.subrange(0, rl as int) =~= r@);
    }
    true
}

/// Position one past the last dot of `s`, or `0` when `s` has no dot.
fn find_after_last_dot(s: &str) -> (r: usize)
    ensures
        r <= s@.len(),
        last_dot(s@) == r - 1,
{
    let len = s.unicode_len();
    let mut i = len;
    while i > 0
        invariant
            i <= s@.len(),
            forall|j: int| i <= j < s@.len() ==> s@[j] != '.',
        decreases i,
    {
        let c = s.get_char(i - 1);
        if c == '.' {
            proof {
                lemma_last_dot_at(s@, i - 1);
            }
            return i;
        }
        i = i - 1;
    }
    proof {
        lemma_last_dot_at(s@, -1);
    }
    0
}

proof fn lemma_last_dot_at(s: Seq<char>, i: int)
    requires
        -1 <= i < s.len(),
        forall|j: int| i < j < s.len() ==> s[j] != '.',
        i == -1 || s[i] == '.',
    ensures
        last_dot(s) == i,
    decreases s.len(),
{
    if s.len() == 0 {
    } else if s.last() == '.' {
        assert(i == s.len() - 1);
    } else {
        let t = s.drop_last();
        assert(forall|j: int| i < j < t.len() ==> t[j] != '.');
        lemma_last_dot_at(t, i);
    }
}

/// The lowercase extension of a file name, leading dot included, or the
/// empty string when the name has none.  Only the final dot counts; a name
/// beginning with its only dot has no extension.
pub fn file_extension(name: &str) -> (r: String)
    ensures
        r@ == ext_of(name@),
{
    let d = find_after_last_dot(name);
    if d <= 1 {
        let r = String::new();
        return r;
    }
    let len = name.unicode_len();
    let mut r = String::from_str(".");
    proof {
        reveal_strlit(".");
        assert(r@ =~= seq!['.']);
        assert(r@ =~= seq!['.'] + map_lower(name@.subrange(d as int, d as int)));
    }
    let mut i: usize = d;
    while i < len
        invariant
            d <= i <= len == name@.len(),
            r@ == seq!['.'] + map_lower(name@.subrange(d as int, i as int)),
        decreases len - i,
    {
        let c = lower_char(name.get_char(i));
        r.push(c);
        proof {
            assert(r@ =~= seq!['.'] + map_lower(name@.subrange(d as int, i + 1)));
        }
        i = i + 1;
    }
    proof {
        assert(name@.subrange(d as int, len as int) == name@.subrange(
            last_dot(name@) + 1,
            name@.len() as int,
        ));
    }
    r
}

/// The normalized form of one configured extension: trimmed, leading dots
/// stripped, lowercased, and prefixed with a single dot.
pub fn normalize_extension(e: &str) -> (r: String)
    ensures
        r@ == norm_ext(e@),
{
    let (a, b) = trim_bounds(e);
    let d = scan_class_fwd(CharClass::Dot, e, a, b);
    proof {
        let t = e@.subrange(a as int, b as int);
        assert(forall|j: int| 0 <= j < d - a ==> in_class(CharClass::Dot, t[j]));
        if d < b {
            assert(!in_class(CharClass::Dot, t[d - a]));
        }
        lemma_drop_leading_skip(CharClass::Dot, t, d - a);
        assert(t.skip(d - a) =~= e@.subrange(d as int, b as int));
    }
    let mut r = String::from_str(".");
    proof {
        reveal_strlit(".");
        assert(r@ =~= seq!['.']);
        assert(r@ =~= seq!['.'] + map_lower(e@.subrange(d as int, d as int)));
    }
    let mut i: usize = d;
    while i < b
        invariant
            d <= i <= b <= e@.len(),
            r@ == seq!['.'] + map_lower(e@.subrange(d as int, i as int)),
        decreases b - i,
    {
        let c = lower_char(e.get_char(i));
        r.push(c);
        proof {
            assert(r@ =~= seq!['.'] + map_lower(e@.subrange(d as int, i + 1)));
        }
        i = i + 1;
    }
    r
}

/// Whether `pc` is a well-formed remote file identifier: after trimming,
/// exactly 17 ASCII letters or digits.  This is a format check only.
pub fn is_valid_pickcode(pc: &str) -> (b: bool)
    ensures
        b == valid_pickcode(pc@),
{
    let (a, b_) = trim_bounds(pc);
    if b_ - a != 17 {
        return false;
    }
    let mut i: usize = a;
    while i < b_
        invariant
            a <= i <= b_ <= pc@.len(),
            trim(pc@) == pc@.subrange(a as int, b_ as int),
            b_ - a == 17,
            forall|j: int| a <= j < i ==> is_ascii_alnum(pc@[j]),
        decreases b_ - i,
    {
        let c = pc.get_char(i);
        let ok = ('0' <= c && c <= '9') || ('a' <= c && c <= 'z') || ('A' <= c && c <= 'Z');
        if !ok {
            proof {
                assert(trim(pc@)[i - a] == pc@[i as int]);
            }
            return false;
        }
        i = i + 1;
    }
    proof {
        assert(forall|j: int| 0 <= j < trim(pc@).len() ==> trim(pc@)[j] == pc@[a + j]);
    }
    true
}

} // verus!
