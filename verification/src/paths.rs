//! Path text: the pure string computations under allocation and appending.
//!
//! A target path is a plain string with `/` as the directory separator. Its
//! pieces, as this library reads them:
//!
//! - the *directory prefix*: everything up to and including the last `/`
//!   (empty when there is no separator);
//! - the *filename*: everything after the last `/`;
//! - the *extension*: the part of the filename after its last dot, where a
//!   dot at the very start of the filename (a hidden-file marker) never
//!   counts as the extension dot;
//! - the *suffix insertion point*: the index of the first dot of the
//!   filename past its leading character — the place where a collision
//!   suffix `(n)` is spliced in, so `logs/app.txt` becomes `logs/app(1).txt`.
//!
//! Everything here is computed from the filename component, so a dot inside
//! a directory name never moves the insertion point.

use vstd::prelude::*;
use crate::digits::dec_digits;
use crate::digits::u64_to_string;
use crate::digits::lemma_dec_digits_val;
use crate::digits::lemma_dec_digits_injective;
use crate::AllowedExts;

verus! {

/// The index at which the filename begins: just past the last `/`, or 0
/// when the path has no separator.
pub open spec fn fname_start(s: Seq<char>) -> int
    decreases s.len(),
{
    if s.len() == 0 {
        0
    } else if s.last() == '/' {
        s.len() as int
    } else {
        fname_start(s.drop_last())
    }
}

/// `fname_start` lands just past the last separator: nothing at or after it
/// is a `/`, and the character right before it (if any) is one.
pub proof fn lemma_fname_start_props(s: Seq<char>)
    ensures
        0 <= fname_start(s) <= s.len(),
        fname_start(s) > 0 ==> s[fname_start(s) - 1] == '/',
        forall|j: int| fname_start(s) <= j < s.len() ==> s[j] != '/',
    decreases s.len(),
{
    if s.len() == 0 {
    } else if s.last() == '/' {
    } else {
        lemma_fname_start_props(s.drop_last());
        let f = fname_start(s);
        assert(f == fname_start(s.drop_last()));
        assert forall|j: int| f <= j < s.len() implies s[j] != '/' by {
            if j < s.len() - 1 {
                assert(s.drop_last()[j] == s[j]);
            } else {
                assert(s[j] == s.last());
            }
        }
        if f > 0 {
            assert(s.drop_last()[f - 1] == s[f - 1]);
        }
    }
}

/// Any index with the properties of `fname_start` is `fname_start`.
pub proof fn lemma_fname_start_unique(s: Seq<char>, k: int)
    requires
        0 <= k <= s.len(),
        k > 0 ==> s[k - 1] == '/',
        forall|j: int| k <= j < s.len() ==> s[j] != '/',
    ensures
        k == fname_start(s),
{
    lemma_fname_start_props(s);
    let f = fname_start(s);
    if k < f {
        assert(s[f - 1] == '/');
        assert(s[f - 1] != '/');
    } else if f < k {
        assert(s[k - 1] == '/');
        assert(s[k - 1] != '/');
    }
}

/// The index of the first dot at or after `i`, or the length when there is
/// none.
pub open spec fn first_dot_from(s: Seq<char>, i: int) -> int
    decreases s.len() - i,
{
    if i >= s.len() {
        s.len() as int
    } else if s[i] == '.' {
        i
    } else {
        first_dot_from(s, i + 1)
    }
}

/// `first_dot_from` finds the first dot at or after `i`.
pub proof fn lemma_first_dot_props(s: Seq<char>, i: int)
    requires
        0 <= i <= s.len(),
    ensures
        i <= first_dot_from(s, i) <= s.len(),
        first_dot_from(s, i) < s.len() ==> s[first_dot_from(s, i)] == '.',
        forall|j: int| i <= j < first_dot_from(s, i) ==> s[j] != '.',
    decreases s.len() - i,
{
    if i >= s.len() {
    } else if s[i] == '.' {
    } else {
        lemma_first_dot_props(s, i + 1);
    }
}

/// The character index of the spot where a collision suffix is spliced in:
/// the first dot of the filename past its leading character, or the end of
/// the path when the filename has no such dot.
pub open spec fn suffix_point(s: Seq<char>) -> int {
    if fname_start(s) >= s.len() {
        s.len() as int
    } else {
        first_dot_from(s, fname_start(s) + 1)
    }
}

/// The suffix insertion point lies within the path, inside its filename.
pub proof fn lemma_suffix_point_range(s: Seq<char>)
    ensures
        fname_start(s) <= suffix_point(s) <= s.len(),
        0 <= suffix_point(s),
{
    lemma_fname_start_props(s);
    if fname_start(s) < s.len() {
        lemma_first_dot_props(s, fname_start(s) + 1);
    }
}

/// All path segments but the last, joined back with their separators: the
/// text up to and including the last `/`.
pub open spec fn dir_prefix_of(s: Seq<char>) -> Seq<char> {
    s.subrange(0, fname_start(s))
}

/// The filename component: the text after the last `/`.
pub open spec fn fname_of(s: Seq<char>) -> Seq<char> {
    s.subrange(fname_start(s), s.len() as int)
}

/// The index of the last dot of a filename, never counting a dot at index
/// 0 (a hidden-file marker), or -1 when there is no such dot.
pub open spec fn last_dot(f: Seq<char>) -> int
    decreases f.len(),
{
    if f.len() <= 1 {
        -1
    } else if f.last() == '.' {
        f.len() - 1
    } else {
        last_dot(f.drop_last())
    }
}

/// `last_dot` finds the last dot at index 1 or later.
pub proof fn lemma_last_dot_props(f: Seq<char>)
    ensures
        last_dot(f) == -1 || 1 <= last_dot(f) < f.len(),
        last_dot(f) >= 1 ==> f[last_dot(f)] == '.',
        forall|j: int| 1 <= j < f.len() && last_dot(f) < j ==> f[j] != '.',
    decreases f.len(),
{
    if f.len() <= 1 {
    } else if f.last() == '.' {
    } else {
        lemma_last_dot_props(f.drop_last());
        let d = last_dot(f);
        assert(d == last_dot(f.drop_last()));
        assert forall|j: int| 1 <= j < f.len() && d < j implies f[j] != '.' by {
            if j < f.len() - 1 {
                assert(f.drop_last()[j] == f[j]);
            } else {
                assert(f[j] == f.last());
            }
        }
        if d >= 1 {
            assert(f.drop_last()[d] == f[d]);
        }
    }
}

/// Any index with the properties of `last_dot` is `last_dot`.
pub proof fn lemma_last_dot_unique(f: Seq<char>, k: int)
    requires
        k == -1 || 1 <= k < f.len(),
        k >= 1 ==> f[k] == '.',
        forall|j: int| 1 <= j < f.len() && k < j ==> f[j] != '.',
    ensures
        k == last_dot(f),
{
    lemma_last_dot_props(f);
    let d = last_dot(f);
    if k < d {
        assert(f[d] == '.');
        assert(f[d] != '.');
    } else if d < k {
        assert(f[k] == '.');
        assert(f[k] != '.');
    }
}

/// The extension: the part of the filename after its last dot, where a dot
/// at the start of the filename never counts. `None` when the filename has
/// no such dot.
pub open spec fn ext_of(s: Seq<char>) -> Option<Seq<char>> {
    let f = fname_of(s);
    if last_dot(f) >= 1 {
        Some(f.subrange(last_dot(f) + 1, f.len() as int))
    } else {
        None
    }
}

/// Whether an extension belongs to the allowed set.
pub open spec fn ext_allowed(e: Seq<char>, exts: AllowedExts) -> bool {
    e == seq!['t', 'x', 't'] || (exts is TxtAndLog && e == seq!['l', 'o', 'g'])
}

/// A path is valid for appending when it is non-empty and carries an
/// allowed extension.
pub open spec fn path_valid(s: Seq<char>, exts: AllowedExts) -> bool {
    s.len() > 0 && match ext_of(s) {
        Some(e) => ext_allowed(e, exts),
        None => false,
    }
}

/// Whether the path holds a directory separator at all. Allocation needs
/// one: the segment split must leave a directory prefix to materialize.
pub open spec fn has_separator(s: Seq<char>) -> bool {
    fname_start(s) > 0
}

/// The path with the collision suffix `(n)` spliced in at the suffix
/// insertion point.
pub open spec fn with_suffix(path: Seq<char>, n: nat) -> Seq<char> {
    path.subrange(0, suffix_point(path)) + seq!['('] + dec_digits(n) + seq![')']
        + path.subrange(suffix_point(path), path.len() as int)
}

/// The n-th candidate path for a desired path: the path itself first, then
/// its suffixed variants in counter order.
pub open spec fn cand(path: Seq<char>, n: nat) -> Seq<char> {
    if n == 0 {
        path
    } else {
        with_suffix(path, n)
    }
}

/// The shape of a suffixed candidate: its length, and the digit string
/// readable back out of it right after the opening parenthesis.
pub proof fn lemma_with_suffix_parts(path: Seq<char>, n: nat)
    ensures
        with_suffix(path, n).len() == path.len() + 2 + dec_digits(n).len(),
        with_suffix(path, n).subrange(
            suffix_point(path) + 1,
            suffix_point(path) + 1 + dec_digits(n).len(),
        ) == dec_digits(n),
{
    lemma_suffix_point_range(path);
    lemma_dec_digits_val(n);
    let pt = suffix_point(path);
    let w = with_suffix(path, n);
    assert(w.len() == path.len() + 2 + dec_digits(n).len());
    assert(w.subrange(pt + 1, pt + 1 + dec_digits(n).len()) =~= dec_digits(n));
}

/// Distinct counters give distinct candidate paths.
pub proof fn lemma_cand_injective(path: Seq<char>, m: nat, n: nat)
    requires
        m != n,
    ensures
        cand(path, m) != cand(path, n),
{
    lemma_suffix_point_range(path);
    lemma_dec_digits_val(m);
    lemma_dec_digits_val(n);
    lemma_with_suffix_parts(path, m);
    lemma_with_suffix_parts(path, n);
    if m == 0 || n == 0 {
        // one candidate is the path itself, the other is strictly longer
    } else {
        if cand(path, m) == cand(path, n) {
            assert(dec_digits(m).len() == dec_digits(n).len());
            let pt = suffix_point(path);
            assert(with_suffix(path, m).subrange(pt + 1, pt + 1 + dec_digits(m).len())
                == with_suffix(path, n).subrange(pt + 1, pt + 1 + dec_digits(n).len()));
            lemma_dec_digits_injective(m, n);
        }
    }
}

/// The set of the first `n` candidate paths.
pub open spec fn cands_below(path: Seq<char>, n: nat) -> Set<Seq<char>> {
    Set::new(|s: Seq<char>| exists|m: nat| m < n && s == cand(path, m))
}

/// There are exactly `n` candidates below `n`: candidates never collide.
pub proof fn lemma_cands_below_len(path: Seq<char>, n: nat)
    ensures
        cands_below(path, n).finite(),
        cands_below(path, n).len() == n,
    decreases n,
{
    if n == 0 {
        assert(cands_below(path, 0) =~= Set::<Seq<char>>::empty());
    } else {
        let p = (n - 1) as nat;
        lemma_cands_below_len(path, p);
        assert forall|m: nat| m < p implies cand(path, m) != cand(path, p) by {
            lemma_cand_injective(path, m, p);
        }
        assert(!cands_below(path, p).contains(cand(path, p)));
        assert(cands_below(path, n) =~= cands_below(path, p).insert(cand(path, p)));
    }
}

/// The index at which the filename begins.
fn fname_start_idx(path: &str) -> (r: usize)
    ensures
        r as int == fname_start(path@),
{
    let len = path.unicode_len();
    let mut i: usize = len;
    while i > 0 && path.get_char(i - 1) != '/'
        invariant
            i <= len,
            len == path@.len(),
            forall|j: int| i <= j < len ==> path@[j] != '/',
        decreases i,
    {
        i = i - 1;
    }
    proof {
        lemma_fname_start_unique(path@, i as int);
    }
    i
}

/// The index of the first dot at or after `start`.
fn first_dot_idx(path: &str, start: usize) -> (r: usize)
    requires
        start <= path@.len(),
    ensures
        r as int == first_dot_from(path@, start as int),
        r <= path@.len(),
{
    let len = path.unicode_len();
    let mut k: usize = start;
    while k < len && path.get_char(k) != '.'
        invariant
            start <= k <= len,
            len == path@.len(),
            first_dot_from(path@, start as int) == first_dot_from(path@, k as int),
        decreases len - k,
    {
        k = k + 1;
    }
    k
}

/// The character index of the spot where a collision suffix is spliced in.
pub fn suffix_insertion_point(path: &str) -> (r: usize)
    ensures
        r as int == suffix_point(path@),
{
    let len = path.unicode_len();
    let fs = fname_start_idx(path);
    if fs >= len {
        proof {
            lemma_fname_start_props(path@);
        }
        len
    } else {
        first_dot_idx(path, fs + 1)
    }
}

/// All path segments but the last, joined back with their separators.
pub fn dir_prefix(path: &str) -> (r: String)
    ensures
        r@ == dir_prefix_of(path@),
{
    let fs = fname_start_idx(path);
    proof {
        lemma_fname_start_props(path@);
    }
    let pre = path.substring_char(0, fs);
    pre.to_owned()
}

/// Whether the path holds a directory separator at all.
pub fn path_has_separator(path: &str) -> (r: bool)
    ensures
        r == has_separator(path@),
{
    fname_start_idx(path) > 0
}

/// Character-for-character string equality.
fn str_eq(a: &str, b: &str) -> (r: bool)
    ensures
        r == (a@ == b@),
{
    let la = a.unicode_len();
    let lb = b.unicode_len();
    if la != lb {
        return false;
    }
    let mut i: usize = 0;
    while i < la
        invariant
            i <= la,
            la == a@.len(),
            la == b@.len(),
            forall|j: int| 0 <= j < i ==> a@[j] == b@[j],
        decreases la - i,
    {
        if a.get_char(i) != b.get_char(i) {
            return false;
        }
        i = i + 1;
    }
    proof {
        assert(a@ =~= b@);
    }
    true
}

/// Whether the path is non-empty and carries an allowed extension.
pub fn path_is_valid(path: &str, exts: AllowedExts) -> (r: bool)
    ensures
        r == path_valid(path@, exts),
{
    let len = path.unicode_len();
    if len == 0 {
        return false;
    }
    let fs = fname_start_idx(path);
    proof {
        lemma_fname_start_props(path@);
    }
    // Scan the filename backward for its last dot, never counting the
    // filename's leading character.
    let mut i: usize = len;
    while i > 0 && i - 1 > fs && path.get_char(i - 1) != '.'
        invariant
            len == path@.len(),
            fs as int == fname_start(path@),
            fs <= len,
            i <= len,
            forall|j: int| i <= j < len ==> path@[j] != '.',
        decreases i,
    {
        i = i - 1;
    }
    let ghost f = fname_of(path@);
    if i == 0 || i - 1 <= fs {
        // No dot past the filename's leading character: no extension.
        proof {
            assert forall|j: int| 1 <= j < f.len() && -1 < j implies f[j] != '.' by {
                assert(f[j] == path@[fs + j]);
            }
            lemma_last_dot_unique(f, -1);
        }
        return false;
    }
    // path@[i - 1] is the extension dot, at filename index i - 1 - fs >= 1.
    proof {
        assert(f[i - 1 - fs] == path@[i - 1]);
        assert forall|j: int| 1 <= j < f.len() && i - 1 - fs < j implies f[j] != '.' by {
            assert(f[j] == path@[fs + j]);
        }
        lemma_last_dot_unique(f, i - 1 - fs);
    }
    let ext = path.substring_char(i, len);
    proof {
        assert(ext@ =~= f.subrange(last_dot(f) + 1, f.len() as int));
        reveal_strlit("txt");
        reveal_strlit("log");
        assert("txt"@ =~= seq!['t', 'x', 't']);
        assert("log"@ =~= seq!['l', 'o', 'g']);
    }
    let is_txt = str_eq(ext, "txt");
    match exts {
        AllowedExts::TxtOnly => is_txt,
        AllowedExts::TxtAndLog => is_txt || str_eq(ext, "log"),
    }
}

/// The n-th candidate path for a desired path: the path itself for
/// `n == 0`, and the path with `(n)` spliced in at the suffix insertion
/// point for `n >= 1`.
pub fn candidate_path(path: &str, n: u64) -> (r: String)
    ensures
        r@ == cand(path@, n as nat),
{
    if n == 0 {
        return path.to_owned();
    }
    let len = path.unicode_len();
    let pt = suffix_insertion_point(path);
    proof {
        lemma_suffix_point_range(path@);
    }
    let mut s = String::from_str(path.substring_char(0, pt));
    s.append("(");
    let digits = u64_to_string(n);
    s.append(digits.as_str());
    s.append(")");
    s.append(path.substring_char(pt, len));
    proof {
        reveal_strlit("(");
        reveal_strlit(")");
        assert(s@ =~= with_suffix(path@, n as nat));
    }
    s
}

} // verus!
