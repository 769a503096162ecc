//! Verified character-level utilities for PATH strings.
//!
//! Every routine here works on `Vec<char>` / `Seq<char>` so that the rest
//! of the crate can state its contracts over plain character sequences.

use vstd::prelude::*;
use vstd::string::StrSliceExecFns;

verus! {

// ---------------------------------------------------------------------------
// Character predicates
// ---------------------------------------------------------------------------

/// ASCII upper-case letters are folded to lower case; everything else is kept.
///
/// This is a deliberate model choice: Windows compares PATH content
/// case-insensitively, and its entries are in practice ASCII.  Folding
/// only ASCII keeps the function exactly specifiable over character
/// sequences; two paths differing solely in non-ASCII case are treated
/// as distinct.
pub open spec fn lower_char(c: char) -> char {
    if 65 <= c as u32 && c as u32 <= 90 {
        (((c as u8) + 32) as char)
    } else {
        c
    }
}

/// ASCII whitespace, the characters stripped from the ends of an entry.
pub open spec fn is_space_char(c: char) -> bool {
    c == ' ' || c == '\t' || c == '\n' || c == '\r'
}

/// Case folding of a whole sequence, character by character.
pub open spec fn lower(s: Seq<char>) -> Seq<char> {
    s.map_values(|c: char| lower_char(c))
}

fn to_lower_char(c: char) -> (r: char)
    ensures
        r == lower_char(c),
{
    let u = c as u32;
    if 65 <= u && u <= 90 {
        ((c as u8) + 32) as char
    } else {
        c
    }
}

fn is_space(c: char) -> (r: bool)
    ensures
        r == is_space_char(c),
{
    c == ' ' || c == '\t' || c == '\n' || c == '\r'
}

// ---------------------------------------------------------------------------
// Conversions between `str`/`String` and `Vec<char>`
// ---------------------------------------------------------------------------

/// Collects the characters of a string slice; the view of a `str` is
/// exactly its character sequence.
pub fn chars_of(s: &str) -> (r: Vec<char>)
    ensures
        r@ == s@,
{
    let n = s.unicode_len();
    let mut v: Vec<char> = Vec::new();
    let mut i: usize = 0;
    while i < n
        invariant
            i <= n,
            n == s@.len(),
            v@ == s@.subrange(0, i as int),
        decreases n - i,
    {
        v.push(s.get_char(i));
        i += 1;
    }
    assert(v@ =~= s@);
    v
}

/// Relies on `String`'s `FromIterator<char>` impl: collecting a character
/// sequence yields the string whose view is exactly that sequence.
#[verifier::external_body]
pub fn string_from_chars(v: &Vec<char>) -> (r: String)
    ensures
        r@ == v@,
{
    v.iter().collect()
}

/// Case folding as an executable function on character vectors.
pub fn to_lower(v: &Vec<char>) -> (r: Vec<char>)
    ensures
        r@ == lower(v@),
{
    let mut out: Vec<char> = Vec::new();
    let mut i: usize = 0;
    while i < v.len()
        invariant
            i <= v@.len(),
            out@ == lower(v@.subrange(0, i as int)),
        decreases v@.len() - i,
    {
        out.push(to_lower_char(v[i]));
        assert(out@ =~= lower(v@.subrange(0, i + 1 as int)));
        i += 1;
    }
    assert(v@.subrange(0, v@.len() as int) =~= v@);
    out
}

// ---------------------------------------------------------------------------
// Trimming
// ---------------------------------------------------------------------------

/// Drops every character of `s` from the front while `p` holds of it.
pub open spec fn trim_front_by(s: Seq<char>, p: spec_fn(char) -> bool) -> Seq<char>
    decreases s.len(),
{
    if s.len() > 0 && p(s[0]) {
        trim_front_by(s.drop_first(), p)
    } else {
        s
    }
}

/// Drops every character of `s` from the back while `p` holds of it.
pub open spec fn trim_back_by(s: Seq<char>, p: spec_fn(char) -> bool) -> Seq<char>
    decreases s.len(),
{
    if s.len() > 0 && p(s.last()) {
        trim_back_by(s.drop_last(), p)
    } else {
        s
    }
}

/// Both ends stripped of characters satisfying `p`.
pub open spec fn trim_by(s: Seq<char>, p: spec_fn(char) -> bool) -> Seq<char> {
    trim_back_by(trim_front_by(s, p), p)
}

/// Whitespace removed from both ends, as `str::trim` does.
pub open spec fn trim(s: Seq<char>) -> Seq<char> {
    trim_by(s, |c: char| is_space_char(c))
}

/// All double quotes removed from both ends, as `trim_matches('"')` does.
pub open spec fn strip_quotes(s: Seq<char>) -> Seq<char> {
    trim_by(s, |c: char| c == '"')
}

proof fn lemma_trim_front_by_index(s: Seq<char>, p: spec_fn(char) -> bool, i: int)
    requires
        0 <= i <= s.len(),
        forall|k: int| 0 <= k < i ==> p(s[k]),
        i == s.len() || !p(s[i]),
    ensures
        trim_front_by(s, p) == s.subrange(i, s.len() as int),
    decreases i,
{
    if i == 0 {
        if s.len() == 0 || !p(s[0]) {
            assert(trim_front_by(s, p) == s);
            assert(s.subrange(0, s.len() as int) =~= s);
        }
    } else {
        let t = s.drop_first();
        assert(p(s[0]));
        assert(trim_front_by(s, p) == trim_front_by(t, p));
        assert(forall|k: int| 0 <= k < i - 1 ==> p(#[trigger] t[k]));
        lemma_trim_front_by_index(t, p, i - 1);
        assert(t.subrange(i - 1, t.len() as int) =~= s.subrange(i, s.len() as int));
    }
}

proof fn lemma_trim_back_by_index(s: Seq<char>, p: spec_fn(char) -> bool, j: int)
    requires
        0 <= j <= s.len(),
        forall|k: int| j <= k < s.len() ==> p(s[k]),
        j == 0 || !p(s[j - 1]),
    ensures
        trim_back_by(s, p) == s.subrange(0, j),
    decreases s.len() - j,
{
    if j == s.len() {
        if s.len() == 0 || !p(s.last()) {
            assert(trim_back_by(s, p) == s);
            assert(s.subrange(0, s.len() as int) =~= s);
        }
    } else {
        let t = s.drop_last();
        assert(p(s.last()));
        assert(trim_back_by(s, p) == trim_back_by(t, p));
        assert(forall|k: int| j <= k < t.len() ==> p(#[trigger] t[k]));
        lemma_trim_back_by_index(t, p, j);
        assert(t.subrange(0, j) =~= s.subrange(0, j));
    }
}

/// Strips whitespace from both ends.
pub fn trim_chars(v: &Vec<char>) -> (r: Vec<char>)
    ensures
        r@ == trim(v@),
{
    let p = Ghost(|c: char| is_space_char(c));
    let mut i: usize = 0;
    while i < v.len() && is_space(v[i])
        invariant
            i <= v@.len(),
            forall|k: int| 0 <= k < i ==> is_space_char(#[trigger] v@[k]),
        decreases v@.len() - i,
    {
        i += 1;
    }
    proof {
        lemma_trim_front_by_index(v@, p@, i as int);
    }
    let ghost front = v@.subrange(i as int, v@.len() as int);
    let mut j: usize = v.len();
    while j > i && is_space(v[j - 1])
        invariant
            i <= j <= v@.len(),
            forall|k: int| j <= k < v@.len() ==> is_space_char(#[trigger] v@[k]),
        decreases j,
    {
        j -= 1;
    }
    proof {
        assert(forall|k: int| j - i <= k < front.len() ==> is_space_char(#[trigger] front[k]));
        lemma_trim_back_by_index(front, p@, j - i);
    }
    let mut out: Vec<char> = Vec::new();
    let mut k: usize = i;
    while k < j
        invariant
            i <= k <= j <= v@.len(),
            out@ == v@.subrange(i as int, k as int),
        decreases j - k,
    {
        out.push(v[k]);
        assert(out@ =~= v@.subrange(i as int, k + 1 as int));
        k += 1;
    }
    proof {
        assert(front.subrange(0, j - i) =~= v@.subrange(i as int, j as int));
    }
    out
}

/// Strips double quotes from both ends.
pub fn strip_quote_chars(v: &Vec<char>) -> (r: Vec<char>)
    ensures
        r@ == strip_quotes(v@),
{
    let p = Ghost(|c: char| c == '"');
    let mut i: usize = 0;
    while i < v.len() && v[i] == '"'
        invariant
            i <= v@.len(),
            forall|k: int| 0 <= k < i ==> #[trigger] v@[k] == '"',
        decreases v@.len() - i,
    {
        i += 1;
    }
    proof {
        lemma_trim_front_by_index(v@, p@, i as int);
    }
    let ghost front = v@.subrange(i as int, v@.len() as int);
    let mut j: usize = v.len();
    while j > i && v[j - 1] == '"'
        invariant
            i <= j <= v@.len(),
            forall|k: int| j <= k < v@.len() ==> #[trigger] v@[k] == '"',
        decreases j,
    {
        j -= 1;
    }
    proof {
        assert(forall|k: int| j - i <= k < front.len() ==> #[trigger] front[k] == '"');
        lemma_trim_back_by_index(front, p@, j - i);
    }
    let mut out: Vec<char> = Vec::new();
    let mut k: usize = i;
    while k < j
        invariant
            i <= k <= j <= v@.len(),
            out@ == v@.subrange(i as int, k as int),
        decreases j - k,
    {
        out.push(v[k]);
        assert(out@ =~= v@.subrange(i as int, k + 1 as int));
        k += 1;
    }
    proof {
        assert(front.subrange(0, j - i) =~= v@.subrange(i as int, j as int));
    }
    out
}

// ---------------------------------------------------------------------------
// Searching
// ---------------------------------------------------------------------------

/// Whether `c` occurs anywhere in `s`.
pub open spec fn has_char(s: Seq<char>, c: char) -> bool {
    exists|i: int| 0 <= i < s.len() && s[i] == c
}

/// Index of the first occurrence of `c` in `s`, if any.
pub open spec fn first_index_of(s: Seq<char>, c: char) -> Option<int>
    decreases s.len(),
{
    if s.len() == 0 {
        Option::None
    } else if s[0] == c {
        Option::Some(0)
    } else {
        match first_index_of(s.drop_first(), c) {
            Option::Some(i) => Option::Some(i + 1),
            Option::None => Option::None,
        }
    }
}

/// Whether `c` occurs in `v`.
pub fn contains_char(v: &Vec<char>, c: char) -> (r: bool)
    ensures
        r == has_char(v@, c),
{
    let mut i: usize = 0;
    while i < v.len()
        invariant
            i <= v@.len(),
            forall|k: int| 0 <= k < i ==> v@[k] != c,
        decreases v@.len() - i,
    {
        if v[i] == c {
            return true;
        }
        i += 1;
    }
    false
}

/// First index of `c` in `v` at or after `start`.
pub fn find_char_from(v: &Vec<char>, c: char, start: usize) -> (r: Option<usize>)
    requires
        start <= v@.len(),
    ensures
        match r {
            Option::Some(i) => start <= i < v@.len() && v@[i as int] == c && forall|k: int|
                start <= k < i ==> v@[k] != c,
            Option::None => forall|k: int| start <= k < v@.len() ==> v@[k] != c,
        },
{
    let mut i: usize = start;
    while i < v.len()
        invariant
            start <= i <= v@.len(),
            forall|k: int| start <= k < i ==> v@[k] != c,
        decreases v@.len() - i,
    {
        if v[i] == c {
            return Some(i);
        }
        i += 1;
    }
    None
}

/// Whether `pre` is a prefix of `s`.
pub open spec fn starts_with(s: Seq<char>, pre: Seq<char>) -> bool {
    pre.len() <= s.len() && s.subrange(0, pre.len() as int) == pre
}

/// Prefix test on character vectors.
pub fn begins_with(v: &Vec<char>, pre: &Vec<char>) -> (r: bool)
    ensures
        r == starts_with(v@, pre@),
{
    if pre.len() > v.len() {
        return false;
    }
    let mut i: usize = 0;
    while i < pre.len()
        invariant
            i <= pre@.len() <= v@.len(),
            forall|k: int| 0 <= k < i ==> v@[k] == pre@[k],
        decreases pre@.len() - i,
    {
        if v[i] != pre[i] {
            assert(v@.subrange(0, pre@.len() as int)[i as int] != pre@[i as int]);
            return false;
        }
        i += 1;
    }
    assert(v@.subrange(0, pre@.len() as int) =~= pre@);
    true
}

/// Whether `sub` occurs contiguously anywhere inside `s`.
pub open spec fn has_substring(s: Seq<char>, sub: Seq<char>) -> bool {
    exists|i: int|
        0 <= i <= s.len() - sub.len() && #[trigger] s.subrange(i, i + sub.len() as int) == sub
}

fn matches_at(v: &Vec<char>, sub: &Vec<char>, at: usize) -> (r: bool)
    requires
        at + sub@.len() <= v@.len(),
    ensures
        r == (v@.subrange(at as int, at + sub@.len() as int) == sub@),
{
    let n = v.len();
    let mut i: usize = 0;
    while i < sub.len()
        invariant
            i <= sub@.len(),
            n == v@.len(),
            at + sub@.len() <= v@.len(),
            forall|k: int| 0 <= k < i ==> v@[at + k] == sub@[k],
        decreases sub@.len() - i,
    {
        assert(at + i < n);
        if v[at + i] != sub[i] {
            assert(v@.subrange(at as int, at + sub@.len() as int)[i as int] != sub@[i as int]);
            return false;
        }
        i += 1;
    }
    assert(v@.subrange(at as int, at + sub@.len() as int) =~= sub@);
    true
}

// ---------------------------------------------------------------------------
// Replacement
// ---------------------------------------------------------------------------

/// Left-to-right, non-overlapping replacement of `pat` by `rep`, the
/// behaviour of `str::replace`.
pub open spec fn replace_seq(s: Seq<char>, pat: Seq<char>, rep: Seq<char>) -> Seq<char>
    recommends
        pat.len() > 0,
    decreases s.len(),
{
    if pat.len() == 0 || s.len() < pat.len() {
        s
    } else if s.subrange(0, pat.len() as int) == pat {
        rep + replace_seq(s.skip(pat.len() as int), pat, rep)
    } else {
        seq![s[0]] + replace_seq(s.drop_first(), pat, rep)
    }
}

/// Replaces every non-overlapping occurrence of `pat` in `v` by `rep`.
pub fn replace_all(v: &Vec<char>, pat: &Vec<char>, rep: &Vec<char>) -> (r: Vec<char>)
    requires
        pat@.len() > 0,
    ensures
        r@ == replace_seq(v@, pat@, rep@),
{
    let n = v.len();
    let mut out: Vec<char> = Vec::new();
    let mut i: usize = 0;
    proof {
        assert(v@.skip(0) =~= v@);
        assert(Seq::<char>::empty() + replace_seq(v@, pat@, rep@) =~= replace_seq(
            v@,
            pat@,
            rep@,
        ));
    }
    while i < n
        invariant
            i <= n,
            n == v@.len(),
            pat@.len() > 0,
            replace_seq(v@, pat@, rep@) == out@ + replace_seq(
                v@.skip(i as int),
                pat@,
                rep@,
            ),
        decreases n - i,
    {
        let ghost tail = v@.skip(i as int);
        if pat.len() <= n - i && matches_at(v, pat, i) {
            let ghost out0 = out@;
            let mut k: usize = 0;
            while k < rep.len()
                invariant
                    k <= rep@.len(),
                    out@ == out0 + rep@.subrange(0, k as int),
                decreases rep@.len() - k,
            {
                out.push(rep[k]);
                assert(out@ =~= out0 + rep@.subrange(0, k + 1 as int));
                k += 1;
            }
            proof {
                assert(rep@.subrange(0, rep@.len() as int) =~= rep@);
                assert(tail.subrange(0, pat@.len() as int) =~= v@.subrange(
                    i as int,
                    i + pat@.len() as int,
                ));
                assert(tail.skip(pat@.len() as int) =~= v@.skip(i + pat@.len() as int));
                assert(replace_seq(tail, pat@, rep@) == rep@ + replace_seq(
                    v@.skip(i + pat@.len() as int),
                    pat@,
                    rep@,
                ));
                assert(out0 + (rep@ + replace_seq(v@.skip(i + pat@.len() as int), pat@, rep@))
                    =~= (out0 + rep@) + replace_seq(v@.skip(i + pat@.len() as int), pat@, rep@));
            }
            i += pat.len();
        } else {
            let ghost out0 = out@;
            out.push(v[i]);
            proof {
                assert(tail.drop_first() =~= v@.skip(i + 1));
                assert(seq![v@[i as int]] =~= tail.subrange(0, 1));
                if tail.len() >= pat@.len() {
                    assert(tail.subrange(0, pat@.len() as int) =~= v@.subrange(
                        i as int,
                        i + pat@.len() as int,
                    ));
                    assert(tail.subrange(0, pat@.len() as int) != pat@);
                    assert(replace_seq(tail, pat@, rep@) == seq![tail[0]] + replace_seq(
                        tail.drop_first(),
                        pat@,
                        rep@,
                    ));
                } else {
                    assert(replace_seq(tail, pat@, rep@) == tail);
                    assert(replace_seq(tail.drop_first(), pat@, rep@) == tail.drop_first());
                    assert(tail =~= seq![tail[0]] + tail.drop_first());
                }
                assert(tail[0] == v@[i as int]);
                assert(out0 + (seq![v@[i as int]] + replace_seq(v@.skip(i + 1), pat@, rep@))
                    =~= (out0 + seq![v@[i as int]]) + replace_seq(v@.skip(i + 1), pat@, rep@));
                assert(out@ =~= out0 + seq![v@[i as int]]);
            }
            i += 1;
        }
    }
    proof {
        assert(v@.skip(n as int) =~= Seq::<char>::empty());
        assert(replace_seq(Seq::<char>::empty(), pat@, rep@) == Seq::<char>::empty());
        assert(out@ + Seq::<char>::empty() =~= out@);
    }
    out
}

/// Substring test on character vectors.
pub fn contains_sub(v: &Vec<char>, sub: &Vec<char>) -> (r: bool)
    ensures
        r == has_substring(v@, sub@),
{
    if sub.len() > v.len() {
        return false;
    }
    if sub.len() == 0 {
        assert(v@.subrange(0, 0 + sub@.len() as int) =~= sub@);
        return true;
    }
    let mut i: usize = 0;
    while i <= v.len() - sub.len()
        invariant
            0 < sub@.len() <= v@.len(),
            i <= v@.len() - sub@.len() + 1,
            forall|k: int|
                0 <= k < i ==> #[trigger] v@.subrange(k, k + sub@.len() as int) != sub@,
        decreases v@.len() - sub@.len() + 1 - i,
    {
        if matches_at(v, sub, i) {
            return true;
        }
        i += 1;
    }
    false
}

// ---------------------------------------------------------------------------
// Splitting and joining on `;`
// ---------------------------------------------------------------------------

/// All fields of `s` split at `sep`, empty fields included, as
/// `str::split` yields them.
pub open spec fn split_char(s: Seq<char>, sep: char) -> Seq<Seq<char>>
    decreases s.len(),
{
    if s.len() == 0 {
        seq![s]
    } else if s[0] == sep {
        seq![Seq::<char>::empty()] + split_char(s.drop_first(), sep)
    } else {
        let rest = split_char(s.drop_first(), sep);
        seq![seq![s[0]] + rest[0]] + rest.drop_first()
    }
}

/// The fields of a raw store value, split at `;`.
pub open spec fn split_raw(s: Seq<char>) -> Seq<Seq<char>> {
    split_char(s, ';')
}

/// The non-empty elements of a field list, in order.
pub open spec fn nonempty_of(v: Seq<Seq<char>>) -> Seq<Seq<char>>
    decreases v.len(),
{
    if v.len() == 0 {
        v
    } else if v[0].len() > 0 {
        seq![v[0]] + nonempty_of(v.drop_first())
    } else {
        nonempty_of(v.drop_first())
    }
}

/// The non-empty fields of `s`, in order: how a raw store value is read.
pub open spec fn entries(s: Seq<char>) -> Seq<Seq<char>> {
    nonempty_of(split_raw(s))
}

/// Keeping the non-empty elements distributes over concatenation.
proof fn lemma_nonempty_of_add(a: Seq<Seq<char>>, b: Seq<Seq<char>>)
    ensures
        nonempty_of(a + b) == nonempty_of(a) + nonempty_of(b),
    decreases a.len(),
{
    if a.len() == 0 {
        assert(a + b =~~= b);
        assert(nonempty_of(a) + nonempty_of(b) =~~= nonempty_of(b));
    } else {
        let s = a + b;
        assert(s[0] == a[0]);
        assert(s.drop_first() =~~= a.drop_first() + b);
        lemma_nonempty_of_add(a.drop_first(), b);
        if a[0].len() > 0 {
            assert(seq![a[0]] + (nonempty_of(a.drop_first()) + nonempty_of(b)) =~~= (seq![a[0]]
                + nonempty_of(a.drop_first())) + nonempty_of(b));
        }
    }
}

proof fn lemma_nonempty_of_singleton(x: Seq<char>)
    ensures
        x.len() > 0 ==> nonempty_of(seq![x]) == seq![x],
        x.len() == 0 ==> nonempty_of(seq![x]) == Seq::<Seq<char>>::empty(),
{
    let s = seq![x];
    assert(s.len() == 1);
    assert(s[0] == x);
    assert(s.drop_first() =~~= Seq::<Seq<char>>::empty());
    assert(nonempty_of(Seq::<Seq<char>>::empty()) == Seq::<Seq<char>>::empty());
    if x.len() > 0 {
        assert(nonempty_of(s) == seq![x] + nonempty_of(s.drop_first()));
        assert(seq![x] + Seq::<Seq<char>>::empty() =~~= seq![x]);
    } else {
        assert(nonempty_of(s) == nonempty_of(s.drop_first()));
    }
}

/// The fields joined back with `;` between consecutive fields.
pub open spec fn join_semi(v: Seq<Seq<char>>) -> Seq<char>
    decreases v.len(),
{
    if v.len() == 0 {
        Seq::empty()
    } else if v.len() == 1 {
        v[0]
    } else {
        v[0] + seq![';'] + join_semi(v.drop_first())
    }
}

proof fn lemma_split_char_len(s: Seq<char>, sep: char)
    ensures
        split_char(s, sep).len() >= 1,
    decreases s.len(),
{
    if s.len() > 0 {
        lemma_split_char_len(s.drop_first(), sep);
    }
}

/// A separator-free string splits into just itself.
proof fn lemma_split_char_no_sep(s: Seq<char>, sep: char)
    requires
        !has_char(s, sep),
    ensures
        split_char(s, sep) == seq![s],
    decreases s.len(),
{
    if s.len() > 0 {
        assert(s[0] != sep);
        let t = s.drop_first();
        assert forall|i: int| 0 <= i < t.len() implies t[i] != sep by {
            assert(t[i] == s[i + 1]);
        }
        lemma_split_char_no_sep(t, sep);
        let rest = split_char(t, sep);
        assert(rest[0] == t);
        assert(seq![s[0]] + t =~= s);
        assert(rest.drop_first() =~= Seq::<Seq<char>>::empty());
        assert(split_char(s, sep) =~= seq![s]);
    }
}

/// Splitting at the first separator: a separator-free prefix becomes the
/// first field, and the rest splits on its own.
proof fn lemma_split_char_prefix(a: Seq<char>, b: Seq<char>, sep: char)
    requires
        !has_char(a, sep),
    ensures
        split_char(a + seq![sep] + b, sep) == seq![a] + split_char(b, sep),
    decreases a.len(),
{
    let s = a + seq![sep] + b;
    if a.len() == 0 {
        assert(s =~= seq![sep] + b);
        assert(s[0] == sep);
        assert(s.drop_first() =~= b);
        assert(seq![Seq::<char>::empty()] + split_char(b, sep) =~~= seq![a] + split_char(b, sep));
    } else {
        assert(s[0] == a[0]);
        assert(a[0] != sep);
        let a1 = a.drop_first();
        assert forall|i: int| 0 <= i < a1.len() implies a1[i] != sep by {
            assert(a1[i] == a[i + 1]);
        }
        lemma_split_char_prefix(a1, b, sep);
        assert(s.drop_first() =~= a1 + seq![sep] + b);
        let rest = split_char(s.drop_first(), sep);
        assert(rest == seq![a1] + split_char(b, sep));
        lemma_split_char_len(b, sep);
        assert(rest[0] == a1);
        assert(seq![s[0]] + rest[0] =~= a);
        assert(rest.drop_first() =~= split_char(b, sep));
        assert(split_char(s, sep) =~= seq![a] + split_char(b, sep));
    }
}

/// Appending one field to a non-empty list inserts one separator.
proof fn lemma_join_push(v: Seq<Seq<char>>, x: Seq<char>)
    ensures
        v.len() == 0 ==> join_semi(v.push(x)) == x,
        v.len() > 0 ==> join_semi(v.push(x)) == join_semi(v) + seq![';'] + x,
    decreases v.len(),
{
    let w = v.push(x);
    if v.len() == 0 {
        assert(w.len() == 1);
        assert(w[0] == x);
    } else if v.len() == 1 {
        assert(w.len() == 2);
        assert(w[0] == v[0]);
        assert(w.drop_first() =~= seq![x]);
        assert(join_semi(w.drop_first()) == x);
        assert(join_semi(v) == v[0]);
    } else {
        lemma_join_push(v.drop_first(), x);
        assert(w.drop_first() =~= v.drop_first().push(x));
        assert(w[0] == v[0]);
        assert(join_semi(w) == v[0] + seq![';'] + join_semi(v.drop_first().push(x)));
        assert(v[0] + seq![';'] + (join_semi(v.drop_first()) + seq![';'] + x) =~= (v[0]
            + seq![';'] + join_semi(v.drop_first())) + seq![';'] + x);
    }
}

/// Round trip: a list of non-empty, separator-free fields joined with `;`
/// and split again is recovered exactly.
pub proof fn lemma_entries_of_join(v: Seq<Seq<char>>)
    requires
        forall|i: int| 0 <= i < v.len() ==> (#[trigger] v[i]).len() > 0,
        forall|i: int| 0 <= i < v.len() ==> !has_char(#[trigger] v[i], ';'),
    ensures
        entries(join_semi(v)) == v,
    decreases v.len(),
{
    if v.len() == 0 {
        assert(join_semi(v) == Seq::<char>::empty());
        assert(split_raw(Seq::<char>::empty()) == seq![Seq::<char>::empty()]);
        assert(split_char(Seq::<char>::empty(), ';') == seq![Seq::<char>::empty()]);
        lemma_nonempty_of_singleton(Seq::<char>::empty());
        assert(entries(join_semi(v)) =~~= v);
    } else if v.len() == 1 {
        assert(join_semi(v) == v[0]);
        lemma_split_char_no_sep(v[0], ';');
        lemma_nonempty_of_singleton(v[0]);
        assert(entries(join_semi(v)) =~~= v);
    } else {
        let rest = v.drop_first();
        lemma_entries_of_join(rest);
        assert(join_semi(v) == v[0] + seq![';'] + join_semi(rest));
        lemma_split_char_prefix(v[0], join_semi(rest), ';');
        assert(split_raw(join_semi(v)) == seq![v[0]] + split_raw(join_semi(rest)));
        lemma_nonempty_of_add(seq![v[0]], split_raw(join_semi(rest)));
        lemma_nonempty_of_singleton(v[0]);
        assert(entries(join_semi(v)) == seq![v[0]] + rest);
        assert(seq![v[0]] + rest =~~= v);
    }
}

/// Splits `v` at `sep`, keeping every field, empty ones included.
pub fn split_fields(v: &Vec<char>, sep: char) -> (r: Vec<Vec<char>>)
    ensures
        r.deep_view() == split_char(v@, sep),
{
    let n = v.len();
    let mut segs: Vec<Vec<char>> = Vec::new();
    let mut start: usize = 0;
    proof {
        assert(v@.skip(0) =~= v@);
        assert(segs.deep_view() + split_char(v@, sep) =~~= split_char(v@, sep));
    }
    loop
        invariant_except_break
            split_char(v@, sep) == segs.deep_view() + split_char(v@.skip(start as int), sep),
        invariant
            start <= n,
            n == v@.len(),
        ensures
            segs.deep_view() == split_char(v@, sep),
        decreases n + 1 - start,
    {
        let found = find_char_from(v, sep, start);
        match found {
            Some(cut) => {
                let mut seg: Vec<char> = Vec::new();
                let mut k: usize = start;
                while k < cut
                    invariant
                        start <= k <= cut <= v@.len(),
                        seg@ == v@.subrange(start as int, k as int),
                    decreases cut - k,
                {
                    seg.push(v[k]);
                    assert(seg@ =~= v@.subrange(start as int, k + 1 as int));
                    k += 1;
                }
                proof {
                    let a = v@.subrange(start as int, cut as int);
                    assert forall|i: int| 0 <= i < a.len() implies a[i] != sep by {
                        assert(a[i] == v@[start + i]);
                    }
                    assert(v@.skip(start as int) =~= a + seq![sep] + v@.skip(cut + 1));
                    lemma_split_char_prefix(a, v@.skip(cut + 1), sep);
                    assert(segs.deep_view().push(a) =~~= segs.deep_view() + seq![a]);
                    assert((segs.deep_view() + seq![a]) + split_char(v@.skip(cut + 1), sep)
                        =~~= segs.deep_view() + (seq![a] + split_char(v@.skip(cut + 1), sep)));
                }
                let ghost old_segs = segs.deep_view();
                segs.push(seg);
                proof {
                    assert(segs.deep_view() =~~= old_segs.push(seg@));
                }
                start = cut + 1;
            },
            None => {
                let mut seg: Vec<char> = Vec::new();
                let mut k: usize = start;
                while k < n
                    invariant
                        start <= k <= n,
                        n == v@.len(),
                        seg@ == v@.subrange(start as int, k as int),
                    decreases n - k,
                {
                    seg.push(v[k]);
                    assert(seg@ =~= v@.subrange(start as int, k + 1 as int));
                    k += 1;
                }
                proof {
                    let a = v@.subrange(start as int, n as int);
                    assert(a =~= v@.skip(start as int));
                    assert forall|i: int| 0 <= i < a.len() implies a[i] != sep by {
                        assert(a[i] == v@[start + i]);
                    }
                    lemma_split_char_no_sep(a, sep);
                    assert(segs.deep_view().push(a) =~~= segs.deep_view() + seq![a]);
                }
                let ghost old_segs = segs.deep_view();
                segs.push(seg);
                proof {
                    assert(segs.deep_view() =~~= old_segs.push(seg@));
                }
                break;
            },
        }
    }
    segs
}

/// The non-empty `;`-separated fields of `v`, in order.
pub fn split_entries(v: &Vec<char>) -> (r: Vec<Vec<char>>)
    ensures
        r.deep_view() == entries(v@),
{
    let segs = split_fields(v, ';');
    let mut out: Vec<Vec<char>> = Vec::new();
    let mut i: usize = 0;
    while i < segs.len()
        invariant
            i <= segs@.len(),
            segs.deep_view() == split_raw(v@),
            out.deep_view() == nonempty_of(segs.deep_view().subrange(0, i as int)),
        decreases segs@.len() - i,
    {
        let ghost pre = segs.deep_view().subrange(0, i as int);
        let ghost x = segs.deep_view()[i as int];
        proof {
            assert(segs.deep_view().subrange(0, i + 1 as int) =~~= pre + seq![x]);
            lemma_nonempty_of_add(pre, seq![x]);
            lemma_nonempty_of_singleton(x);
            assert(x == segs@[i as int]@);
        }
        if segs[i].len() > 0 {
            let ghost old_out = out.deep_view();
            let seg = segs[i].clone();
            assert(seg@ == x);
            out.push(seg);
            proof {
                assert(out.deep_view() =~~= old_out.push(x));
                assert(old_out.push(x) =~~= old_out + seq![x]);
            }
        } else {
            proof {
                assert(nonempty_of(pre) + Seq::<Seq<char>>::empty() =~~= nonempty_of(pre));
            }
        }
        i += 1;
    }
    proof {
        assert(segs.deep_view().subrange(0, segs.deep_view().len() as int) =~~= segs.deep_view());
    }
    out
}

/// Joins fields with `;`, as the raw store value is written.
pub fn join_fields(v: &Vec<Vec<char>>) -> (r: Vec<char>)
    ensures
        r@ == join_semi(v.deep_view()),
{
    let mut out: Vec<char> = Vec::new();
    let mut i: usize = 0;
    while i < v.len()
        invariant
            i <= v@.len(),
            out@ == join_semi(v.deep_view().subrange(0, i as int)),
        decreases v@.len() - i,
    {
        let ghost pre = v.deep_view().subrange(0, i as int);
        let ghost out0 = out@;
        if i > 0 {
            out.push(';');
        }
        let mut k: usize = 0;
        let ghost out1 = out@;
        while k < v[i].len()
            invariant
                i < v@.len(),
                k <= v@[i as int]@.len(),
                out@ == out1 + v.deep_view()[i as int].subrange(0, k as int),
            decreases v@[i as int]@.len() - k,
        {
            out.push(v[i][k]);
            assert(out@ =~= out1 + v.deep_view()[i as int].subrange(0, k + 1 as int));
            k += 1;
        }
        proof {
            let x = v.deep_view()[i as int];
            assert(x.subrange(0, x.len() as int) =~= x);
            lemma_join_push(pre, x);
            assert(v.deep_view().subrange(0, i + 1 as int) =~~= pre.push(x));
            if i == 0 {
                assert(out@ =~= x);
            } else {
                assert(out1 =~= out0 + seq![';']);
                assert(out@ =~= (join_semi(pre) + seq![';']) + x);
                assert((join_semi(pre) + seq![';']) + x =~= join_semi(pre) + seq![';'] + x);
            }
        }
        i += 1;
    }
    proof {
        assert(v.deep_view().subrange(0, v.deep_view().len() as int) =~~= v.deep_view());
    }
    out
}


// ---------------------------------------------------------------------------
// Facts about trimming, stripping and splitting
// ---------------------------------------------------------------------------

proof fn lemma_trim_front_by_prop(s: Seq<char>, p: spec_fn(char) -> bool)
    ensures
        trim_front_by(s, p).len() > 0 ==> !p(trim_front_by(s, p)[0]),
    decreases s.len(),
{
    if s.len() > 0 && p(s[0]) {
        lemma_trim_front_by_prop(s.drop_first(), p);
    }
}

proof fn lemma_trim_back_by_prop(s: Seq<char>, p: spec_fn(char) -> bool)
    ensures
        trim_back_by(s, p).len() > 0 ==> !p(trim_back_by(s, p).last()),
    decreases s.len(),
{
    if s.len() > 0 && p(s.last()) {
        lemma_trim_back_by_prop(s.drop_last(), p);
    }
}

proof fn lemma_trim_back_by_head(s: Seq<char>, p: spec_fn(char) -> bool)
    ensures
        trim_back_by(s, p).len() > 0 ==> trim_back_by(s, p)[0] == s[0],
    decreases s.len(),
{
    if s.len() > 0 && p(s.last()) {
        lemma_trim_back_by_head(s.drop_last(), p);
        if trim_back_by(s, p).len() > 0 {
            assert(s.drop_last()[0] == s[0]);
        }
    }
}

proof fn lemma_trim_by_noop(s: Seq<char>, p: spec_fn(char) -> bool)
    requires
        s.len() > 0 ==> !p(s[0]),
        s.len() > 0 ==> !p(s.last()),
    ensures
        trim_by(s, p) == s,
{
    if s.len() == 0 {
        assert(trim_front_by(s, p) == s);
        assert(trim_back_by(s, p) == s);
    } else {
        assert(trim_front_by(s, p) == s);
        assert(trim_back_by(s, p) == s);
    }
}

proof fn lemma_trim_by_ends(s: Seq<char>, p: spec_fn(char) -> bool)
    ensures
        trim_by(s, p).len() > 0 ==> !p(trim_by(s, p)[0]),
        trim_by(s, p).len() > 0 ==> !p(trim_by(s, p).last()),
{
    let tf = trim_front_by(s, p);
    lemma_trim_front_by_prop(s, p);
    lemma_trim_back_by_prop(tf, p);
    lemma_trim_back_by_head(tf, p);
}

/// Trimming is idempotent: a trimmed string trims to itself.
pub proof fn lemma_trim_idempotent(s: Seq<char>)
    ensures
        trim(trim(s)) == trim(s),
{
    let p = |c: char| is_space_char(c);
    lemma_trim_by_ends(s, p);
    lemma_trim_by_noop(trim_by(s, p), p);
}

/// A non-empty string whose ends are not whitespace trims to itself.
pub proof fn lemma_trim_noop(s: Seq<char>)
    requires
        s.len() > 0 ==> !is_space_char(s[0]),
        s.len() > 0 ==> !is_space_char(s.last()),
    ensures
        trim(s) == s,
{
    let p = |c: char| is_space_char(c);
    lemma_trim_by_noop(s, p);
}

/// Wrapping a string that does not open with a quote in one pair of
/// quotes strips back to the same core.
pub proof fn lemma_strip_quote_wrap(t: Seq<char>)
    requires
        t.len() > 0,
        t[0] != '"',
    ensures
        strip_quotes(seq!['"'] + t + seq!['"']) == strip_quotes(t),
{
    let p = |c: char| c == '"';
    let q = seq!['"'] + t + seq!['"'];
    assert(q[0] == '"');
    assert(q.drop_first() =~= t + seq!['"']);
    assert((t + seq!['"'])[0] == t[0]);
    assert(trim_front_by(q, p) == trim_front_by(t + seq!['"'], p));
    assert(trim_front_by(t + seq!['"'], p) == t + seq!['"']);
    assert((t + seq!['"']).last() == '"');
    assert((t + seq!['"']).drop_last() =~= t);
    assert(trim_back_by(t + seq!['"'], p) == trim_back_by(t, p));
    assert(trim_front_by(t, p) == t);
    assert(strip_quotes(t) == trim_back_by(t, p));
}

/// Trimming introduces no character that was not already present.
pub proof fn lemma_trim_chars_subset(s: Seq<char>, c: char)
    requires
        !has_char(s, c),
    ensures
        !has_char(trim(s), c),
{
    let p = |x: char| is_space_char(x);
    lemma_trim_front_no_char(s, p, c);
    lemma_trim_back_no_char(trim_front_by(s, p), p, c);
}

proof fn lemma_trim_front_no_char(s: Seq<char>, p: spec_fn(char) -> bool, c: char)
    requires
        !has_char(s, c),
    ensures
        !has_char(trim_front_by(s, p), c),
    decreases s.len(),
{
    if s.len() > 0 && p(s[0]) {
        let t = s.drop_first();
        assert forall|i: int| 0 <= i < t.len() implies t[i] != c by {
            assert(t[i] == s[i + 1]);
        }
        lemma_trim_front_no_char(t, p, c);
    }
}

proof fn lemma_trim_back_no_char(s: Seq<char>, p: spec_fn(char) -> bool, c: char)
    requires
        !has_char(s, c),
    ensures
        !has_char(trim_back_by(s, p), c),
    decreases s.len(),
{
    if s.len() > 0 && p(s.last()) {
        let t = s.drop_last();
        assert forall|i: int| 0 <= i < t.len() implies t[i] != c by {
            assert(t[i] == s[i]);
        }
        lemma_trim_back_no_char(t, p, c);
    }
}

proof fn lemma_split_char_no_sep_elements(s: Seq<char>, sep: char)
    ensures
        forall|i: int|
            0 <= i < split_char(s, sep).len() ==> !has_char(#[trigger] split_char(s, sep)[i], sep),
    decreases s.len(),
{
    if s.len() == 0 {
        assert forall|i: int| 0 <= i < split_char(s, sep).len() implies !has_char(
            split_char(s, sep)[i],
            sep,
        ) by {
            assert(split_char(s, sep)[i] == s);
        }
    } else if s[0] == sep {
        lemma_split_char_no_sep_elements(s.drop_first(), sep);
        let rest = split_char(s.drop_first(), sep);
        assert forall|i: int| 0 <= i < split_char(s, sep).len() implies !has_char(
            split_char(s, sep)[i],
            sep,
        ) by {
            if i == 0 {
                assert(split_char(s, sep)[0] =~= Seq::<char>::empty());
            } else {
                assert(split_char(s, sep)[i] == rest[i - 1]);
            }
        }
    } else {
        lemma_split_char_no_sep_elements(s.drop_first(), sep);
        let rest = split_char(s.drop_first(), sep);
        lemma_split_char_len(s.drop_first(), sep);
        assert forall|i: int| 0 <= i < split_char(s, sep).len() implies !has_char(
            split_char(s, sep)[i],
            sep,
        ) by {
            if i == 0 {
                let head = seq![s[0]] + rest[0];
                assert(!has_char(rest[0], sep));
                assert forall|k: int| 0 <= k < head.len() implies head[k] != sep by {
                    if k == 0 {
                        assert(head[0] == s[0]);
                    } else {
                        assert(head[k] == rest[0][k - 1]);
                    }
                }
            } else {
                assert(split_char(s, sep)[i] == rest.drop_first()[i - 1]);
                assert(rest.drop_first()[i - 1] == rest[i]);
            }
        }
    }
}

proof fn lemma_nonempty_of_elements(v: Seq<Seq<char>>, sep: char)
    requires
        forall|i: int| 0 <= i < v.len() ==> !has_char(#[trigger] v[i], sep),
    ensures
        forall|i: int|
            0 <= i < nonempty_of(v).len() ==> !has_char(#[trigger] nonempty_of(v)[i], sep),
        forall|i: int| 0 <= i < nonempty_of(v).len() ==> (#[trigger] nonempty_of(v)[i]).len() > 0,
    decreases v.len(),
{
    if v.len() > 0 {
        let t = v.drop_first();
        assert forall|i: int| 0 <= i < t.len() implies !has_char(#[trigger] t[i], sep) by {
            assert(t[i] == v[i + 1]);
        }
        lemma_nonempty_of_elements(t, sep);
        if v[0].len() > 0 {
            assert forall|i: int| 0 <= i < nonempty_of(v).len() implies !has_char(
                #[trigger] nonempty_of(v)[i],
                sep,
            ) && nonempty_of(v)[i].len() > 0 by {
                if i == 0 {
                    assert(nonempty_of(v)[0] == v[0]);
                } else {
                    assert(nonempty_of(v)[i] == nonempty_of(t)[i - 1]);
                }
            }
        }
    }
}

/// The entries of a raw value never contain the separator and are never
/// empty.
pub proof fn lemma_entries_elements(s: Seq<char>)
    ensures
        forall|i: int| 0 <= i < entries(s).len() ==> !has_char(#[trigger] entries(s)[i], ';'),
        forall|i: int| 0 <= i < entries(s).len() ==> (#[trigger] entries(s)[i]).len() > 0,
{
    lemma_split_char_no_sep_elements(s, ';');
    lemma_nonempty_of_elements(split_raw(s), ';');
}

} // verus!
