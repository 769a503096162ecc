//! Hijack-candidate generation and verification.
//!
//! For an unquoted path with spaces, the loader may resolve a truncated
//! executable name before the full directory.  This module derives the
//! exact candidate files an attacker would plant, and classifies a path
//! as a real threat only when a candidate actually exists.

use vstd::prelude::*;
use crate::context::{fs_has, FsSnapshot};
use crate::text;

verus! {

/// `p` cut at its first space, or all of `p` when it has none.
pub open spec fn first_space_cut(p: Seq<char>) -> Seq<char> {
    match text::first_index_of(p, ' ') {
        Option::Some(i) => p.subrange(0, i),
        Option::None => p,
    }
}

/// The hijack prefixes of the remaining segments, where `acc` is the
/// directory walked so far.  The final segment never yields a prefix.
/// A prefix is emitted once the walk holds a space: cut at the space
/// when the segment itself carries one, whole otherwise.
pub open spec fn prefixes_from(segs: Seq<Seq<char>>, acc: Seq<char>) -> Seq<Seq<char>>
    decreases segs.len(),
{
    if segs.len() <= 1 {
        Seq::<Seq<char>>::empty()
    } else {
        let accum = if acc.len() == 0 {
            segs[0]
        } else {
            acc + seq!['\\'] + segs[0]
        };
        let emitted = if text::has_char(accum, ' ') {
            if text::has_char(segs[0], ' ') {
                seq![first_space_cut(accum)]
            } else {
                seq![accum]
            }
        } else {
            Seq::<Seq<char>>::empty()
        };
        emitted + prefixes_from(segs.drop_first(), accum)
    }
}

/// Each prefix paired with each extension, prefixes outermost.
pub open spec fn with_extensions(ps: Seq<Seq<char>>) -> Seq<Seq<char>>
    decreases ps.len(),
{
    if ps.len() == 0 {
        Seq::<Seq<char>>::empty()
    } else {
        seq![
            ps[0] + ".exe"@,
            ps[0] + ".com"@,
            ps[0] + ".bat"@,
            ps[0] + ".cmd"@,
        ] + with_extensions(ps.drop_first())
    }
}

/// All hijack candidates of one path string.
pub open spec fn spec_exploit_paths(path: Seq<char>) -> Seq<Seq<char>> {
    with_extensions(
        prefixes_from(
            text::split_char(text::strip_quotes(path), '\\'),
            Seq::<char>::empty(),
        ),
    )
}

/// Cuts a prefix at its first space, if the walk demands it.
fn cut_or_keep(accum: &Vec<char>, seg_has_space: bool) -> (r: Vec<char>)
    ensures
        seg_has_space ==> r@ == first_space_cut(accum@),
        !seg_has_space ==> r@ == accum@,
{
    if seg_has_space {
        match text::find_char_from(accum, ' ', 0) {
            Some(i) => {
                proof {
                    lemma_first_space_at(accum@, i as int);
                }
                let mut out: Vec<char> = Vec::new();
                let mut k: usize = 0;
                while k < i
                    invariant
                        k <= i <= accum@.len(),
                        out@ == accum@.subrange(0, k as int),
                    decreases i - k,
                {
                    out.push(accum[k]);
                    assert(out@ =~= accum@.subrange(0, k + 1 as int));
                    k += 1;
                }
                out
            },
            None => {
                proof {
                    lemma_first_space_none(accum@);
                }
                copy_chars(accum)
            },
        }
    } else {
        copy_chars(accum)
    }
}

fn copy_chars(v: &Vec<char>) -> (r: Vec<char>)
    ensures
        r@ == v@,
{
    let mut out: Vec<char> = Vec::new();
    let mut k: usize = 0;
    while k < v.len()
        invariant
            k <= v@.len(),
            out@ == v@.subrange(0, k as int),
        decreases v@.len() - k,
    {
        out.push(v[k]);
        assert(out@ =~= v@.subrange(0, k + 1 as int));
        k += 1;
    }
    proof {
        assert(v@.subrange(0, v@.len() as int) =~= v@);
    }
    out
}

proof fn lemma_first_space_at(s: Seq<char>, i: int)
    requires
        0 <= i < s.len(),
        s[i] == ' ',
        forall|k: int| 0 <= k < i ==> s[k] != ' ',
    ensures
        first_space_cut(s) == s.subrange(0, i),
    decreases i,
{
    lemma_first_index_at_space(s, i);
}

proof fn lemma_first_index_at_space(s: Seq<char>, i: int)
    requires
        0 <= i < s.len(),
        s[i] == ' ',
        forall|k: int| 0 <= k < i ==> s[k] != ' ',
    ensures
        text::first_index_of(s, ' ') == Option::Some(i),
    decreases i,
{
    if i == 0 {
    } else {
        let t = s.drop_first();
        assert(t[i - 1] == ' ');
        assert forall|k: int| 0 <= k < i - 1 implies t[k] != ' ' by {
            assert(t[k] == s[k + 1]);
        }
        lemma_first_index_at_space(t, i - 1);
    }
}

proof fn lemma_first_space_none(s: Seq<char>)
    requires
        forall|k: int| 0 <= k < s.len() ==> s[k] != ' ',
    ensures
        first_space_cut(s) == s,
    decreases s.len(),
{
    lemma_first_index_none_space(s);
}

proof fn lemma_first_index_none_space(s: Seq<char>)
    requires
        forall|k: int| 0 <= k < s.len() ==> s[k] != ' ',
    ensures
        text::first_index_of(s, ' ') is None,
    decreases s.len(),
{
    if s.len() > 0 {
        let t = s.drop_first();
        assert forall|k: int| 0 <= k < t.len() implies t[k] != ' ' by {
            assert(t[k] == s[k + 1]);
        }
        lemma_first_index_none_space(t);
    }
}

/// Appends one prefix's four candidates to `out`.
fn push_candidates(out: &mut Vec<String>, prefix: &Vec<char>)
    ensures
        final(out).deep_view() == old(out).deep_view() + seq![
            prefix@ + ".exe"@,
            prefix@ + ".com"@,
            prefix@ + ".bat"@,
            prefix@ + ".cmd"@,
        ],
{
    let ghost before = out.deep_view();
    let mut one = copy_chars(prefix);
    one.push('.');
    one.push('e');
    one.push('x');
    one.push('e');
    assert(one@ =~= prefix@ + ".exe"@) by {
        reveal_strlit(".exe");
    }
    out.push(text::string_from_chars(&one));

    let mut two = copy_chars(prefix);
    two.push('.');
    two.push('c');
    two.push('o');
    two.push('m');
    assert(two@ =~= prefix@ + ".com"@) by {
        reveal_strlit(".com");
    }
    out.push(text::string_from_chars(&two));

    let mut three = copy_chars(prefix);
    three.push('.');
    three.push('b');
    three.push('a');
    three.push('t');
    assert(three@ =~= prefix@ + ".bat"@) by {
        reveal_strlit(".bat");
    }
    out.push(text::string_from_chars(&three));

    let mut four = copy_chars(prefix);
    four.push('.');
    four.push('c');
    four.push('m');
    four.push('d');
    assert(four@ =~= prefix@ + ".cmd"@) by {
        reveal_strlit(".cmd");
    }
    out.push(text::string_from_chars(&four));

    proof {
        assert(out.deep_view() =~~= before + seq![
            prefix@ + ".exe"@,
            prefix@ + ".com"@,
            prefix@ + ".bat"@,
            prefix@ + ".cmd"@,
        ]);
    }
}

proof fn lemma_with_extensions_add(a: Seq<Seq<char>>, b: Seq<Seq<char>>)
    ensures
        with_extensions(a + b) == with_extensions(a) + with_extensions(b),
    decreases a.len(),
{
    if a.len() == 0 {
        assert(a + b =~~= b);
        assert(with_extensions(a) + with_extensions(b) =~~= with_extensions(b));
    } else {
        let s = a + b;
        assert(s[0] == a[0]);
        assert(s.drop_first() =~~= a.drop_first() + b);
        lemma_with_extensions_add(a.drop_first(), b);
        assert(seq![a[0] + ".exe"@, a[0] + ".com"@, a[0] + ".bat"@, a[0] + ".cmd"@]
            + (with_extensions(a.drop_first()) + with_extensions(b)) =~~= (seq![
            a[0] + ".exe"@,
            a[0] + ".com"@,
            a[0] + ".bat"@,
            a[0] + ".cmd"@,
        ] + with_extensions(a.drop_first())) + with_extensions(b));
    }
}

proof fn lemma_with_extensions_singleton(p: Seq<char>)
    ensures
        with_extensions(seq![p]) == seq![p + ".exe"@, p + ".com"@, p + ".bat"@, p + ".cmd"@],
{
    let s = seq![p];
    assert(s.drop_first() =~~= Seq::<Seq<char>>::empty());
    assert(with_extensions(Seq::<Seq<char>>::empty()) =~~= Seq::<Seq<char>>::empty());
    assert(with_extensions(s) =~~= seq![p + ".exe"@, p + ".com"@, p + ".bat"@, p + ".cmd"@]);
}

/// Generates the hijack candidates of one PATH entry: for every
/// directory level before the last whose walk contains a space, the
/// truncated name with each executable extension.
pub fn generate_exploit_paths(path: &str) -> (r: Vec<String>)
    ensures
        r.deep_view() == spec_exploit_paths(path@),
{
    let chars = text::chars_of(path);
    let clean = text::strip_quote_chars(&chars);
    let segs = text::split_fields(&clean, '\\');
    let n = segs.len();
    let mut out: Vec<String> = Vec::new();
    let mut acc: Vec<char> = Vec::new();
    let mut j: usize = 0;
    proof {
        assert(segs.deep_view().skip(0) =~~= segs.deep_view());
        assert(out.deep_view() =~~= Seq::<Seq<char>>::empty());
        assert(with_extensions(
            prefixes_from(segs.deep_view(), Seq::<char>::empty()),
        ) == spec_exploit_paths(path@));
        assert(Seq::<Seq<char>>::empty() + with_extensions(
            prefixes_from(segs.deep_view().skip(0), acc@),
        ) =~~= with_extensions(prefixes_from(segs.deep_view(), Seq::<char>::empty())));
    }
    while n > 1 && j < n - 1
        invariant
            j < n || n == 0,
            n == segs@.len(),
            spec_exploit_paths(path@) == out.deep_view() + with_extensions(
                prefixes_from(segs.deep_view().skip(j as int), acc@),
            ),
        decreases n - j,
    {
        let ghost tail = segs.deep_view().skip(j as int);
        proof {
            assert(tail[0] == segs.deep_view()[j as int]);
            assert(tail.drop_first() =~~= segs.deep_view().skip(j + 1));
        }
        let seg = &segs[j];
        assert(seg@ == tail[0]);
        let accum = if acc.len() == 0 {
            copy_chars(seg)
        } else {
            let mut a = copy_chars(&acc);
            a.push('\\');
            let ghost mid = a@;
            let mut k: usize = 0;
            while k < seg.len()
                invariant
                    k <= seg@.len(),
                    a@ == mid + seg@.subrange(0, k as int),
                decreases seg@.len() - k,
            {
                a.push(seg[k]);
                assert(a@ =~= mid + seg@.subrange(0, k + 1 as int));
                k += 1;
            }
            proof {
                assert(seg@.subrange(0, seg@.len() as int) =~= seg@);
                assert(a@ =~= acc@ + seq!['\\'] + seg@);
            }
            a
        };
        let ghost accum_spec = if acc@.len() == 0 {
            tail[0]
        } else {
            acc@ + seq!['\\'] + tail[0]
        };
        assert(accum@ == accum_spec);
        if text::contains_char(&accum, ' ') {
            let seg_has_space = text::contains_char(seg, ' ');
            let prefix = cut_or_keep(&accum, seg_has_space);
            let ghost emitted = if seg_has_space {
                seq![first_space_cut(accum_spec)]
            } else {
                seq![accum_spec]
            };
            let ghost before = out.deep_view();
            push_candidates(&mut out, &prefix);
            proof {
                lemma_with_extensions_singleton(prefix@);
                lemma_with_extensions_add(emitted, prefixes_from(tail.drop_first(), accum_spec));
                assert(prefixes_from(tail, acc@) == emitted + prefixes_from(
                    tail.drop_first(),
                    accum_spec,
                ));
                assert(before + (with_extensions(emitted) + with_extensions(
                    prefixes_from(tail.drop_first(), accum_spec),
                )) =~~= (before + with_extensions(emitted)) + with_extensions(
                    prefixes_from(tail.drop_first(), accum_spec),
                ));
            }
        } else {
            proof {
                assert(prefixes_from(tail, acc@) == prefixes_from(tail.drop_first(), accum_spec));
            }
        }
        acc = accum;
        j += 1;
    }
    proof {
        let tail = segs.deep_view().skip(j as int);
        assert(tail.len() <= 1);
        assert(prefixes_from(tail, acc@) =~~= Seq::<Seq<char>>::empty());
        assert(with_extensions(Seq::<Seq<char>>::empty()) =~~= Seq::<Seq<char>>::empty());
        assert(out.deep_view() + Seq::<Seq<char>>::empty() =~~= out.deep_view());
    }
    out
}

/// The verdict on one flagged path.
pub struct ExploitCheck {
    pub path: String,
    pub found_exploits: Vec<String>,
    pub is_real_threat: bool,
}

/// The candidates of `cands` that exist on the snapshot, in order.
pub open spec fn existing_of(cands: Seq<Seq<char>>, fs: Seq<Seq<char>>) -> Seq<Seq<char>>
    decreases cands.len(),
{
    if cands.len() == 0 {
        cands
    } else if fs_has(fs, cands[0]) {
        seq![cands[0]] + existing_of(cands.drop_first(), fs)
    } else {
        existing_of(cands.drop_first(), fs)
    }
}

/// Checks one flagged path against the snapshot: generates its
/// candidates, keeps those that exist, and calls the path a real threat
/// exactly when at least one candidate exists.
pub fn verify_exploitability(path: &str, fs: &FsSnapshot) -> (r: ExploitCheck)
    ensures
        r.path@ == path@,
        r.found_exploits.deep_view() == existing_of(spec_exploit_paths(path@), fs@),
        r.is_real_threat == (existing_of(spec_exploit_paths(path@), fs@).len() > 0),
{
    let candidates = generate_exploit_paths(path);
    let n = candidates.len();
    let mut found: Vec<String> = Vec::new();
    let mut i: usize = 0;
    proof {
        assert(candidates.deep_view().skip(0) =~~= candidates.deep_view());
        assert(found.deep_view() + existing_of(candidates.deep_view(), fs@) =~~= existing_of(
            candidates.deep_view(),
            fs@,
        ));
    }
    while i < n
        invariant
            i <= n,
            n == candidates@.len(),
            existing_of(candidates.deep_view(), fs@) == found.deep_view() + existing_of(
                candidates.deep_view().skip(i as int),
                fs@,
            ),
        decreases n - i,
    {
        let ghost tail = candidates.deep_view().skip(i as int);
        proof {
            assert(tail[0] == candidates.deep_view()[i as int]);
            assert(tail.drop_first() =~~= candidates.deep_view().skip(i + 1));
        }
        let cand = text::chars_of(candidates[i].as_str());
        assert(cand@ == tail[0]);
        if fs.exists_chars(&cand) {
            let ghost before = found.deep_view();
            found.push(text::string_from_chars(&cand));
            proof {
                assert(found.deep_view() =~~= before.push(tail[0]));
                assert(before.push(tail[0]) =~~= before + seq![tail[0]]);
                assert((before + seq![tail[0]]) + existing_of(tail.drop_first(), fs@)
                    =~~= before + (seq![tail[0]] + existing_of(tail.drop_first(), fs@)));
            }
        }
        i += 1;
    }
    proof {
        assert(candidates.deep_view().skip(n as int) =~~= Seq::<Seq<char>>::empty());
        assert(existing_of(Seq::<Seq<char>>::empty(), fs@) =~~= Seq::<Seq<char>>::empty());
        assert(found.deep_view() + Seq::<Seq<char>>::empty() =~~= found.deep_view());
    }
    let is_real_threat = found.len() > 0;
    ExploitCheck { path: path.to_owned(), found_exploits: found, is_real_threat }
}

} // verus!
