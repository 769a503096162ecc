//! Injected models of the process environment and the filesystem.
//!
//! The analyses in this crate are pure: they never read the environment or
//! touch the disk themselves.  The caller snapshots both collaborators into
//! these read-only tables and hands them in, which keeps every analysis a
//! total function of its arguments.

use vstd::prelude::*;
use crate::text;

verus! {

/// First value paired with `name`, scanning left to right.
pub open spec fn env_lookup(pairs: Seq<(Seq<char>, Seq<char>)>, name: Seq<char>) -> Option<
    Seq<char>,
>
    decreases pairs.len(),
{
    if pairs.len() == 0 {
        Option::None
    } else if pairs[0].0 == name {
        Option::Some(pairs[0].1)
    } else {
        env_lookup(pairs.drop_first(), name)
    }
}

/// A snapshot of environment variables: name/value pairs, first match wins.
pub struct EnvVars {
    pairs: Vec<(String, String)>,
}

impl View for EnvVars {
    type V = Seq<(Seq<char>, Seq<char>)>;

    closed spec fn view(&self) -> Seq<(Seq<char>, Seq<char>)> {
        self.pairs.deep_view()
    }
}

impl EnvVars {
    /// An empty environment: every lookup misses.
    pub fn new() -> (r: EnvVars)
        ensures
            r@ == Seq::<(Seq<char>, Seq<char>)>::empty(),
    {
        let r = EnvVars { pairs: Vec::new() };
        proof {
            assert(r@ =~~= Seq::<(Seq<char>, Seq<char>)>::empty());
        }
        r
    }

    /// Appends one variable; an earlier definition of the same name wins.
    pub fn define(&mut self, name: &str, value: &str)
        ensures
            final(self)@ == old(self)@.push((name@, value@)),
    {
        let pair = (name.to_owned(), value.to_owned());
        let ghost expected = self@.push((name@, value@));
        self.pairs.push(pair);
        proof {
            assert(self@ =~~= expected);
        }
    }

    /// Value of the first pair named `name`, if any.
    pub fn get_chars(&self, name: &Vec<char>) -> (r: Option<Vec<char>>)
        ensures
            match r {
                Option::Some(v) => env_lookup(self@, name@) == Option::Some(v@),
                Option::None => env_lookup(self@, name@) == Option::<Seq<char>>::None,
            },
    {
        let n = self.pairs.len();
        let mut i: usize = 0;
        proof {
            assert(self@.skip(0) =~~= self@);
        }
        while i < n
            invariant
                i <= n,
                n == self.pairs@.len(),
                env_lookup(self@, name@) == env_lookup(self@.skip(i as int), name@),
            decreases n - i,
        {
            let ghost tail = self@.skip(i as int);
            proof {
                assert(tail[0] == self@[i as int]);
                assert(tail.drop_first() =~~= self@.skip(i + 1));
            }
            let key = text::chars_of(self.pairs[i].0.as_str());
            if eq_chars(&key, name) {
                let value = text::chars_of(self.pairs[i].1.as_str());
                return Some(value);
            }
            i += 1;
        }
        proof {
            assert(self@.skip(n as int) =~~= Seq::<(Seq<char>, Seq<char>)>::empty());
        }
        None
    }
}

/// Character-wise equality of two vectors.
pub fn eq_chars(a: &Vec<char>, b: &Vec<char>) -> (r: bool)
    ensures
        r == (a@ == b@),
{
    if a.len() != b.len() {
        return false;
    }
    let mut i: usize = 0;
    while i < a.len()
        invariant
            i <= a@.len(),
            a@.len() == b@.len(),
            forall|k: int| 0 <= k < i ==> a@[k] == b@[k],
        decreases a@.len() - i,
    {
        if a[i] != b[i] {
            return false;
        }
        i += 1;
    }
    proof {
        assert(a@ =~= b@);
    }
    true
}

/// Whether some listed path equals `path` up to ASCII case, the
/// comparison Windows itself applies to filenames.
pub open spec fn fs_has(listed: Seq<Seq<char>>, path: Seq<char>) -> bool {
    exists|i: int| 0 <= i < listed.len() && text::lower(#[trigger] listed[i]) == text::lower(path)
}

/// A snapshot of the filesystem: the paths that exist, compared
/// case-insensitively as Windows does.
pub struct FsSnapshot {
    present: Vec<String>,
}

impl View for FsSnapshot {
    type V = Seq<Seq<char>>;

    closed spec fn view(&self) -> Seq<Seq<char>> {
        self.present.deep_view()
    }
}

impl FsSnapshot {
    /// A snapshot on which nothing exists.
    pub fn new() -> (r: FsSnapshot)
        ensures
            r@ == Seq::<Seq<char>>::empty(),
    {
        let r = FsSnapshot { present: Vec::new() };
        proof {
            assert(r@ =~~= Seq::<Seq<char>>::empty());
        }
        r
    }

    /// Records `path` as existing.
    pub fn add(&mut self, path: &str)
        ensures
            final(self)@ == old(self)@.push(path@),
    {
        let ghost expected = self@.push(path@);
        self.present.push(path.to_owned());
        proof {
            assert(self@ =~~= expected);
        }
    }

    /// Existence check against the snapshot, ignoring ASCII case.
    pub fn exists_chars(&self, path: &Vec<char>) -> (r: bool)
        ensures
            r == fs_has(self@, path@),
    {
        let want = text::to_lower(path);
        let n = self.present.len();
        let mut i: usize = 0;
        while i < n
            invariant
                i <= n,
                n == self.present@.len(),
                want@ == text::lower(path@),
                forall|k: int| 0 <= k < i ==> text::lower(#[trigger] self@[k]) != text::lower(
                    path@,
                ),
            decreases n - i,
        {
            let cand = text::chars_of(self.present[i].as_str());
            let cand_lower = text::to_lower(&cand);
            if eq_chars(&cand_lower, &want) {
                assert(text::lower(self@[i as int]) == text::lower(path@));
                return true;
            }
            i += 1;
        }
        false
    }
}

} // verus!
