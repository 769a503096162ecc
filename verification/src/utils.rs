//! Small path helpers: classification with a user name, `%VAR%` expansion,
//! the absoluteness heuristic and quoting.

use vstd::prelude::*;
use crate::context::{env_lookup, EnvVars};
use crate::models::{spec_categorize, PathCategory};
use crate::text;

verus! {

/// Classifies a path, treating `username`'s home directory as per-user.
pub fn categorize_path(path: &str, username: &str) -> (r: PathCategory)
    ensures
        r == spec_categorize(path@, Option::Some(username@)),
{
    let chars = text::chars_of(path);
    let user = text::chars_of(username);
    crate::models::categorize_chars(&chars, Some(&user))
}

// ---------------------------------------------------------------------------
// Environment variable expansion
// ---------------------------------------------------------------------------

/// One round of `%VAR%` expansion and recursion, with a fuel bound.
///
/// Each round finds the first `%...%` token; if its name resolves, every
/// occurrence of the token is replaced and scanning restarts, else the
/// string is left as it stands.  The fuel caps the number of rounds so
/// that self-referential variable values cannot recurse forever; an
/// unbounded scan would differ only on resolution chains deeper than
/// the input is long, and would never terminate on a cyclic one.
pub open spec fn expand_rounds(s: Seq<char>, env: Seq<(Seq<char>, Seq<char>)>, fuel: nat) -> Seq<
    char,
>
    decreases fuel,
{
    if fuel == 0 {
        s
    } else {
        match text::first_index_of(s, '%') {
            Option::None => s,
            Option::Some(i) => match text::first_index_of(s.skip(i + 1), '%') {
                Option::None => s,
                Option::Some(k) => {
                    let name = s.skip(i + 1).subrange(0, k);
                    match env_lookup(env, name) {
                        Option::None => s,
                        Option::Some(value) => expand_rounds(
                            text::replace_seq(s, seq!['%'] + name + seq!['%'], value),
                            env,
                            (fuel - 1) as nat,
                        ),
                    }
                },
            },
        }
    }
}

/// Full expansion of `s` against `env`: as many rounds as `s` has
/// characters, which a resolvable token needs three of.
pub open spec fn spec_expand(s: Seq<char>, env: Seq<(Seq<char>, Seq<char>)>) -> Seq<char> {
    expand_rounds(s, env, s.len())
}

/// Expands `%VAR%` tokens in a character vector.
pub fn expand_env_chars(v: &Vec<char>, env: &EnvVars) -> (r: Vec<char>)
    ensures
        r@ == spec_expand(v@, env@),
{
    let mut fuel: usize = v.len();
    let mut cur: Vec<char> = Vec::new();
    let mut k: usize = 0;
    while k < v.len()
        invariant
            k <= v@.len(),
            cur@ == v@.subrange(0, k as int),
        decreases v@.len() - k,
    {
        cur.push(v[k]);
        assert(cur@ =~= v@.subrange(0, k + 1 as int));
        k += 1;
    }
    proof {
        assert(v@.subrange(0, v@.len() as int) =~= v@);
    }
    loop
        invariant
            fuel >= 0,
            expand_rounds(v@, env@, v@.len()) == expand_rounds(cur@, env@, fuel as nat),
        ensures
            cur@ == expand_rounds(v@, env@, v@.len()),
        decreases fuel,
    {
        if fuel == 0 {
            break;
        }
        let start = match text::find_char_from(&cur, '%', 0) {
            Some(i) => i,
            None => {
                proof {
                    lemma_first_index_none(cur@, '%');
                }
                break;
            },
        };
        proof {
            lemma_first_index_at(cur@, '%', start as int);
        }
        let n = cur.len();
        assert(start < n);
        let close = match text::find_char_from(&cur, '%', start + 1) {
            Some(j) => j,
            None => {
                proof {
                    let tail = cur@.skip(start + 1);
                    assert forall|t: int| 0 <= t < tail.len() implies tail[t] != '%' by {
                        assert(tail[t] == cur@[start + 1 + t]);
                    }
                    lemma_first_index_none(tail, '%');
                }
                break;
            },
        };
        let ghost tail = cur@.skip(start + 1);
        proof {
            assert forall|t: int| 0 <= t < close - start - 1 implies tail[t] != '%' by {
                assert(tail[t] == cur@[start + 1 + t]);
            }
            assert(tail[close - start - 1] == cur@[close as int]);
            lemma_first_index_at(tail, '%', close - start - 1);
        }
        let mut name: Vec<char> = Vec::new();
        let mut k: usize = start + 1;
        while k < close
            invariant
                start + 1 <= k <= close <= cur@.len(),
                name@ == cur@.subrange(start + 1, k as int),
            decreases close - k,
        {
            name.push(cur[k]);
            assert(name@ =~= cur@.subrange(start + 1, k + 1 as int));
            k += 1;
        }
        proof {
            assert(name@ =~= tail.subrange(0, close - start - 1));
        }
        let value = match env.get_chars(&name) {
            Some(v) => v,
            None => {
                break;
            },
        };
        let mut pattern: Vec<char> = Vec::new();
        pattern.push('%');
        let mut k: usize = 0;
        while k < name.len()
            invariant
                k <= name@.len(),
                pattern@ == seq!['%'] + name@.subrange(0, k as int),
            decreases name@.len() - k,
        {
            pattern.push(name[k]);
            assert(pattern@ =~= seq!['%'] + name@.subrange(0, k + 1 as int));
            k += 1;
        }
        pattern.push('%');
        proof {
            assert(name@.subrange(0, name@.len() as int) =~= name@);
            assert(pattern@ =~= seq!['%'] + name@ + seq!['%']);
        }
        let replaced = text::replace_all(&cur, &pattern, &value);
        cur = replaced;
        fuel = fuel - 1;
    }
    cur
}

proof fn lemma_first_index_none(s: Seq<char>, c: char)
    requires
        forall|k: int| 0 <= k < s.len() ==> s[k] != c,
    ensures
        text::first_index_of(s, c) is None,
    decreases s.len(),
{
    if s.len() > 0 {
        let t = s.drop_first();
        assert forall|k: int| 0 <= k < t.len() implies t[k] != c by {
            assert(t[k] == s[k + 1]);
        }
        lemma_first_index_none(t, c);
    }
}

proof fn lemma_first_index_at(s: Seq<char>, c: char, i: int)
    requires
        0 <= i < s.len(),
        s[i] == c,
        forall|k: int| 0 <= k < i ==> s[k] != c,
    ensures
        text::first_index_of(s, c) == Option::Some(i),
    decreases i,
{
    if i == 0 {
    } else {
        let t = s.drop_first();
        assert(s[0] != c);
        assert(t[i - 1] == c);
        assert forall|k: int| 0 <= k < i - 1 implies t[k] != c by {
            assert(t[k] == s[k + 1]);
        }
        lemma_first_index_at(t, c, i - 1);
    }
}

/// Expands every resolvable `%VAR%` token of `path` against `env`.
pub fn expand_env_vars(path: &str, env: &EnvVars) -> (r: String)
    ensures
        r@ == spec_expand(path@, env@),
{
    let chars = text::chars_of(path);
    let expanded = expand_env_chars(&chars, env);
    text::string_from_chars(&expanded)
}

// ---------------------------------------------------------------------------
// Absoluteness and quoting
// ---------------------------------------------------------------------------

/// The absoluteness heuristic: a drive separator, a leading quote or an
/// unexpanded `%` all count as absolute.
pub open spec fn spec_is_absolute(s: Seq<char>) -> bool {
    let t = text::trim(s);
    text::has_char(t, ':') || (t.len() > 0 && t[0] == '"') || text::has_char(t, '%')
}

/// Whether `path` looks absolute.
pub fn is_absolute_path(path: &str) -> (r: bool)
    ensures
        r == spec_is_absolute(path@),
{
    let chars = text::chars_of(path);
    let trimmed = text::trim_chars(&chars);
    text::contains_char(&trimmed, ':') || (trimmed.len() > 0 && trimmed[0] == '"')
        || text::contains_char(&trimmed, '%')
}

/// A path with a space and no leading quote, wrapped in quotes; anything
/// else unchanged.
pub open spec fn spec_quote_if_needed(s: Seq<char>) -> Seq<char> {
    if text::has_char(s, ' ') && !(s.len() > 0 && s[0] == '"') {
        seq!['"'] + s + seq!['"']
    } else {
        s
    }
}

/// Quotes `path` when it has a space and no leading quote.
pub fn quote_if_needed(path: &str) -> (r: String)
    ensures
        r@ == spec_quote_if_needed(path@),
{
    let chars = text::chars_of(path);
    let quoted = quote_if_needed_chars(&chars);
    text::string_from_chars(&quoted)
}

/// The same quoting step on a character vector.
pub fn quote_if_needed_chars(v: &Vec<char>) -> (r: Vec<char>)
    ensures
        r@ == spec_quote_if_needed(v@),
{
    if text::contains_char(v, ' ') && !(v.len() > 0 && v[0] == '"') {
        let mut out: Vec<char> = Vec::new();
        out.push('"');
        let mut k: usize = 0;
        while k < v.len()
            invariant
                k <= v@.len(),
                out@ == seq!['"'] + v@.subrange(0, k as int),
            decreases v@.len() - k,
        {
            out.push(v[k]);
            assert(out@ =~= seq!['"'] + v@.subrange(0, k + 1 as int));
            k += 1;
        }
        out.push('"');
        proof {
            assert(v@.subrange(0, v@.len() as int) =~= v@);
            assert(out@ =~= seq!['"'] + v@ + seq!['"']);
        }
        out
    } else {
        let mut out: Vec<char> = Vec::new();
        let mut k: usize = 0;
        while k < v.len()
            invariant
                k <= v@.len(),
                out@ == v@.subrange(0, k as int),
            decreases v@.len() - k,
        {
            out.push(v[k]);
            assert(out@ =~= v@.subrange(0, k + 1 as int));
            k += 1;
        }
        proof {
            assert(out@ =~= v@);
        }
        out
    }
}

/// Quoting is idempotent: a second pass never changes the string, because
/// the first pass either left it alone or gave it a leading quote.
pub proof fn lemma_quote_idempotent(s: Seq<char>)
    ensures
        spec_quote_if_needed(spec_quote_if_needed(s)) == spec_quote_if_needed(s),
{
    let q = spec_quote_if_needed(s);
    if text::has_char(s, ' ') && !(s.len() > 0 && s[0] == '"') {
        assert(q[0] == '"');
        assert(q.len() > 0);
    }
}

} // verus!
