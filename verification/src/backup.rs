//! The backup store: timestamped snapshots of both raw store values,
//! written as a fixed record format, validated on restore, and capped
//! by a retention limit.
//!
//! The store only computes names, contents and verdicts; the caller
//! reads the clock, the directory and the files, and writes or deletes
//! them.

use vstd::prelude::*;
use crate::constants;
use crate::error::SpathError;
use crate::text;

verus! {

// ---------------------------------------------------------------------------
// Timestamps
// ---------------------------------------------------------------------------

/// The digit character of `d`.
pub open spec fn digit_char(d: nat) -> char
    recommends
        d < 10,
{
    ((48 + d) as u8) as char
}

/// `n` as two zero-padded digits.
pub open spec fn two_digits(n: nat) -> Seq<char>
    recommends
        n < 100,
{
    seq![digit_char(n / 10), digit_char(n % 10)]
}

/// `n` as four zero-padded digits.
pub open spec fn four_digits(n: nat) -> Seq<char>
    recommends
        n < 10000,
{
    seq![
        digit_char(n / 1000),
        digit_char((n / 100) % 10),
        digit_char((n / 10) % 10),
        digit_char(n % 10),
    ]
}

/// The sortable backup timestamp: date, an underscore, then the time.
pub open spec fn spec_timestamp(
    year: nat,
    month: nat,
    day: nat,
    hour: nat,
    minute: nat,
    second: nat,
) -> Seq<char> {
    four_digits(year) + two_digits(month) + two_digits(day) + seq!['_'] + two_digits(hour)
        + two_digits(minute) + two_digits(second)
}

fn push_digit(out: &mut Vec<char>, d: u32)
    requires
        d < 10,
    ensures
        final(out)@ == old(out)@.push(digit_char(d as nat)),
{
    out.push(((48 + d) as u8) as char);
}

fn push_two(out: &mut Vec<char>, n: u32)
    requires
        n < 100,
    ensures
        final(out)@ == old(out)@ + two_digits(n as nat),
{
    let ghost before = out@;
    push_digit(out, n / 10);
    push_digit(out, n % 10);
    proof {
        assert(out@ =~= before + two_digits(n as nat));
    }
}

/// Formats the clock reading the caller took into the fixed, sortable
/// timestamp form.
pub fn format_timestamp(year: u32, month: u32, day: u32, hour: u32, minute: u32, second: u32)
    -> (r: String)
    requires
        year < 10000,
        month < 100,
        day < 100,
        hour < 100,
        minute < 100,
        second < 100,
    ensures
        r@ == spec_timestamp(
            year as nat,
            month as nat,
            day as nat,
            hour as nat,
            minute as nat,
            second as nat,
        ),
{
    let mut out: Vec<char> = Vec::new();
    push_digit(&mut out, year / 1000);
    push_digit(&mut out, (year / 100) % 10);
    push_digit(&mut out, (year / 10) % 10);
    push_digit(&mut out, year % 10);
    push_two(&mut out, month);
    push_two(&mut out, day);
    out.push('_');
    push_two(&mut out, hour);
    push_two(&mut out, minute);
    push_two(&mut out, second);
    proof {
        assert(out@ =~= spec_timestamp(
            year as nat,
            month as nat,
            day as nat,
            hour as nat,
            minute as nat,
            second as nat,
        ));
    }
    text::string_from_chars(&out)
}

// ---------------------------------------------------------------------------
// The record and its file format
// ---------------------------------------------------------------------------

/// One snapshot of both stores; the system half is absent when that
/// store could not be read.
#[derive(Debug)]
pub struct PathBackup {
    pub timestamp: String,
    pub user_path: String,
    pub system_path: Option<String>,
}

/// Backslashes and quotes escaped for the record format.
pub open spec fn esc(s: Seq<char>) -> Seq<char>
    decreases s.len(),
{
    if s.len() == 0 {
        s
    } else {
        (if s[0] == '"' || s[0] == '\\' {
            seq!['\\', s[0]]
        } else {
            seq![s[0]]
        }) + esc(s.drop_first())
    }
}

/// The serialized record: three fixed fields, strings escaped, the
/// system half `null` when absent.
pub open spec fn spec_encode(ts: Seq<char>, up: Seq<char>, sys: Option<Seq<char>>) -> Seq<char> {
    "{\"timestamp\":\""@ + esc(ts) + "\",\"user_path\":\""@ + esc(up) + (match sys {
        Option::Some(sp) => "\",\"system_path\":\""@ + esc(sp) + "\"}"@,
        Option::None => "\",\"system_path\":null}"@,
    })
}

/// Parses one escaped string body starting at `i` (just after the
/// opening quote); yields the unescaped content and the index after the
/// closing quote.
pub open spec fn parse_string_body(s: Seq<char>, i: int) -> Option<(Seq<char>, int)>
    decreases s.len() - i when i >= 0
{
    if i < 0 || i >= s.len() {
        Option::None
    } else if s[i] == '"' {
        Option::Some((Seq::<char>::empty(), i + 1))
    } else if s[i] == '\\' {
        if i + 1 < s.len() && (s[i + 1] == '"' || s[i + 1] == '\\') {
            match parse_string_body(s, i + 2) {
                Option::Some((c, n)) => Option::Some((seq![s[i + 1]] + c, n)),
                Option::None => Option::None,
            }
        } else {
            Option::None
        }
    } else {
        match parse_string_body(s, i + 1) {
            Option::Some((c, n)) => Option::Some((seq![s[i]] + c, n)),
            Option::None => Option::None,
        }
    }
}

/// A parsed record, as specifications see it.
pub struct BackupSpec {
    pub timestamp: Seq<char>,
    pub user_path: Seq<char>,
    pub system_path: Option<Seq<char>>,
}

/// Whether `pat` occurs at offset `i` of `s`.
pub open spec fn at_offset(s: Seq<char>, i: int, pat: Seq<char>) -> bool {
    0 <= i && i + pat.len() <= s.len() && s.subrange(i, i + pat.len() as int) == pat
}

/// The deterministic parse of a serialized record.
pub open spec fn spec_decode(s: Seq<char>) -> Option<BackupSpec> {
    if !at_offset(s, 0, "{\"timestamp\":\""@) {
        Option::None
    } else {
        match parse_string_body(s, 14) {
            Option::None => Option::None,
            Option::Some((ts, i1)) => {
                if !at_offset(s, i1, ",\"user_path\":\""@) {
                    Option::None
                } else {
                    match parse_string_body(s, i1 + 14) {
                        Option::None => Option::None,
                        Option::Some((up, i2)) => {
                            if at_offset(s, i2, ",\"system_path\":null}"@) && i2 + 20 == s.len() {
                                Option::Some(
                                    BackupSpec {
                                        timestamp: ts,
                                        user_path: up,
                                        system_path: Option::None,
                                    },
                                )
                            } else if at_offset(s, i2, ",\"system_path\":\""@) {
                                match parse_string_body(s, i2 + 16) {
                                    Option::None => Option::None,
                                    Option::Some((sp, i3)) => {
                                        if at_offset(s, i3, "}"@) && i3 + 1 == s.len() {
                                            Option::Some(
                                                BackupSpec {
                                                    timestamp: ts,
                                                    user_path: up,
                                                    system_path: Option::Some(sp),
                                                },
                                            )
                                        } else {
                                            Option::None
                                        }
                                    },
                                }
                            } else {
                                Option::None
                            }
                        },
                    }
                }
            },
        }
    }
}

fn push_escaped(out: &mut Vec<char>, s: &str)
    ensures
        final(out)@ == old(out)@ + esc(s@),
{
    let chars = text::chars_of(s);
    let n = chars.len();
    let mut i: usize = 0;
    proof {
        assert(s@.skip(0) =~= s@);
        assert(old(out)@ + esc(s@) =~= old(out)@ + esc(s@.skip(0)));
    }
    while i < n
        invariant
            i <= n,
            n == chars@.len(),
            chars@ == s@,
            old(out)@ + esc(s@) == out@ + esc(s@.skip(i as int)),
        decreases n - i,
    {
        let ghost tail = s@.skip(i as int);
        proof {
            assert(tail[0] == s@[i as int]);
            assert(tail.drop_first() =~= s@.skip(i + 1));
        }
        let ghost before = out@;
        let c = chars[i];
        if c == '"' || c == '\\' {
            out.push('\\');
            out.push(c);
            proof {
                assert(out@ =~= before + seq!['\\', s@[i as int]]);
                assert((before + seq!['\\', s@[i as int]]) + esc(s@.skip(i + 1)) =~= before
                    + (seq!['\\', s@[i as int]] + esc(s@.skip(i + 1))));
            }
        } else {
            out.push(c);
            proof {
                assert(out@ =~= before + seq![s@[i as int]]);
                assert((before + seq![s@[i as int]]) + esc(s@.skip(i + 1)) =~= before + (seq![
                    s@[i as int],
                ] + esc(s@.skip(i + 1))));
            }
        }
        i += 1;
    }
    proof {
        assert(s@.skip(n as int) =~= Seq::<char>::empty());
        assert(esc(Seq::<char>::empty()) =~= Seq::<char>::empty());
        assert(out@ + Seq::<char>::empty() =~= out@);
    }
}

fn push_literal(out: &mut Vec<char>, s: &str)
    ensures
        final(out)@ == old(out)@ + s@,
{
    let chars = text::chars_of(s);
    let ghost before = out@;
    let mut i: usize = 0;
    while i < chars.len()
        invariant
            i <= chars@.len(),
            chars@ == s@,
            out@ == before + s@.subrange(0, i as int),
        decreases chars@.len() - i,
    {
        out.push(chars[i]);
        assert(out@ =~= before + s@.subrange(0, i + 1 as int));
        i += 1;
    }
    proof {
        assert(s@.subrange(0, s@.len() as int) =~= s@);
    }
}

impl PathBackup {
    /// Assembles one record from the caller's snapshot of both stores.
    pub fn build(timestamp: String, user_path: String, system_path: Option<String>) -> (r:
        PathBackup)
        ensures
            r.timestamp@ == timestamp@,
            r.user_path@ == user_path@,
            match system_path {
                Option::Some(s) => r.system_path matches Option::Some(t) && t@ == s@,
                Option::None => r.system_path is None,
            },
    {
        PathBackup { timestamp, user_path, system_path }
    }

    /// Serializes the record into the fixed file format.
    pub fn to_json(&self) -> (r: String)
        ensures
            r@ == spec_encode(
                self.timestamp@,
                self.user_path@,
                match self.system_path {
                    Option::Some(s) => Option::Some(s@),
                    Option::None => Option::<Seq<char>>::None,
                },
            ),
    {
        let mut out: Vec<char> = Vec::new();
        push_literal(&mut out, "{\"timestamp\":\"");
        push_escaped(&mut out, self.timestamp.as_str());
        push_literal(&mut out, "\",\"user_path\":\"");
        push_escaped(&mut out, self.user_path.as_str());
        match &self.system_path {
            Some(sp) => {
                push_literal(&mut out, "\",\"system_path\":\"");
                push_escaped(&mut out, sp.as_str());
                push_literal(&mut out, "\"}");
                proof {
                    assert(out@ =~= spec_encode(
                        self.timestamp@,
                        self.user_path@,
                        Option::Some(self.system_path->0@),
                    ));
                }
            },
            None => {
                push_literal(&mut out, "\",\"system_path\":null}");
                proof {
                    assert(out@ =~= spec_encode(
                        self.timestamp@,
                        self.user_path@,
                        Option::<Seq<char>>::None,
                    ));
                }
            },
        }
        text::string_from_chars(&out)
    }

    /// Parses a record file; a file that is not exactly a serialized
    /// record is rejected as corrupt.
    pub fn from_json(s: &str) -> (r: Result<PathBackup, SpathError>)
        ensures
            match r {
                Ok(b) => spec_decode(s@) matches Option::Some(m) && b.timestamp@ == m.timestamp
                    && b.user_path@ == m.user_path && (match (b.system_path, m.system_path) {
                    (Option::Some(x), Option::Some(y)) => x@ == y,
                    (Option::None, Option::None) => true,
                    _ => false,
                }),
                Err(e) => spec_decode(s@) is None && e is ParseError,
            },
    {
        let chars = text::chars_of(s);
        let head = text::chars_of("{\"timestamp\":\"");
        if !prefix_at(&chars, 0, &head) {
            return Err(SpathError::ParseError("not a backup record".to_owned()));
        }
        let ts = match scan_string_body(&chars, 14) {
            Some(pair) => pair,
            None => {
                return Err(SpathError::ParseError("unterminated timestamp".to_owned()));
            },
        };
        let (ts_chars, i1) = ts;
        let sep_user = text::chars_of(",\"user_path\":\"");
        proof {
            reveal_strlit(",\"user_path\":\"");
        }
        if !prefix_at(&chars, i1, &sep_user) {
            return Err(SpathError::ParseError("user_path field missing".to_owned()));
        }
        assert(i1 + 14 <= chars@.len());
        let up = match scan_string_body(&chars, i1 + 14) {
            Some(pair) => pair,
            None => {
                return Err(SpathError::ParseError("unterminated user_path".to_owned()));
            },
        };
        let (up_chars, i2) = up;
        let sep_null = text::chars_of(",\"system_path\":null}");
        proof {
            reveal_strlit(",\"system_path\":null}");
        }
        let null_here = prefix_at(&chars, i2, &sep_null);
        if null_here && i2 + 20 == chars.len() {
            return Ok(
                PathBackup {
                    timestamp: text::string_from_chars(&ts_chars),
                    user_path: text::string_from_chars(&up_chars),
                    system_path: None,
                },
            );
        }
        let sep_sys = text::chars_of(",\"system_path\":\"");
        proof {
            reveal_strlit(",\"system_path\":\"");
        }
        if prefix_at(&chars, i2, &sep_sys) {
            assert(i2 + 16 <= chars@.len());
            let sp = match scan_string_body(&chars, i2 + 16) {
                Some(pair) => pair,
                None => {
                    return Err(SpathError::ParseError("unterminated system_path".to_owned()));
                },
            };
            let (sp_chars, i3) = sp;
            let closing = text::chars_of("}");
            proof {
                reveal_strlit("}");
            }
            let close_here = prefix_at(&chars, i3, &closing);
            if close_here && i3 + 1 == chars.len() {
                return Ok(
                    PathBackup {
                        timestamp: text::string_from_chars(&ts_chars),
                        user_path: text::string_from_chars(&up_chars),
                        system_path: Some(text::string_from_chars(&sp_chars)),
                    },
                );
            }
            return Err(SpathError::ParseError("trailing content".to_owned()));
        }
        Err(SpathError::ParseError("system_path field missing".to_owned()))
    }
}

fn prefix_at(v: &Vec<char>, at: usize, pat: &Vec<char>) -> (r: bool)
    ensures
        r == at_offset(v@, at as int, pat@),
{
    let vlen = v.len();
    if at > vlen || pat.len() > vlen - at {
        return false;
    }
    let n = pat.len();
    let mut i: usize = 0;
    while i < n
        invariant
            i <= n,
            n == pat@.len(),
            vlen == v@.len(),
            at + n <= vlen,
            forall|k: int| 0 <= k < i ==> v@[at + k] == pat@[k],
        decreases n - i,
    {
        assert(at + i < vlen);
        if v[at + i] != pat[i] {
            assert(v@.subrange(at as int, at + pat@.len() as int)[i as int] != pat@[i as int]);
            return false;
        }
        i += 1;
    }
    assert(v@.subrange(at as int, at + pat@.len() as int) =~= pat@);
    true
}

fn scan_string_body(v: &Vec<char>, start: usize) -> (r: Option<(Vec<char>, usize)>)
    ensures
        match r {
            Option::Some(pair) => parse_string_body(v@, start as int) == Option::Some(
                (pair.0@, pair.1 as int),
            ) && start <= pair.1 <= v@.len(),
            Option::None => parse_string_body(v@, start as int) is None,
        },
    decreases v@.len() - start,
{
    let n = v.len();
    if start >= n {
        return None;
    }
    let c = v[start];
    if c == '"' {
        let out: Vec<char> = Vec::new();
        return Some((out, start + 1));
    }
    if c == '\\' {
        if start + 1 < n {
            let d = v[start + 1];
            if d == '"' || d == '\\' {
                match scan_string_body(v, start + 2) {
                    Some(pair) => {
                        let (content, next) = pair;
                        let mut out: Vec<char> = Vec::new();
                        out.push(d);
                        let ghost head = out@;
                        let mut k: usize = 0;
                        while k < content.len()
                            invariant
                                k <= content@.len(),
                                out@ == head + content@.subrange(0, k as int),
                            decreases content@.len() - k,
                        {
                            out.push(content[k]);
                            assert(out@ =~= head + content@.subrange(0, k + 1 as int));
                            k += 1;
                        }
                        proof {
                            assert(content@.subrange(0, content@.len() as int) =~= content@);
                            assert(out@ =~= seq![v@[start + 1]] + content@);
                        }
                        Some((out, next))
                    },
                    None => None,
                }
            } else {
                None
            }
        } else {
            None
        }
    } else {
        match scan_string_body(v, start + 1) {
            Some(pair) => {
                let (content, next) = pair;
                let mut out: Vec<char> = Vec::new();
                out.push(c);
                let ghost head = out@;
                let mut k: usize = 0;
                while k < content.len()
                    invariant
                        k <= content@.len(),
                        out@ == head + content@.subrange(0, k as int),
                    decreases content@.len() - k,
                {
                    out.push(content[k]);
                    assert(out@ =~= head + content@.subrange(0, k + 1 as int));
                    k += 1;
                }
                proof {
                    assert(content@.subrange(0, content@.len() as int) =~= content@);
                    assert(out@ =~= seq![v@[start as int]] + content@);
                }
                Some((out, next))
            },
            None => None,
        }
    }
}


// ---------------------------------------------------------------------------
// File names and ordering
// ---------------------------------------------------------------------------

/// A path separator, either direction.
pub open spec fn is_sep(c: char) -> bool {
    c == '\\' || c == '/'
}

/// The final component of a path string.
pub open spec fn file_name_of(s: Seq<char>) -> Seq<char>
    decreases s.len(),
{
    if s.len() == 0 {
        s
    } else if is_sep(s.last()) {
        Seq::<char>::empty()
    } else {
        file_name_of(s.drop_last()).push(s.last())
    }
}

/// A well-formed backup file name: the fixed prefix and the `.json`
/// extension.
pub open spec fn valid_backup_name(name: Seq<char>) -> bool {
    &&& text::starts_with(name, "path_backup_"@)
    &&& name.len() >= 5 && name.subrange(name.len() - 5, name.len() as int) == ".json"@
}

/// Lexicographic order on character sequences, the order file names
/// sort in.
pub open spec fn lex_le(a: Seq<char>, b: Seq<char>) -> bool
    decreases a.len(),
{
    if a.len() == 0 {
        true
    } else if b.len() == 0 {
        false
    } else if (a[0] as u32) == (b[0] as u32) {
        lex_le(a.drop_first(), b.drop_first())
    } else {
        (a[0] as u32) < (b[0] as u32)
    }
}

proof fn lemma_lex_total(a: Seq<char>, b: Seq<char>)
    ensures
        lex_le(a, b) || lex_le(b, a),
    decreases a.len(),
{
    if a.len() > 0 && b.len() > 0 {
        if (a[0] as u32) == (b[0] as u32) {
            lemma_lex_total(a.drop_first(), b.drop_first());
        }
    }
}

proof fn lemma_lex_trans(a: Seq<char>, b: Seq<char>, c: Seq<char>)
    requires
        lex_le(a, b),
        lex_le(b, c),
    ensures
        lex_le(a, c),
    decreases a.len(),
{
    if a.len() > 0 {
        assert(b.len() > 0);
        assert(c.len() > 0);
        if (a[0] as u32) == (b[0] as u32) && (b[0] as u32) == (c[0] as u32) {
            lemma_lex_trans(a.drop_first(), b.drop_first(), c.drop_first());
        }
    }
}

proof fn lemma_lex_skip(a: Seq<char>, b: Seq<char>, i: int)
    requires
        0 <= i <= a.len(),
        i <= b.len(),
        forall|k: int| 0 <= k < i ==> (a[k] as u32) == (b[k] as u32),
    ensures
        lex_le(a, b) == lex_le(a.skip(i), b.skip(i)),
    decreases i,
{
    if i > 0 {
        assert(a.len() > 0 && b.len() > 0);
        assert((a[0] as u32) == (b[0] as u32));
        assert(a.drop_first() =~= a.skip(1));
        assert(b.drop_first() =~= b.skip(1));
        lemma_lex_skip(a.skip(1), b.skip(1), i - 1);
        assert(a.skip(1).skip(i - 1) =~= a.skip(i));
        assert(b.skip(1).skip(i - 1) =~= b.skip(i));
    } else {
        assert(a.skip(0) =~= a);
        assert(b.skip(0) =~= b);
    }
}

/// Compares two names in lexicographic order.
fn lex_le_strings(a: &String, b: &String) -> (r: bool)
    ensures
        r == lex_le(a@, b@),
{
    let av = text::chars_of(a.as_str());
    let bv = text::chars_of(b.as_str());
    let an = av.len();
    let bn = bv.len();
    let mut i: usize = 0;
    while i < an && i < bn
        invariant
            i <= an,
            i <= bn,
            an == a@.len(),
            bn == b@.len(),
            av@ == a@,
            bv@ == b@,
            forall|k: int| 0 <= k < i ==> (a@[k] as u32) == (b@[k] as u32),
        decreases an - i,
    {
        if (av[i] as u32) != (bv[i] as u32) {
            proof {
                lemma_lex_skip(a@, b@, i as int);
                assert(a@.skip(i as int)[0] == a@[i as int]);
                assert(b@.skip(i as int)[0] == b@[i as int]);
            }
            return (av[i] as u32) < (bv[i] as u32);
        }
        i += 1;
    }
    proof {
        lemma_lex_skip(a@, b@, i as int);
        if i == an {
            assert(a@.skip(i as int).len() == 0);
        } else {
            assert(b@.skip(i as int).len() == 0);
            assert(a@.skip(i as int).len() > 0);
        }
    }
    an <= bn
}

/// The final component of a path string.
fn file_name_chars(v: &Vec<char>) -> (r: Vec<char>)
    ensures
        r@ == file_name_of(v@),
{
    let n = v.len();
    let mut start: usize = n;
    while start > 0 && !(v[start - 1] == '\\' || v[start - 1] == '/')
        invariant
            start <= n,
            n == v@.len(),
            forall|k: int| start <= k < n ==> !is_sep(#[trigger] v@[k]),
        decreases start,
    {
        start -= 1;
    }
    proof {
        lemma_file_name_tail(v@, start as int);
    }
    let mut out: Vec<char> = Vec::new();
    let mut k: usize = start;
    while k < n
        invariant
            start <= k <= n,
            n == v@.len(),
            out@ == v@.subrange(start as int, k as int),
        decreases n - k,
    {
        out.push(v[k]);
        assert(out@ =~= v@.subrange(start as int, k + 1 as int));
        k += 1;
    }
    out
}

proof fn lemma_file_name_tail(s: Seq<char>, start: int)
    requires
        0 <= start <= s.len(),
        forall|k: int| start <= k < s.len() ==> !is_sep(#[trigger] s[k]),
        start == 0 || is_sep(s[start - 1]),
    ensures
        file_name_of(s) == s.subrange(start, s.len() as int),
    decreases s.len() - start,
{
    if start == s.len() {
        if s.len() == 0 {
            assert(s.subrange(0, 0) =~= s);
        } else {
            assert(is_sep(s.last()));
            assert(s.subrange(start, s.len() as int) =~= Seq::<char>::empty());
        }
    } else {
        let t = s.drop_last();
        assert(!is_sep(s.last()));
        assert(forall|k: int| start <= k < t.len() ==> !is_sep(#[trigger] t[k]));
        lemma_file_name_tail(t, start);
        assert(file_name_of(s) == file_name_of(t).push(s.last()));
        assert(t.subrange(start, t.len() as int).push(s.last()) =~= s.subrange(
            start,
            s.len() as int,
        ));
    }
}

// ---------------------------------------------------------------------------
// The manager
// ---------------------------------------------------------------------------

/// What one backup creation produced: the file written and the old
/// files the retention cap retired.
#[derive(Debug)]
pub struct BackupResult {
    pub path: String,
    pub cleaned_backups: Vec<String>,
}

/// What one restore produced: where it came from and the user value to
/// write back.
#[derive(Debug)]
pub struct RestoreResult {
    pub restored_from: String,
    pub user_path: String,
}

impl RestoreResult {
    /// The backup file this restore read.
    pub fn path(&self) -> (r: &String)
        ensures
            r@ == self.restored_from@,
    {
        &self.restored_from
    }
}

/// The full path of the backup written at `ts`.
pub open spec fn spec_backup_path(dir: Seq<char>, ts: Seq<char>) -> Seq<char> {
    dir + seq!['\\'] + "path_backup_"@ + ts + ".json"@
}

/// Whether `file` may be restored from: it must name a file directly
/// inside `dir`, with the fixed prefix and extension.
pub open spec fn spec_restore_ok(dir: Seq<char>, file: Seq<char>) -> bool {
    &&& file.len() > dir.len() + 1
    &&& file.subrange(0, dir.len() as int) == dir
    &&& is_sep(file[dir.len() as int])
    &&& forall|k: int| dir.len() + 1 <= k < file.len() ==> !is_sep(#[trigger] file[k])
    &&& valid_backup_name(file.skip(dir.len() + 1 as int))
}

/// The valid backup names among a directory listing, in listing order.
pub open spec fn valid_names_of(names: Seq<Seq<char>>) -> Seq<Seq<char>>
    decreases names.len(),
{
    if names.len() == 0 {
        names
    } else {
        valid_names_of(names.drop_last()) + (if valid_backup_name(file_name_of(names.last())) {
            seq![names.last()]
        } else {
            Seq::<Seq<char>>::empty()
        })
    }
}

/// A listing that stands newest first in the file-name order.
pub open spec fn newest_first(s: Seq<Seq<char>>) -> bool {
    forall|i: int, j: int| 0 <= i < j < s.len() ==> lex_le(#[trigger] s[j], #[trigger] s[i])
}

/// What the retention cap retires from a newest-first listing: every
/// name beyond the cap, oldest first.
pub open spec fn spec_retired(sorted: Seq<Seq<char>>) -> Seq<Seq<char>> {
    if sorted.len() <= constants::MAX_BACKUPS {
        Seq::<Seq<char>>::empty()
    } else {
        sorted.skip(constants::MAX_BACKUPS as int).reverse()
    }
}

/// The backup store rooted at one directory.
pub struct BackupManager {
    pub backup_dir: String,
}

impl BackupManager {
    /// A manager over the given backup directory.
    pub fn new(backup_dir: String) -> (r: BackupManager)
        ensures
            r.backup_dir@ == backup_dir@,
    {
        BackupManager { backup_dir }
    }

    /// The file path a backup at `timestamp` is written to.
    pub fn build_backup_path(&self, timestamp: &str) -> (r: String)
        ensures
            r@ == spec_backup_path(self.backup_dir@, timestamp@),
    {
        let mut out = text::chars_of(self.backup_dir.as_str());
        out.push('\\');
        push_literal(&mut out, "path_backup_");
        push_literal(&mut out, timestamp);
        push_literal(&mut out, ".json");
        proof {
            assert(out@ =~= spec_backup_path(self.backup_dir@, timestamp@));
        }
        text::string_from_chars(&out)
    }

    /// Whether a listed path is one of this store's backup files.
    pub fn is_valid_backup_file(&self, path: &str) -> (r: bool)
        ensures
            r == valid_backup_name(file_name_of(path@)),
    {
        let chars = text::chars_of(path);
        let name = file_name_chars(&chars);
        Self::check_name(&name)
    }

    fn check_name(name: &Vec<char>) -> (r: bool)
        ensures
            r == valid_backup_name(name@),
    {
        let prefix = text::chars_of("path_backup_");
        if !text::begins_with(name, &prefix) {
            return false;
        }
        let ext = text::chars_of(".json");
        proof {
            reveal_strlit(".json");
        }
        if name.len() < 5 {
            return false;
        }
        let n = name.len();
        let mut i: usize = 0;
        while i < 5
            invariant
                i <= 5,
                5 <= n == name@.len(),
                ext@ == ".json"@,
                ext@.len() == 5,
                forall|k: int| 0 <= k < i ==> name@[n - 5 + k] == ext@[k],
            decreases 5 - i,
        {
            if name[n - 5 + i] != ext[i] {
                assert(name@.subrange(n - 5, n as int)[i as int] != ".json"@[i as int]);
                return false;
            }
            i += 1;
        }
        assert(name@.subrange(n - 5, n as int) =~= ".json"@);
        true
    }

    /// Validates a restore source before anything is read: the file
    /// must sit directly inside the backup directory, carry the fixed
    /// prefix and end in `.json`; anything else is fatal.
    pub fn validate_path(&self, backup_file: &str) -> (r: Result<(), SpathError>)
        ensures
            r is Ok <==> spec_restore_ok(self.backup_dir@, backup_file@),
            r is Err ==> r->Err_0 is ValidationError,
    {
        let dir = text::chars_of(self.backup_dir.as_str());
        let file = text::chars_of(backup_file);
        let dn = dir.len();
        let fnn = file.len();
        if fnn <= dn || fnn - dn < 2 {
            return Err(
                SpathError::ValidationError("backup file must be in the backup directory".to_owned()),
            );
        }
        if !text::begins_with(&file, &dir) {
            return Err(
                SpathError::ValidationError("backup file must be in the backup directory".to_owned()),
            );
        }
        if !(file[dn] == '\\' || file[dn] == '/') {
            return Err(
                SpathError::ValidationError("backup file must be in the backup directory".to_owned()),
            );
        }
        let mut k: usize = dn + 1;
        while k < fnn
            invariant
                dn + 1 <= k <= fnn,
                fnn == file@.len(),
                dn == dir@.len(),
                file@ == backup_file@,
                dir@ == self.backup_dir@,
                forall|j: int| dn + 1 <= j < k ==> !is_sep(#[trigger] file@[j]),
            decreases fnn - k,
        {
            if file[k] == '\\' || file[k] == '/' {
                assert(file@ == backup_file@);
                assert(is_sep(backup_file@[k as int]));
                assert(dn + 1 <= k < backup_file@.len());
                assert(!spec_restore_ok(self.backup_dir@, backup_file@));
                return Err(
                    SpathError::ValidationError(
                        "backup file must sit directly in the backup directory".to_owned(),
                    ),
                );
            }
            k += 1;
        }
        let mut name: Vec<char> = Vec::new();
        let mut k: usize = dn + 1;
        while k < fnn
            invariant
                dn + 1 <= k <= fnn,
                fnn == file@.len(),
                name@ == file@.subrange(dn + 1, k as int),
            decreases fnn - k,
        {
            name.push(file[k]);
            assert(name@ =~= file@.subrange(dn + 1, k + 1 as int));
            k += 1;
        }
        proof {
            assert(name@ =~= file@.skip(dn + 1));
        }
        let ext = text::chars_of(".json");
        proof {
            reveal_strlit(".json");
        }
        let has_ext = if name.len() < 5 {
            false
        } else {
            let n = name.len();
            let mut ok = true;
            let mut i: usize = 0;
            while i < 5
                invariant
                    i <= 5,
                    5 <= n == name@.len(),
                    ext@ == ".json"@,
                    ext@.len() == 5,
                    ok == (forall|j: int| 0 <= j < i ==> name@[n - 5 + j] == ext@[j]),
                decreases 5 - i,
            {
                if name[n - 5 + i] != ext[i] {
                    ok = false;
                }
                i += 1;
            }
            proof {
                if ok {
                    assert(name@.subrange(n - 5, n as int) =~= ".json"@);
                } else {
                    let j = choose|j: int| 0 <= j < 5 && name@[n - 5 + j] != ext@[j];
                    assert(name@.subrange(n - 5, n as int)[j] != ".json"@[j]);
                }
            }
            ok
        };
        if !has_ext {
            return Err(
                SpathError::ValidationError("backup file must have the .json extension".to_owned()),
            );
        }
        let prefix = text::chars_of("path_backup_");
        if !text::begins_with(&name, &prefix) {
            return Err(
                SpathError::ValidationError("backup file name must start with path_backup_".to_owned()),
            );
        }
        Ok(())
    }

    /// The valid backups of a directory listing, newest first.
    pub fn list(&self, names: &Vec<String>) -> (r: Vec<String>)
        ensures
            r.deep_view().to_multiset() == valid_names_of(names.deep_view()).to_multiset(),
            forall|i: int, j: int|
                0 <= i < j < r.deep_view().len() ==> lex_le(
                    #[trigger] r.deep_view()[j],
                    #[trigger] r.deep_view()[i],
                ),
            forall|i: int|
                0 <= i < r.deep_view().len() ==> valid_backup_name(
                    file_name_of(#[trigger] r.deep_view()[i]),
                ),
    {
        broadcast use vstd::seq_lib::lemma_multiset_commutative;
        broadcast use vstd::seq_lib::group_to_multiset_ensures;

        let n = names.len();
        let mut out: Vec<String> = Vec::new();
        let mut i: usize = 0;
        proof {
            assert(names.deep_view().subrange(0, 0) =~~= Seq::<Seq<char>>::empty());
            assert(out.deep_view().to_multiset() =~= valid_names_of(
                names.deep_view().subrange(0, 0),
            ).to_multiset());
        }
        while i < n
            invariant
                i <= n,
                n == names@.len(),
                out.deep_view().to_multiset() == valid_names_of(
                    names.deep_view().subrange(0, i as int),
                ).to_multiset(),
                forall|a: int, b: int|
                    0 <= a < b < out.deep_view().len() ==> lex_le(
                        #[trigger] out.deep_view()[b],
                        #[trigger] out.deep_view()[a],
                    ),
                forall|a: int|
                    0 <= a < out.deep_view().len() ==> valid_backup_name(
                        file_name_of(#[trigger] out.deep_view()[a]),
                    ),
            decreases n - i,
        {
            broadcast use vstd::seq_lib::lemma_multiset_commutative;
            broadcast use vstd::seq_lib::group_to_multiset_ensures;

            let ghost pre = names.deep_view().subrange(0, i as int);
            let ghost cur = names.deep_view()[i as int];
            proof {
                assert(names.deep_view().subrange(0, i + 1 as int) =~~= pre.push(cur));
                assert(pre.push(cur).drop_last() =~~= pre);
            }
            let name = names[i].clone();
            assert(name@ == cur);
            if self.is_valid_backup_file(name.as_str()) {
                let ghost old_deep = out.deep_view();
                let mut pos: usize = 0;
                while pos < out.len() && !lex_le_strings(&out[pos], &name)
                    invariant
                        pos <= out@.len(),
                        old_deep == out.deep_view(),
                        name@ == cur,
                        forall|k: int| 0 <= k < pos ==> !lex_le(out.deep_view()[k], cur),
                    decreases out@.len() - pos,
                {
                    assert(out.deep_view()[pos as int] == out@[pos as int]@);
                    pos += 1;
                }
                proof {
                    assert(out.deep_view()[pos as int] == out@[pos as int]@ || pos == out@.len());
                }
                out.insert(pos, name);
                proof {
                    let new_deep = out.deep_view();
                    assert(new_deep =~~= old_deep.subrange(0, pos as int).push(cur)
                        + old_deep.subrange(pos as int, old_deep.len() as int));
                    // multiset bookkeeping
                    assert(old_deep =~~= old_deep.subrange(0, pos as int) + old_deep.subrange(
                        pos as int,
                        old_deep.len() as int,
                    ));
                    assert(new_deep.to_multiset() =~= old_deep.to_multiset().insert(cur));
                    assert(valid_names_of(pre.push(cur)) =~~= valid_names_of(pre) + seq![cur]);
                    assert(valid_names_of(pre.push(cur)).to_multiset() =~= valid_names_of(
                        pre,
                    ).to_multiset().insert(cur));
                    // order bookkeeping
                    assert forall|a: int, b: int|
                        0 <= a < b < new_deep.len() implies lex_le(
                        #[trigger] new_deep[b],
                        #[trigger] new_deep[a],
                    ) by {
                        if b < pos {
                            assert(new_deep[a] == old_deep[a] && new_deep[b] == old_deep[b]);
                        } else if a > pos {
                            assert(new_deep[a] == old_deep[a - 1] && new_deep[b] == old_deep[b
                                - 1]);
                        } else if a == pos && b > pos {
                            assert(new_deep[a] == cur && new_deep[b] == old_deep[b - 1]);
                            if pos < old_deep.len() {
                                assert(lex_le(old_deep[pos as int], cur));
                                if b - 1 > pos {
                                    assert(lex_le(old_deep[b - 1], old_deep[pos as int]));
                                    lemma_lex_trans(old_deep[b - 1], old_deep[pos as int], cur);
                                }
                            }
                        } else if b == pos {
                            assert(new_deep[b] == cur && new_deep[a] == old_deep[a]);
                            assert(!lex_le(old_deep[a], cur));
                            lemma_lex_total(old_deep[a], cur);
                        } else if a == pos && b == pos {
                        } else {
                            assert(a < pos && b > pos);
                            assert(new_deep[a] == old_deep[a] && new_deep[b] == old_deep[b - 1]);
                            assert(!lex_le(old_deep[a], cur));
                            lemma_lex_total(old_deep[a], cur);
                            if pos < old_deep.len() {
                                if b - 1 > pos {
                                    assert(lex_le(old_deep[b - 1], old_deep[pos as int]));
                                    assert(lex_le(old_deep[pos as int], cur));
                                    lemma_lex_trans(old_deep[b - 1], old_deep[pos as int], cur);
                                } else {
                                    assert(lex_le(old_deep[b - 1], cur));
                                }
                                lemma_lex_trans(old_deep[b - 1], cur, old_deep[a]);
                            }
                        }
                    }
                }
            } else {
                proof {
                    assert(valid_names_of(pre.push(cur)) =~~= valid_names_of(pre));
                }
            }
            i += 1;
        }
        proof {
            assert(names.deep_view().subrange(0, n as int) =~~= names.deep_view());
        }
        out
    }

    /// The files the retention cap retires from a newest-first listing:
    /// everything beyond the cap, oldest first.
    pub fn cleanup_old(&self, sorted: &Vec<String>) -> (r: Vec<String>)
        ensures
            r.deep_view() == spec_retired(sorted.deep_view()),
    {
        let mut out: Vec<String> = Vec::new();
        if sorted.len() <= constants::MAX_BACKUPS {
            proof {
                assert(out.deep_view() =~~= spec_retired(sorted.deep_view()));
            }
            return out;
        }
        let excess = sorted.len() - constants::MAX_BACKUPS;
        let mut k: usize = 0;
        while k < excess
            invariant
                k <= excess,
                excess == sorted@.len() - constants::MAX_BACKUPS,
                excess <= sorted@.len(),
                out.deep_view().len() == k,
                forall|j: int|
                    0 <= j < k ==> out.deep_view()[j] == sorted.deep_view()[sorted@.len() - 1 - j],
            decreases excess - k,
        {
            let ghost before = out.deep_view();
            out.push(sorted[sorted.len() - 1 - k].clone());
            proof {
                assert(out.deep_view() =~~= before.push(
                    sorted.deep_view()[sorted@.len() - 1 - k],
                ));
            }
            k += 1;
        }
        proof {
            let d = sorted.deep_view();
            assert(out.deep_view() =~~= spec_retired(d));
        }
        out
    }

    /// Assembles everything one backup creation needs: the record's
    /// serialized form, the file path to write it to, and the old files
    /// the retention cap retires from the given directory listing.
    pub fn create(&self, timestamp: &str, user_path: &str, system_path: Option<&String>,
        listing: &Vec<String>) -> (r: (BackupResult, String))
        ensures
            r.0.path@ == spec_backup_path(self.backup_dir@, timestamp@),
            r.1@ == spec_encode(
                timestamp@,
                user_path@,
                match system_path {
                    Option::Some(s) => Option::Some(s@),
                    Option::None => Option::<Seq<char>>::None,
                },
            ),
            exists|sorted: Seq<Seq<char>>|
                #[trigger] sorted.to_multiset() == valid_names_of(
                    listing.deep_view(),
                ).to_multiset() && newest_first(sorted) && r.0.cleaned_backups.deep_view()
                    == spec_retired(sorted),
    {
        let record = PathBackup {
            timestamp: timestamp.to_owned(),
            user_path: user_path.to_owned(),
            system_path: match system_path {
                Some(s) => Some(s.clone()),
                None => None,
            },
        };
        let json = record.to_json();
        let path = self.build_backup_path(timestamp);
        let valid = self.list(listing);
        let cleaned = self.cleanup_old(&valid);
        proof {
            let witness = valid.deep_view();
            assert(witness.to_multiset() == valid_names_of(listing.deep_view()).to_multiset()
                && newest_first(witness) && cleaned.deep_view() == spec_retired(witness));
        }
        (BackupResult { path, cleaned_backups: cleaned }, json)
    }

    /// Validates and parses a restore source; on success hands back the
    /// user value to write through the locked write path.  The system
    /// half of a backup is never auto-restored.
    pub fn restore(&self, backup_file: &str, content: &str) -> (r: Result<
        RestoreResult,
        SpathError,
    >)
        ensures
            match r {
                Ok(res) => spec_restore_ok(self.backup_dir@, backup_file@) && (spec_decode(
                    content@,
                ) matches Option::Some(m) && res.user_path@ == m.user_path)
                    && res.restored_from@ == backup_file@,
                Err(e) => (!spec_restore_ok(self.backup_dir@, backup_file@) && e
                    is ValidationError) || (spec_restore_ok(self.backup_dir@, backup_file@)
                    && spec_decode(content@) is None && e is ParseError),
            },
    {
        match self.validate_path(backup_file) {
            Ok(_) => {},
            Err(e) => {
                return Err(e);
            },
        }
        let record = match PathBackup::from_json(content) {
            Ok(b) => b,
            Err(e) => {
                return Err(e);
            },
        };
        Ok(RestoreResult { restored_from: backup_file.to_owned(), user_path: record.user_path })
    }
}


// ---------------------------------------------------------------------------
// Round trip of the record format
// ---------------------------------------------------------------------------

proof fn lemma_parse_shift(s: Seq<char>, i: int)
    requires
        0 <= i <= s.len(),
    ensures
        parse_string_body(s, i) == (match parse_string_body(s.skip(i), 0) {
            Option::Some((c, n)) => Option::Some((c, n + i)),
            Option::None => Option::<(Seq<char>, int)>::None,
        }),
    decreases s.len() - i,
{
    let t = s.skip(i);
    if i >= s.len() {
        assert(t.len() == 0);
    } else {
        assert(t[0] == s[i]);
        if s[i] == '"' {
        } else if s[i] == '\\' {
            if i + 1 < s.len() && (s[i + 1] == '"' || s[i + 1] == '\\') {
                assert(t[1] == s[i + 1]);
                lemma_parse_shift(s, i + 2);
                lemma_parse_shift(t, 2);
                assert(t.skip(2) =~= s.skip(i + 2));
            } else {
                if t.len() > 1 {
                    assert(t[1] == s[i + 1]);
                }
            }
        } else {
            lemma_parse_shift(s, i + 1);
            lemma_parse_shift(t, 1);
            assert(t.skip(1) =~= s.skip(i + 1));
        }
    }
}

proof fn lemma_parse_of_esc(x: Seq<char>, rest: Seq<char>)
    ensures
        parse_string_body(esc(x) + seq!['"'] + rest, 0) == Option::Some(
            (x, esc(x).len() as int + 1),
        ),
    decreases x.len(),
{
    let s = esc(x) + seq!['"'] + rest;
    if x.len() == 0 {
        assert(esc(x) =~= Seq::<char>::empty());
        assert(s[0] == '"');
        assert(x =~= Seq::<char>::empty());
    } else {
        let c = x[0];
        let x1 = x.drop_first();
        lemma_parse_of_esc(x1, rest);
        let inner = esc(x1) + seq!['"'] + rest;
        if c == '"' || c == '\\' {
            assert(esc(x) =~= seq!['\\', c] + esc(x1));
            assert(s =~= seq!['\\', c] + inner);
            assert(s[0] == '\\');
            assert(s[1] == c);
            assert(s.skip(2) =~= inner);
            lemma_parse_shift(s, 2);
            assert(parse_string_body(s, 2) == Option::Some((x1, esc(x1).len() as int + 3)));
            assert(seq![s[1]] + x1 =~= x);
        } else {
            assert(esc(x) =~= seq![c] + esc(x1));
            assert(s =~= seq![c] + inner);
            assert(s[0] == c);
            assert(s.skip(1) =~= inner);
            lemma_parse_shift(s, 1);
            assert(parse_string_body(s, 1) == Option::Some((x1, esc(x1).len() as int + 2)));
            assert(seq![s[0]] + x1 =~= x);
        }
    }
}

/// Round trip of the record format: every serialized record parses back
/// to exactly the record it came from.
#[verifier::rlimit(100)]
pub proof fn lemma_decode_of_encode(ts: Seq<char>, up: Seq<char>, sys: Option<Seq<char>>)
    ensures
        spec_decode(spec_encode(ts, up, sys)) matches Option::Some(m) && m.timestamp == ts
            && m.user_path == up && m.system_path == sys,
{
    reveal_strlit("{\"timestamp\":\"");
    reveal_strlit(",\"user_path\":\"");
    reveal_strlit("\",\"user_path\":\"");
    reveal_strlit(",\"system_path\":null}");
    reveal_strlit("\",\"system_path\":null}");
    reveal_strlit(",\"system_path\":\"");
    reveal_strlit("\",\"system_path\":\"");
    reveal_strlit("\"}");
    reveal_strlit("}");
    let s = spec_encode(ts, up, sys);
    let head = "{\"timestamp\":\""@;
    assert(head.len() == 14);
    let sep_user = ",\"user_path\":\""@;
    assert(sep_user.len() == 14);
    assert("\",\"user_path\":\""@ =~= seq!['"'] + sep_user);
    match sys {
        Option::Some(sp) => {
            let sep_sys = ",\"system_path\":\""@;
            assert(sep_sys.len() == 16);
            assert("\",\"system_path\":\""@ =~= seq!['"'] + sep_sys);
            assert("\"}"@ =~= seq!['"'] + seq!['}']);
            let tail = sep_user + esc(up) + seq!['"'] + sep_sys + esc(sp) + seq!['"'] + seq![
                '}',
            ];
            assert(s =~= head + (esc(ts) + seq!['"'] + tail));
            assert(s.subrange(0, 14) =~= head);
            assert(at_offset(s, 0, head));
            lemma_parse_shift(s, 14);
            assert(s.skip(14) =~= esc(ts) + seq!['"'] + tail);
            lemma_parse_of_esc(ts, tail);
            let i1: int = esc(ts).len() as int + 15;
            assert(parse_string_body(s, 14) == Option::Some((ts, i1)));
            assert(s.skip(i1) =~= tail);
            assert(s.subrange(i1, i1 + 14) =~= sep_user);
            assert(at_offset(s, i1, sep_user));
            lemma_parse_shift(s, i1 + 14);
            let tail2 = sep_sys + esc(sp) + seq!['"'] + seq!['}'];
            assert(s.skip(i1 + 14) =~= esc(up) + seq!['"'] + tail2);
            lemma_parse_of_esc(up, tail2);
            let i2: int = i1 + 14 + esc(up).len() + 1;
            assert(parse_string_body(s, i1 + 14) == Option::Some((up, i2)));
            assert(s.skip(i2) =~= tail2);
            assert(s.subrange(i2, i2 + 16) =~= sep_sys);
            assert(at_offset(s, i2, sep_sys));
            let null_sep = ",\"system_path\":null}"@;
            assert(null_sep.len() == 20);
            assert(!(at_offset(s, i2, null_sep) && i2 + 20 == s.len())) by {
                if at_offset(s, i2, null_sep) && i2 + 20 == s.len() {
                    assert(s.subrange(i2, i2 + 16)[15] == sep_sys[15]);
                    assert(s.subrange(i2, i2 + 20)[15] == null_sep[15]);
                    assert(sep_sys[15] == '"');
                    assert(null_sep[15] == 'u');
                }
            }
            lemma_parse_shift(s, i2 + 16);
            assert(s.skip(i2 + 16) =~= esc(sp) + seq!['"'] + seq!['}']);
            lemma_parse_of_esc(sp, seq!['}']);
            let i3: int = i2 + 16 + esc(sp).len() + 1;
            assert(parse_string_body(s, i2 + 16) == Option::Some((sp, i3)));
            assert(s.skip(i3) =~= seq!['}']);
            assert(s.subrange(i3, i3 + 1) =~= "}"@);
            assert(at_offset(s, i3, "}"@));
            assert(i3 + 1 == s.len());
        },
        Option::None => {
            let null_sep = ",\"system_path\":null}"@;
            assert(null_sep.len() == 20);
            assert("\",\"system_path\":null}"@ =~= seq!['"'] + null_sep);
            let tail = sep_user + esc(up) + seq!['"'] + null_sep;
            assert(s =~= head + (esc(ts) + seq!['"'] + tail));
            assert(s.subrange(0, 14) =~= head);
            assert(at_offset(s, 0, head));
            lemma_parse_shift(s, 14);
            assert(s.skip(14) =~= esc(ts) + seq!['"'] + tail);
            lemma_parse_of_esc(ts, tail);
            let i1: int = esc(ts).len() as int + 15;
            assert(parse_string_body(s, 14) == Option::Some((ts, i1)));
            assert(s.skip(i1) =~= tail);
            assert(s.subrange(i1, i1 + 14) =~= sep_user);
            assert(at_offset(s, i1, sep_user));
            lemma_parse_shift(s, i1 + 14);
            assert(s.skip(i1 + 14) =~= esc(up) + seq!['"'] + null_sep);
            lemma_parse_of_esc(up, null_sep);
            let i2: int = i1 + 14 + esc(up).len() + 1;
            assert(parse_string_body(s, i1 + 14) == Option::Some((up, i2)));
            assert(s.skip(i2) =~= null_sep);
            assert(s.subrange(i2, i2 + 20) =~= null_sep);
            assert(at_offset(s, i2, null_sep));
            assert(i2 + 20 == s.len());
        },
    }
}

} // verus!
