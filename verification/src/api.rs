use crate::records::Record;
use vstd::prelude::*;
use vstd::string::StrSliceExecFns;

verus! {

/// Per-item outcome of a batch submission: the three lists correlate with
/// the submitted entries by key only, never by position.
pub struct RecordPutResp {
    pub accepted: Vec<String>,
    pub failed: Vec<String>,
    pub errors: Vec<String>,
}

/// A fetched snapshot of entries, in the order the remote service returned
/// them.
pub struct RecordsResp {
    pub records: Vec<Record>,
}

/// How far behind `now` the running-entry fetch window reaches, in seconds.
pub const FETCH_WINDOW_BACK_SECS: u64 = 2100;

/// How far ahead of `now` the running-entry fetch window reaches, in seconds.
pub const FETCH_WINDOW_AHEAD_SECS: u64 = 60;

/// The bounded time window `[now - back, now + ahead]` that a fetch of the
/// currently running entries queries, on the assumption that any entry still
/// open was started recently.
pub fn fetch_window(now: u64, back: u64, ahead: u64) -> (r: (u64, u64))
    requires
        back <= now,
        now + ahead <= u64::MAX,
    ensures
        r.0 == now - back,
        r.1 == now + ahead,
{
    (now - back, now + ahead)
}

/// Why a credential text failed to parse.
#[derive(Clone, Copy, Debug, PartialEq, Eq, Structural)]
pub enum ConfigError {
    /// A line holds no `=` separator.
    MissingSeparator,
    /// A line's key is neither `BASE_URL` nor `AUTHTOKEN`.
    UnknownKey,
}

/// The two-key credential mapping read at startup.
#[derive(Debug, PartialEq, Eq)]
pub struct EnvFile {
    pub base_url: Option<String>,
    pub authtoken: Option<String>,
}

/// The view of an optional string.
pub open spec fn opt_view(o: Option<String>) -> Option<Seq<char>> {
    match o {
        Some(s) => Some(s@),
        None => None,
    }
}

/// The pair of parsed credential values: base URL first, token second.
pub type EnvPair = (Option<Seq<char>>, Option<Seq<char>>);

/// The segments of `s` split at every newline. `cur` is the part of the
/// current segment already read when the scan stands at the head of `s`.
pub open spec fn split_nl(s: Seq<char>, cur: Seq<char>) -> Seq<Seq<char>>
    decreases s.len(),
{
    if s.len() == 0 {
        seq![cur]
    } else if s[0] == '\n' {
        seq![cur] + split_nl(s.drop_first(), Seq::empty())
    } else {
        split_nl(s.drop_first(), cur.push(s[0]))
    }
}

/// A newline-terminated segment sheds one trailing carriage return.
pub open spec fn strip_cr(l: Seq<char>) -> Seq<char> {
    if l.len() > 0 && l.last() == '\r' {
        l.drop_last()
    } else {
        l
    }
}

/// The lines of a credential text: segments split at newlines, a trailing
/// carriage return removed from each newline-terminated segment, and the
/// empty segment after a final newline dropped.
pub open spec fn lines_of(s: Seq<char>) -> Seq<Seq<char>> {
    let raw = split_nl(s, Seq::empty());
    let terminated = raw.drop_last().map_values(|l: Seq<char>| strip_cr(l));
    if raw.last().len() == 0 {
        terminated
    } else {
        terminated.push(raw.last())
    }
}

/// The position of the first `c` in `s`, or a negative value when absent.
pub open spec fn find_char(s: Seq<char>, c: char) -> int
    decreases s.len(),
{
    if s.len() == 0 {
        -1
    } else if s[0] == c {
        0
    } else {
        let r = find_char(s.drop_first(), c);
        if r < 0 {
            -1
        } else {
            r + 1
        }
    }
}

/// `find_char` names the first occurrence: a non-negative result points at
/// `c` with none before it, and a negative result means `s` holds no `c`.
proof fn lemma_find_char(s: Seq<char>, c: char)
    ensures
        find_char(s, c) >= 0 ==> 0 <= find_char(s, c) < s.len() && s[find_char(s, c)] == c && (
        forall|m: int| 0 <= m < find_char(s, c) ==> s[m] != c),
        find_char(s, c) < 0 ==> forall|m: int| 0 <= m < s.len() ==> s[m] != c,
    decreases s.len(),
{
    if s.len() > 0 && s[0] != c {
        lemma_find_char(s.drop_first(), c);
        let r = find_char(s.drop_first(), c);
        if r >= 0 {
            assert(s[r + 1] == s.drop_first()[r]);
            assert forall|m: int| 0 <= m < r + 1 implies s[m] != c by {
                if m > 0 {
                    assert(s[m] == s.drop_first()[m - 1]);
                }
            }
        } else {
            assert forall|m: int| 0 <= m < s.len() implies s[m] != c by {
                if m > 0 {
                    assert(s[m] == s.drop_first()[m - 1]);
                }
            }
        }
    }
}

/// Splitting always yields at least one segment.
proof fn lemma_split_nl_len(s: Seq<char>, cur: Seq<char>)
    ensures
        split_nl(s, cur).len() >= 1,
    decreases s.len(),
{
    if s.len() > 0 {
        if s[0] == '\n' {
            lemma_split_nl_len(s.drop_first(), Seq::empty());
        } else {
            lemma_split_nl_len(s.drop_first(), cur.push(s[0]));
        }
    }
}

/// The key and value of one credential line: the key stands before the first
/// `=`, the value between the first `=` and the second one or the line's end.
/// A line without `=` is malformed.
pub open spec fn line_entry(line: Seq<char>) -> Result<(Seq<char>, Seq<char>), ConfigError> {
    let i = find_char(line, '=');
    if i < 0 {
        Err(ConfigError::MissingSeparator)
    } else {
        let key = line.subrange(0, i);
        let rest = line.subrange(i + 1, line.len() as int);
        let j = find_char(rest, '=');
        let value = if j < 0 {
            rest
        } else {
            rest.subrange(0, j)
        };
        Ok((key, value))
    }
}

/// One credential line folded into the accumulated pair: `BASE_URL` and
/// `AUTHTOKEN` set their slot (a later line overrides an earlier one), any
/// other key is rejected.
pub open spec fn apply_line(acc: EnvPair, line: Seq<char>) -> Result<EnvPair, ConfigError> {
    match line_entry(line) {
        Err(e) => Err(e),
        Ok(kv) => if kv.0 == "BASE_URL"@ {
            Ok((Some(kv.1), acc.1))
        } else if kv.0 == "AUTHTOKEN"@ {
            Ok((acc.0, Some(kv.1)))
        } else {
            Err(ConfigError::UnknownKey)
        },
    }
}

/// The credential lines folded in order, starting from an empty pair; the
/// first malformed line's error wins.
pub open spec fn parse_lines(lines: Seq<Seq<char>>) -> Result<EnvPair, ConfigError>
    decreases lines.len(),
{
    if lines.len() == 0 {
        Ok((None, None))
    } else {
        match parse_lines(lines.drop_last()) {
            Err(e) => Err(e),
            Ok(acc) => apply_line(acc, lines.last()),
        }
    }
}

/// What a credential text denotes: its lines folded into the two-key pair.
pub open spec fn parse_env(s: Seq<char>) -> Result<EnvPair, ConfigError> {
    parse_lines(lines_of(s))
}

/// A parse that errs on some prefix of the lines errs the same on the whole.
proof fn lemma_parse_prefix_err(lines: Seq<Seq<char>>, p: int, e: ConfigError)
    requires
        0 <= p <= lines.len(),
        parse_lines(lines.subrange(0, p)) == Err::<EnvPair, ConfigError>(e),
    ensures
        parse_lines(lines) == Err::<EnvPair, ConfigError>(e),
    decreases lines.len() - p,
{
    if p == lines.len() {
        assert(lines.subrange(0, p) =~= lines);
    } else {
        assert(lines.subrange(0, p + 1).drop_last() =~= lines.subrange(0, p));
        lemma_parse_prefix_err(lines, p + 1, e);
    }
}

/// The first `c` at or after `from` in `s`.
fn find_char_at(s: &str, from: usize, c: char) -> (r: Option<usize>)
    requires
        from <= s@.len(),
    ensures
        match r {
            Some(k) => from <= k < s@.len() && s@[k as int] == c && (forall|m: int|
                from <= m < k ==> s@[m] != c),
            None => forall|m: int| from <= m < s@.len() ==> s@[m] != c,
        },
{
    let n = s.unicode_len();
    let mut i: usize = from;
    while i < n
        invariant
            from <= i <= n,
            n == s@.len(),
            forall|m: int| from <= m < i ==> s@[m] != c,
        decreases n - i,
    {
        if s.get_char(i) == c {
            return Some(i);
        }
        i = i + 1;
    }
    None
}

/// Whether two string slices read the same.
fn str_eq(a: &str, b: &str) -> (r: bool)
    ensures
        r == (a@ == b@),
{
    let sa: String = a.to_owned();
    let sb: String = b.to_owned();
    sa == sb
}

/// One credential line folded into the accumulated values.
fn apply_line_exec(line: &str, base_url: Option<String>, authtoken: Option<String>) -> (r: Result<
    (Option<String>, Option<String>),
    ConfigError,
>)
    ensures
        match r {
            Ok(acc) => apply_line((opt_view(base_url), opt_view(authtoken)), line@)
                == Ok::<EnvPair, ConfigError>((opt_view(acc.0), opt_view(acc.1))),
            Err(e) => apply_line((opt_view(base_url), opt_view(authtoken)), line@) == Err::<
                EnvPair,
                ConfigError,
            >(e),
        },
{
    proof {
        lemma_find_char(line@, '=');
    }
    let e1 = match find_char_at(line, 0, '=') {
        Some(k) => k,
        None => {
            return Err(ConfigError::MissingSeparator);
        },
    };
    proof {
        assert(find_char(line@, '=') == e1 as int);
    }
    let n = line.unicode_len();
    let ghost rest = line@.subrange(e1 as int + 1, line@.len() as int);
    proof {
        lemma_find_char(rest, '=');
        assert forall|m: int| 0 <= m < rest.len() implies rest[m] == line@[e1 + 1 + m] by {}
    }
    let e2 = match find_char_at(line, e1 + 1, '=') {
        Some(k) => {
            proof {
                assert(rest[k - e1 - 1] == '=');
                assert(find_char(rest, '=') == k - e1 - 1);
            }
            k
        },
        None => {
            proof {
                assert(find_char(rest, '=') < 0);
            }
            n
        },
    };
    let key = line.substring_char(0, e1);
    let value: String = line.substring_char(e1 + 1, e2).to_owned();
    proof {
        if find_char(rest, '=') >= 0 {
            assert(value@ =~= rest.subrange(0, find_char(rest, '=')));
        } else {
            assert(value@ =~= rest);
        }
    }
    if str_eq(key, "BASE_URL") {
        Ok((Some(value), authtoken))
    } else if str_eq(key, "AUTHTOKEN") {
        Ok((base_url, Some(value)))
    } else {
        Err(ConfigError::UnknownKey)
    }
}

impl EnvFile {
    /// Parses the credential text: one `KEY=VALUE` line per entry, keys
    /// `BASE_URL` and `AUTHTOKEN`, a later line overriding an earlier one.
    /// The first malformed line - one without `=`, or with any other key -
    /// yields its error; reading the text itself is the caller's task.
    pub fn from(text: &str) -> (r: Result<EnvFile, ConfigError>)
        ensures
            r is Ok ==> parse_env(text@) == Ok::<EnvPair, ConfigError>(
                (opt_view(r->Ok_0.base_url), opt_view(r->Ok_0.authtoken)),
            ),
            r is Err ==> parse_env(text@) == Err::<EnvPair, ConfigError>(r->Err_0),
    {
        let n = text.unicode_len();
        let mut base_url: Option<String> = None;
        let mut authtoken: Option<String> = None;
        let ghost mut done: Seq<Seq<char>> = Seq::empty();
        let mut start: usize = 0;
        let mut i: usize = 0;
        proof {
            assert(text@.skip(0) =~= text@);
            assert(text@.subrange(0, 0) =~= Seq::<char>::empty());
            assert(done + split_nl(text@, Seq::empty()) =~= split_nl(text@, Seq::empty()));
            assert(done.map_values(|l: Seq<char>| strip_cr(l)) =~= Seq::<Seq<char>>::empty());
        }
        while i < n
            invariant
                n == text@.len(),
                start <= i <= n,
                split_nl(text@, Seq::empty()) == done + split_nl(
                    text@.skip(i as int),
                    text@.subrange(start as int, i as int),
                ),
                parse_lines(done.map_values(|l: Seq<char>| strip_cr(l))) == Ok::<
                    EnvPair,
                    ConfigError,
                >((opt_view(base_url), opt_view(authtoken))),
            decreases n - i,
        {
            let ghost seg = text@.subrange(start as int, i as int);
            proof {
                assert(text@.skip(i as int)[0] == text@[i as int]);
                assert(text@.skip(i as int).drop_first() =~= text@.skip(i as int + 1));
            }
            let c = text.get_char(i);
            if c == '\n' {
                let end = if i > start && text.get_char(i - 1) == '\r' {
                    i - 1
                } else {
                    i
                };
                let line = text.substring_char(start, end);
                proof {
                    if i > start && text@[i as int - 1] == '\r' {
                        assert(seg.last() == text@[i as int - 1]);
                        assert(line@ =~= seg.drop_last());
                    }
                    assert(line@ =~= strip_cr(seg));
                }
                let ghost lines_done = done.map_values(|l: Seq<char>| strip_cr(l));
                match apply_line_exec(line, base_url, authtoken) {
                    Ok(acc) => {
                        base_url = acc.0;
                        authtoken = acc.1;
                        proof {
                            done = done.push(seg);
                            let lines_now = done.map_values(|l: Seq<char>| strip_cr(l));
                            assert(lines_now =~= lines_done.push(strip_cr(seg)));
                            assert(lines_now.drop_last() =~= lines_done);
                        }
                    },
                    Err(e) => {
                        proof {
                            let ghost done2 = done.push(seg);
                            let lines_bad = done2.map_values(|l: Seq<char>| strip_cr(l));
                            assert(lines_bad =~= lines_done.push(strip_cr(seg)));
                            assert(lines_bad.drop_last() =~= lines_done);
                            assert(parse_lines(lines_bad) == Err::<EnvPair, ConfigError>(e));
                            // The processed segments stand before at least one
                            // more segment, so they map onto a prefix of the
                            // final line sequence.
                            let raw = split_nl(text@, Seq::empty());
                            assert(raw == done2 + split_nl(
                                text@.skip(i as int + 1),
                                Seq::<char>::empty(),
                            ));
                            lemma_split_nl_len(text@.skip(i as int + 1), Seq::<char>::empty());
                            assert(raw.drop_last().len() >= done2.len());
                            let lines = lines_of(text@);
                            assert(lines.len() >= done2.len());
                            assert forall|m: int| 0 <= m < done2.len() implies lines[m]
                                == lines_bad[m] by {
                                assert(raw.drop_last()[m] == done2[m]);
                                assert(raw.drop_last().map_values(|l: Seq<char>| strip_cr(l))[m]
                                    == strip_cr(done2[m]));
                            }
                            assert(lines.subrange(0, done2.len() as int) =~= lines_bad);
                            lemma_parse_prefix_err(lines, done2.len() as int, e);
                        }
                        return Err(e);
                    },
                }
                i = i + 1;
                start = i;
                proof {
                    assert(text@.subrange(start as int, i as int) =~= Seq::<char>::empty());
                }
            } else {
                i = i + 1;
                proof {
                    assert(seg.push(text@[i - 1]) =~= text@.subrange(start as int, i as int));
                }
            }
        }
        let ghost seg = text@.subrange(start as int, i as int);
        let ghost raw = split_nl(text@, Seq::empty());
        let ghost lines_done = done.map_values(|l: Seq<char>| strip_cr(l));
        proof {
            assert(text@.skip(i as int) =~= Seq::<char>::empty());
            assert(raw == done + seq![seg]);
            assert(raw.drop_last() =~= done);
            assert(raw.last() == seg);
        }
        if start < n {
            // The final segment ends without a newline; it keeps any trailing
            // carriage return and forms the last line.
            proof {
                assert(lines_of(text@) =~= lines_done.push(seg));
                assert(lines_of(text@).drop_last() =~= lines_done);
            }
            let line = text.substring_char(start, n);
            match apply_line_exec(line, base_url, authtoken) {
                Ok(acc) => {
                    base_url = acc.0;
                    authtoken = acc.1;
                },
                Err(e) => {
                    return Err(e);
                },
            }
        } else {
            proof {
                assert(lines_of(text@) =~= lines_done);
            }
        }
        Ok(EnvFile { base_url, authtoken })
    }
}

} // verus!
