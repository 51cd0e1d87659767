//! Line search: split a text into lines and keep the lines that contain a
//! query, either exactly or ignoring case.

use vstd::prelude::*;
use vstd::string::StrSliceExecFns;

verus! {

/// The query matches `text` starting at position `i`.
pub open spec fn match_at(text: Seq<char>, pat: Seq<char>, i: int) -> bool {
    &&& 0 <= i
    &&& i + pat.len() <= text.len()
    &&& text.subrange(i, i + pat.len() as int) == pat
}

/// `text` contains `pat` as a contiguous run of characters.
pub open spec fn contains_seq(text: Seq<char>, pat: Seq<char>) -> bool {
    exists|i: int| match_at(text, pat, i)
}

/// A line as a `'\n'` closes it: a `'\r'` right before the `'\n'` is the
/// other half of the line ending, not part of the line.
pub open spec fn strip_cr(l: Seq<char>) -> Seq<char> {
    if l.len() > 0 && l.last() == '\r' {
        l.drop_last()
    } else {
        l
    }
}

/// The lines of `t`, folding from the front: `cur` is the line being read,
/// `acc` the lines already read. A `'\n'` ends the current line, shedding a
/// `'\r'` right before it; a final line is kept only if it is non-empty, so
/// a trailing line ending adds no empty line, and a final line with no
/// closing `'\n'` keeps a lone `'\r'`.
pub open spec fn lines_from(t: Seq<char>, cur: Seq<char>, acc: Seq<Seq<char>>) -> Seq<Seq<char>>
    decreases t.len(),
{
    if t.len() == 0 {
        if cur.len() == 0 {
            acc
        } else {
            acc.push(cur)
        }
    } else if t[0] == '\n' {
        lines_from(t.subrange(1, t.len() as int), Seq::empty(), acc.push(strip_cr(cur)))
    } else {
        lines_from(t.subrange(1, t.len() as int), cur.push(t[0]), acc)
    }
}

/// The lines of `t`: the pieces between `'\n'` or `"\r\n"` endings, without
/// a trailing empty piece when `t` ends in a line ending.
pub open spec fn spec_lines(t: Seq<char>) -> Seq<Seq<char>> {
    lines_from(t, Seq::empty(), Seq::empty())
}

/// The lines among `ls` that satisfy `pred`, in order.
pub open spec fn matching_lines(ls: Seq<Seq<char>>, pred: spec_fn(Seq<char>) -> bool) -> Seq<
    Seq<char>,
>
    decreases ls.len(),
{
    if ls.len() == 0 {
        Seq::empty()
    } else if pred(ls.last()) {
        matching_lines(ls.drop_last(), pred).push(ls.last())
    } else {
        matching_lines(ls.drop_last(), pred)
    }
}

/// What `search` returns: the lines of `t` that contain `q`.
pub open spec fn spec_search(q: Seq<char>, t: Seq<char>) -> Seq<Seq<char>> {
    matching_lines(spec_lines(t), (|l: Seq<char>| contains_seq(l, q)))
}

/// What `search_case_insensitive` returns: the lines of `t` whose lowercase
/// form contains the lowercase form of `q`.
pub open spec fn spec_search_ci(q: Seq<char>, t: Seq<char>) -> Seq<Seq<char>> {
    matching_lines(spec_lines(t), (|l: Seq<char>| contains_seq(lower_of(l), lower_of(q))))
}

/// The lowercase form of a character sequence, as `str::to_lowercase`
/// computes it. It depends on the characters alone.
pub uninterp spec fn lower_of(s: Seq<char>) -> Seq<char>;

/// Relies on str::to_lowercase: the returned string is the lowercase form
/// of the input and depends on the input's characters alone.
#[verifier::external_body]
fn lowercase(s: &str) -> (r: String)
    ensures
        r@ == lower_of(s@),
{
    s.to_lowercase()
}

/// Whether the query matches `text` at position `i`.
fn match_at_exec(text: &str, pat: &str, i: usize) -> (r: bool)
    requires
        i + pat@.len() <= text@.len(),
    ensures
        r == match_at(text@, pat@, i as int),
{
    let n = text.unicode_len();
    let m = pat.unicode_len();
    let mut j: usize = 0;
    while j < m
        invariant
            n == text@.len(),
            i + m <= n,
            m == pat@.len(),
            j <= m,
            forall|k: int| 0 <= k < j ==> text@[i + k] == pat@[k],
        decreases m - j,
    {
        if text.get_char(i + j) != pat.get_char(j) {
            proof {
                assert(text@.subrange(i as int, i + m as int)[j as int] == text@[i + j]);
            }
            return false;
        }
        j += 1;
    }
    proof {
        assert(text@.subrange(i as int, i + m as int) =~= pat@);
    }
    true
}

/// Whether `text` contains `pat` as a contiguous run of characters. An
/// empty `pat` is contained in every text.
pub fn contains_str(text: &str, pat: &str) -> (r: bool)
    ensures
        r == contains_seq(text@, pat@),
{
    let n = text.unicode_len();
    let m = pat.unicode_len();
    if m > n {
        proof {
            assert(forall|k: int| !match_at(text@, pat@, k));
        }
        return false;
    }
    let mut i: usize = 0;
    loop
        invariant
            m <= n,
            n == text@.len(),
            m == pat@.len(),
            i <= n - m,
            forall|k: int| 0 <= k < i ==> !match_at(text@, pat@, k),
        decreases n - m - i,
    {
        if match_at_exec(text, pat, i) {
            return true;
        }
        if i == n - m {
            proof {
                assert(forall|k: int| match_at(text@, pat@, k) ==> 0 <= k <= n - m);
            }
            return false;
        }
        i += 1;
    }
}

/// Split `contents` into its lines, returned as slices of `contents`.
pub fn split_lines<'a>(contents: &'a str) -> (r: Vec<&'a str>)
    ensures
        r@.map_values(|s: &str| s@) == spec_lines(contents@),
{
    let n = contents.unicode_len();
    let mut out: Vec<&'a str> = Vec::new();
    let mut start: usize = 0;
    let mut i: usize = 0;
    proof {
        assert(contents@.subrange(0, n as int) =~= contents@);
        assert(contents@.subrange(0, 0) =~= Seq::<char>::empty());
        assert(out@.map_values(|s: &str| s@) =~= Seq::<Seq<char>>::empty());
    }
    while i < n
        invariant
            start <= i <= n,
            n == contents@.len(),
            spec_lines(contents@) == lines_from(
                contents@.subrange(i as int, n as int),
                contents@.subrange(start as int, i as int),
                out@.map_values(|s: &str| s@),
            ),
        decreases n - i,
    {
        let ghost rem = contents@.subrange(i as int, n as int);
        let ghost cur = contents@.subrange(start as int, i as int);
        let ghost acc = out@.map_values(|s: &str| s@);
        proof {
            assert(rem[0] == contents@[i as int]);
            assert(rem.subrange(1, rem.len() as int) =~= contents@.subrange(i + 1, n as int));
        }
        let c = contents.get_char(i);
        if c == '\n' {
            let line = if i > start && contents.get_char(i - 1) == '\r' {
                proof {
                    assert(cur.last() == contents@[i - 1]);
                    assert(strip_cr(cur) =~= contents@.subrange(start as int, i - 1));
                }
                contents.substring_char(start, i - 1)
            } else {
                proof {
                    if cur.len() > 0 {
                        assert(cur.last() == contents@[i - 1]);
                    }
                    assert(strip_cr(cur) == cur);
                }
                contents.substring_char(start, i)
            };
            out.push(line);
            proof {
                assert(out@.map_values(|s: &str| s@) =~= acc.push(strip_cr(cur)));
            }
            i += 1;
            start = i;
            proof {
                assert(contents@.subrange(start as int, i as int) =~= Seq::<char>::empty());
            }
        } else {
            i += 1;
            proof {
                assert(contents@.subrange(start as int, i as int) =~= cur.push(
                    contents@[i - 1],
                ));
            }
        }
    }
    if start < n {
        let line = contents.substring_char(start, n);
        out.push(line);
        proof {
            assert(out@.map_values(|s: &str| s@) =~= out@.drop_last().map_values(
                |s: &str| s@,
            ).push(line@));
        }
    }
    out
}

/// The lines of `contents` that contain `query`, in order of appearance.
pub fn search<'a>(query: &str, contents: &'a str) -> (r: Vec<&'a str>)
    ensures
        r@.map_values(|s: &str| s@) == spec_search(query@, contents@),
{
    let lines = split_lines(contents);
    let ghost lsv = lines@.map_values(|s: &str| s@);
    let mut out: Vec<&'a str> = Vec::new();
    let mut i: usize = 0;
    proof {
        assert(lsv.take(0) =~= Seq::<Seq<char>>::empty());
        assert(out@.map_values(|s: &str| s@) =~= Seq::<Seq<char>>::empty());
    }
    while i < lines.len()
        invariant
            i <= lines.len(),
            lsv == lines@.map_values(|s: &str| s@),
            out@.map_values(|s: &str| s@) == matching_lines(
                lsv.take(i as int),
                (|l: Seq<char>| contains_seq(l, query@)),
            ),
        decreases lines.len() - i,
    {
        let line = lines[i];
        proof {
            assert(lsv.take(i + 1).drop_last() =~= lsv.take(i as int));
            assert(lsv.take(i + 1).last() == lsv[i as int]);
            assert(lsv[i as int] == line@);
        }
        let ghost acc = out@.map_values(|s: &str| s@);
        if contains_str(line, query) {
            out.push(line);
            proof {
                assert(out@.map_values(|s: &str| s@) =~= acc.push(line@));
            }
        }
        i += 1;
    }
    proof {
        assert(lsv.take(lines@.len() as int) =~= lsv);
    }
    out
}

/// The lines of `contents` that contain `query` when both are compared in
/// lowercase, in order of appearance. The returned slices are the original
/// lines, not their lowercase forms.
pub fn search_case_insensitive<'a>(query: &str, contents: &'a str) -> (r: Vec<&'a str>)
    ensures
        r@.map_values(|s: &str| s@) == spec_search_ci(query@, contents@),
{
    let query_low = lowercase(query);
    let lines = split_lines(contents);
    let ghost lsv = lines@.map_values(|s: &str| s@);
    let mut out: Vec<&'a str> = Vec::new();
    let mut i: usize = 0;
    proof {
        assert(lsv.take(0) =~= Seq::<Seq<char>>::empty());
        assert(out@.map_values(|s: &str| s@) =~= Seq::<Seq<char>>::empty());
    }
    while i < lines.len()
        invariant
            i <= lines.len(),
            lsv == lines@.map_values(|s: &str| s@),
            query_low@ == lower_of(query@),
            out@.map_values(|s: &str| s@) == matching_lines(
                lsv.take(i as int),
                (|l: Seq<char>| contains_seq(lower_of(l), lower_of(query@))),
            ),
        decreases lines.len() - i,
    {
        let line = lines[i];
        proof {
            assert(lsv.take(i + 1).drop_last() =~= lsv.take(i as int));
            assert(lsv.take(i + 1).last() == lsv[i as int]);
            assert(lsv[i as int] == line@);
        }
        let line_low = lowercase(line);
        let ghost acc = out@.map_values(|s: &str| s@);
        if contains_str(line_low.as_str(), query_low.as_str()) {
            out.push(line);
            proof {
                assert(out@.map_values(|s: &str| s@) =~= acc.push(line@));
            }
        }
        i += 1;
    }
    proof {
        assert(lsv.take(lines@.len() as int) =~= lsv);
    }
    out
}

/// How a search run is configured: the query, the file to read, and whether
/// case matters. `case_sensitive` is false exactly when the environment's
/// case-insensitive switch is set.
#[derive(Debug, PartialEq, Eq)]
pub struct Config {
    pub query: String,
    pub filename: String,
    pub case_sensitive: bool,
}

impl Config {
    /// Build a configuration from the argument list. The leading argument
    /// is the program's name and is skipped; then a query and a file name
    /// are required, in that order. `case_insensitive` says whether the
    /// environment's case-insensitive switch is set.
    pub fn new(args: &Vec<String>, case_insensitive: bool) -> (r: Result<Config, &'static str>)
        ensures
            args@.len() < 2 ==> r is Err && r->Err_0@ == "Didn't get a query string"@,
            args@.len() == 2 ==> r is Err && r->Err_0@ == "Didn't get a file name"@,
            args@.len() >= 3 ==> r is Ok && r->Ok_0.query@ == args@[1]@ && r->Ok_0.filename@
                == args@[2]@ && r->Ok_0.case_sensitive == !case_insensitive,
    {
        if args.len() < 2 {
            return Err("Didn't get a query string");
        }
        if args.len() < 3 {
            return Err("Didn't get a file name");
        }
        let query = args[1].clone();
        let filename = args[2].clone();
        Ok(Config { query, filename, case_sensitive: !case_insensitive })
    }
}

/// The search a configuration selects: exact when `case_sensitive`,
/// lowercase comparison otherwise.
pub fn run_search<'a>(config: &Config, contents: &'a str) -> (r: Vec<&'a str>)
    ensures
        config.case_sensitive ==> r@.map_values(|s: &str| s@) == spec_search(
            config.query@,
            contents@,
        ),
        !config.case_sensitive ==> r@.map_values(|s: &str| s@) == spec_search_ci(
            config.query@,
            contents@,
        ),
{
    if config.case_sensitive {
        search(config.query.as_str(), contents)
    } else {
        search_case_insensitive(config.query.as_str(), contents)
    }
}

} // verus!
