//! The command-line configuration: a `Hunter` built from the argument
//! list. The first free argument is the query, the second the root
//! directory, `--ignore-case` sets the
//! case flag, `--help` stops parsing and asks for the help text, and
//! `--exclude` takes a comma-separated list whose entries are reduced to
//! their final path component. An exclude entry with no usable final
//! component (empty, only slashes, `.` or `..`) is rejected with an
//! error rather than accepted.

use vstd::prelude::*;
use vstd::string::*;
use crate::matcher::str_eq;

verus! {

/// The configuration of one scan.
#[derive(Debug)]
pub struct Hunter {
    pub query: String,
    pub root_path: String,
    pub thread_count: u32,
    pub ignore_case: bool,
    pub print_help: bool,
    pub exclude_elements: Vec<String>,
}

/// The spec-level image of a configuration.
pub struct ConfigView {
    pub query: Seq<char>,
    pub root: Seq<char>,
    pub thread_count: u32,
    pub ignore_case: bool,
    pub print_help: bool,
    pub excludes: Seq<Seq<char>>,
}

impl View for Hunter {
    type V = ConfigView;

    open spec fn view(&self) -> ConfigView {
        ConfigView {
            query: self.query@,
            root: self.root_path@,
            thread_count: self.thread_count,
            ignore_case: self.ignore_case,
            print_help: self.print_help,
            excludes: self.exclude_elements.deep_view(),
        }
    }
}

/// The configuration every parse starts from: no query, no root, four
/// workers, case-sensitive, no help, nothing excluded.
pub open spec fn initial_config() -> ConfigView {
    ConfigView {
        query: Seq::empty(),
        root: Seq::empty(),
        thread_count: 4,
        ignore_case: false,
        print_help: false,
        excludes: Seq::empty(),
    }
}

pub open spec fn msg_invalid() -> Seq<char> {
    "Invalid arguments!"@
}

pub open spec fn msg_exclude_missing() -> Seq<char> {
    "Please specify elements to exclude. See --help"@
}

pub open spec fn msg_order() -> Seq<char> {
    "Invalid order of arguments. See --help"@
}

pub open spec fn msg_exclude_invalid() -> Seq<char> {
    "Invalid elements to exclude. See --help"@
}

/// The length of `s` once trailing '/' characters are dropped.
pub open spec fn trim_len(s: Seq<char>) -> int
    decreases s.len(),
{
    if s.len() == 0 {
        0
    } else if s.last() == '/' {
        trim_len(s.drop_last())
    } else {
        s.len() as int
    }
}

/// The position just after the last '/' in `s`, or 0 if there is none.
pub open spec fn after_last_slash(s: Seq<char>) -> int
    decreases s.len(),
{
    if s.len() == 0 {
        0
    } else if s.last() == '/' {
        s.len() as int
    } else {
        after_last_slash(s.drop_last())
    }
}

pub proof fn lemma_trim_len_bounds(s: Seq<char>)
    ensures
        0 <= trim_len(s) <= s.len(),
    decreases s.len(),
{
    if s.len() > 0 && s.last() == '/' {
        lemma_trim_len_bounds(s.drop_last());
    }
}

pub proof fn lemma_after_last_slash_bounds(s: Seq<char>)
    ensures
        0 <= after_last_slash(s) <= s.len(),
    decreases s.len(),
{
    if s.len() > 0 && s.last() != '/' {
        lemma_after_last_slash_bounds(s.drop_last());
    }
}

/// The final path component an exclude entry is reduced to: trailing
/// slashes are dropped, then what follows the last remaining slash is
/// taken; an empty result, `.` or `..` names no entry and is rejected.
pub open spec fn base_name_of(s: Seq<char>) -> Option<Seq<char>> {
    let t = s.subrange(0, trim_len(s));
    let b = t.subrange(after_last_slash(t), t.len() as int);
    if b.len() == 0 || b == "."@ || b == ".."@ {
        None
    } else {
        Some(b)
    }
}

/// The first ',' in `s` at or after `i`, or the length of `s`.
pub open spec fn first_comma(s: Seq<char>, i: int) -> int
    decreases s.len() - i,
{
    if i < 0 || i >= s.len() {
        s.len() as int
    } else if s[i] == ',' {
        i
    } else {
        first_comma(s, i + 1)
    }
}

pub proof fn lemma_first_comma_bounds(s: Seq<char>, i: int)
    requires
        0 <= i <= s.len(),
    ensures
        i <= first_comma(s, i) <= s.len(),
        first_comma(s, i) < s.len() ==> s[first_comma(s, i)] == ',',
        forall|k: int| i <= k < first_comma(s, i) ==> s[k] != ',',
    decreases s.len() - i,
{
    if i < s.len() && s[i] != ',' {
        lemma_first_comma_bounds(s, i + 1);
    }
}

/// A comma-free stretch does not move the first comma.
pub proof fn lemma_first_comma_scan(s: Seq<char>, i: int, j: int)
    requires
        0 <= i <= j <= s.len(),
        forall|k: int| i <= k < j ==> s[k] != ',',
    ensures
        first_comma(s, i) == first_comma(s, j),
    decreases j - i,
{
    if i < j {
        lemma_first_comma_scan(s, i + 1, j);
    }
}

/// The exclusion list an `--exclude` value parses to: the entry names of
/// the comma-separated pieces from position `i` on, or nothing if any
/// piece names no entry.
pub open spec fn excl_from(s: Seq<char>, i: int) -> Option<Seq<Seq<char>>>
    decreases s.len() - i,
    when 0 <= i <= s.len()
    via excl_from_decreases
{
    let j = first_comma(s, i);
    match base_name_of(s.subrange(i, j)) {
        None => None,
        Some(b) => if j >= s.len() {
            Some(seq![b])
        } else {
            match excl_from(s, j + 1) {
                None => None,
                Some(rest) => Some(seq![b] + rest),
            }
        },
    }
}

#[via_fn]
proof fn excl_from_decreases(s: Seq<char>, i: int) {
    lemma_first_comma_bounds(s, i);
}

pub open spec fn spec_excludes(s: Seq<char>) -> Option<Seq<Seq<char>>> {
    excl_from(s, 0)
}

/// What remains to be decided once every argument has been examined: a
/// help request stands on its own; otherwise fewer than two real
/// arguments name no search.
pub open spec fn finish_args(args: Seq<Seq<char>>, c: ConfigView) -> Result<ConfigView, Seq<char>> {
    if !c.print_help && args.len() < 3 {
        Err(msg_invalid())
    } else {
        Ok(c)
    }
}

/// One pass over the arguments from position `i` on, the program name at
/// position 0 already skipped. The value following `--exclude` is not
/// skipped: it is examined again on the next step, where a set exclusion
/// list makes it a silently ignored positional.
pub open spec fn parse_from(args: Seq<Seq<char>>, i: int, c: ConfigView) -> Result<
    ConfigView,
    Seq<char>,
>
    decreases args.len() - i,
{
    if i < 0 || i >= args.len() {
        finish_args(args, c)
    } else if args[i] == "--ignore-case"@ {
        parse_from(args, i + 1, ConfigView { ignore_case: true, ..c })
    } else if args[i] == "--exclude"@ {
        if i + 1 >= args.len() {
            Err(msg_exclude_missing())
        } else if c.query.len() == 0 || c.root.len() == 0 {
            Err(msg_order())
        } else {
            match spec_excludes(args[i + 1]) {
                None => Err(msg_exclude_invalid()),
                Some(ex) => parse_from(args, i + 1, ConfigView { excludes: ex, ..c }),
            }
        }
    } else if args[i] == "--help"@ {
        Ok(ConfigView { print_help: true, ..c })
    } else {
        if c.query.len() == 0 {
            parse_from(args, i + 1, ConfigView { query: args[i], ..c })
        } else if c.root.len() == 0 {
            parse_from(args, i + 1, ConfigView { root: args[i], ..c })
        } else if c.excludes.len() == 0 {
            Err(msg_invalid())
        } else {
            parse_from(args, i + 1, c)
        }
    }
}

/// What an argument list parses to.
pub open spec fn spec_parse(args: Seq<Seq<char>>) -> Result<ConfigView, Seq<char>> {
    if args.len() < 2 {
        Err(msg_invalid())
    } else {
        parse_from(args, 1, initial_config())
    }
}

/// The final path component of one exclude entry, or nothing if the entry
/// names none.
pub fn base_name(s: &str) -> (r: Option<String>)
    ensures
        match r {
            Some(b) => base_name_of(s@) == Some(b@),
            None => base_name_of(s@) is None,
        },
{
    let n = s.unicode_len();
    let mut end: usize = n;
    proof {
        assert(s@.subrange(0, n as int) =~= s@);
    }
    loop
        invariant
            n == s@.len(),
            end <= n,
            trim_len(s@) == trim_len(s@.subrange(0, end as int)),
        ensures
            end <= n,
            trim_len(s@) == end,
        decreases end,
    {
        proof {
            lemma_trim_len_bounds(s@.subrange(0, end as int));
        }
        if end == 0 {
            break;
        }
        if s.get_char(end - 1) != '/' {
            proof {
                assert(trim_len(s@.subrange(0, end as int)) == end);
            }
            break;
        }
        proof {
            assert(s@.subrange(0, end as int).drop_last() =~= s@.subrange(0, end - 1));
        }
        end = end - 1;
    }
    let ghost t = s@.subrange(0, trim_len(s@));
    let mut start: usize = end;
    proof {
        assert(t.subrange(0, end as int) =~= t);
    }
    loop
        invariant
            n == s@.len(),
            start <= end <= n,
            trim_len(s@) == end,
            t == s@.subrange(0, end as int),
            after_last_slash(t) == after_last_slash(t.subrange(0, start as int)),
        ensures
            start <= end,
            after_last_slash(t) == start,
        decreases start,
    {
        proof {
            lemma_after_last_slash_bounds(t.subrange(0, start as int));
        }
        if start == 0 {
            break;
        }
        if s.get_char(start - 1) == '/' {
            proof {
                assert(t.subrange(0, start as int).last() == '/');
            }
            break;
        }
        proof {
            assert(t.subrange(0, start as int).drop_last() =~= t.subrange(0, start - 1));
            assert(t.subrange(0, start as int).last() != '/');
        }
        start = start - 1;
    }
    let b = s.substring_char(start, end);
    proof {
        assert(b@ =~= t.subrange(after_last_slash(t), t.len() as int));
    }
    if b.unicode_len() == 0 || str_eq(b, ".") || str_eq(b, "..") {
        None
    } else {
        Some(b.to_owned())
    }
}

/// The exclusion list of one `--exclude` value, from position `i` on.
fn parse_excludes_from(s: &str, i: usize) -> (r: Option<Vec<String>>)
    requires
        i <= s@.len(),
        s@.len() <= usize::MAX,
    ensures
        match r {
            Some(v) => excl_from(s@, i as int) == Some(v.deep_view()),
            None => excl_from(s@, i as int) is None,
        },
    decreases s@.len() - i,
{
    let n = s.unicode_len();
    let mut j: usize = i;
    loop
        invariant
            n == s@.len(),
            i <= j <= n,
            forall|k: int| i <= k < j ==> s@[k] != ',',
        ensures
            i <= j <= n,
            first_comma(s@, i as int) == j,
        decreases n - j,
    {
        if j == n {
            proof {
                lemma_first_comma_scan(s@, i as int, j as int);
            }
            break;
        }
        if s.get_char(j) == ',' {
            proof {
                lemma_first_comma_scan(s@, i as int, j as int);
            }
            break;
        }
        j = j + 1;
    }
    let piece = s.substring_char(i, j);
    match base_name(piece) {
        None => None,
        Some(b) => {
            if j == n {
                let mut v: Vec<String> = Vec::new();
                v.push(b);
                proof {
                    assert(v.deep_view() =~= seq![v@[0]@]);
                }
                Some(v)
            } else {
                match parse_excludes_from(s, j + 1) {
                    None => None,
                    Some(rest) => {
                        let ghost rest0 = rest.deep_view();
                        let mut v: Vec<String> = Vec::new();
                        v.push(b);
                        let mut rest = rest;
                        v.append(&mut rest);
                        proof {
                            assert(v.deep_view() =~= seq![v@[0]@] + rest0);
                        }
                        Some(v)
                    },
                }
            }
        },
    }
}

/// The exclusion list of one `--exclude` value.
pub fn parse_excludes(s: &str) -> (r: Option<Vec<String>>)
    ensures
        match r {
            Some(v) => spec_excludes(s@) == Some(v.deep_view()),
            None => spec_excludes(s@) is None,
        },
{
    let _len: usize = s.unicode_len();
    parse_excludes_from(s, 0)
}

impl Hunter {
    /// The configuration every parse starts from.
    fn initial() -> (h: Hunter)
        ensures
            h@ == initial_config(),
    {
        let h = Hunter {
            query: String::new(),
            root_path: String::new(),
            thread_count: 4,
            ignore_case: false,
            print_help: false,
            exclude_elements: Vec::new(),
        };
        proof {
            assert(h@.excludes =~= initial_config().excludes);
        }
        h
    }

    /// Builds a configuration from the command-line arguments, the program
    /// name first. Exactly the argument lists that `spec_parse` accepts
    /// yield a configuration; every other list yields the corresponding
    /// error message.
    pub fn build(args: Vec<String>) -> (r: Result<Hunter, String>)
        ensures
            match spec_parse(args.deep_view()) {
                Ok(c) => r matches Ok(h) && h@ == c,
                Err(m) => r matches Err(e) && e@ == m,
            },
    {
        if args.len() < 2 {
            Err("Invalid arguments!".to_owned())
        } else {
            parse_rec(&args, 1, Hunter::initial())
        }
    }
}

/// One step of the argument walk, mirroring `parse_from`.
fn parse_rec(args: &Vec<String>, i: usize, cur: Hunter) -> (r: Result<Hunter, String>)
    ensures
        match parse_from(args.deep_view(), i as int, cur@) {
            Ok(c) => r matches Ok(h) && h@ == c,
            Err(m) => r matches Err(e) && e@ == m,
        },
    decreases args@.len() - i,
{
    if i >= args.len() {
        if !cur.print_help && args.len() < 3 {
            Err("Invalid arguments!".to_owned())
        } else {
            Ok(cur)
        }
    } else {
        proof {
            assert(args.deep_view()[i as int] == args@[i as int]@);
        }
        if str_eq(args[i].as_str(), "--ignore-case") {
            let mut c = cur;
            c.ignore_case = true;
            parse_rec(args, i + 1, c)
        } else if str_eq(args[i].as_str(), "--exclude") {
            if i + 1 >= args.len() {
                Err("Please specify elements to exclude. See --help".to_owned())
            } else if cur.query.as_str().is_empty() || cur.root_path.as_str().is_empty() {
                Err("Invalid order of arguments. See --help".to_owned())
            } else {
                proof {
                    assert(args.deep_view()[i + 1] == args@[i + 1]@);
                }
                match parse_excludes(args[i + 1].as_str()) {
                    None => Err("Invalid elements to exclude. See --help".to_owned()),
                    Some(ex) => {
                        let mut c = cur;
                        c.exclude_elements = ex;
                        parse_rec(args, i + 1, c)
                    },
                }
            }
        } else if str_eq(args[i].as_str(), "--help") {
            let mut c = cur;
            c.print_help = true;
            Ok(c)
        } else {
            if cur.query.as_str().is_empty() {
                let mut c = cur;
                c.query = args[i].clone();
                parse_rec(args, i + 1, c)
            } else if cur.root_path.as_str().is_empty() {
                let mut c = cur;
                c.root_path = args[i].clone();
                parse_rec(args, i + 1, c)
            } else if cur.exclude_elements.is_empty() {
                Err("Invalid arguments!".to_owned())
            } else {
                parse_rec(args, i + 1, cur)
            }
        }
    }
}

} // verus!
