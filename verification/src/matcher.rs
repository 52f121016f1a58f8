//! The path matcher: a pure predicate reporting whether and where a query
//! occurs as a substring of a file or directory name, case-sensitively or
//! not. Positions are character positions in the (possibly case-folded)
//! name.

use vstd::prelude::*;
use vstd::string::*;

verus! {

/// `query` occurs in `name` starting at character position `i`.
pub open spec fn occurs_at(name: Seq<char>, query: Seq<char>, i: int) -> bool {
    &&& 0 <= i
    &&& i + query.len() <= name.len()
    &&& name.subrange(i, i + query.len() as int) == query
}

/// `name` contains `query` somewhere.
pub open spec fn has_match(name: Seq<char>, query: Seq<char>) -> bool {
    exists|i: int| occurs_at(name, query, i)
}

/// The characters that `str::to_lowercase` returns for a given sequence of
/// characters; the result is a function of the characters alone.
pub uninterp spec fn lower_of(s: Seq<char>) -> Seq<char>;

/// Relies on `str::to_lowercase`: its result depends only on the characters
/// of its argument, and lowercasing the empty string yields the empty string.
#[verifier::external_body]
fn fold_lower(s: &str) -> (r: String)
    ensures
        r@ == lower_of(s@),
        s@.len() == 0 ==> r@.len() == 0,
{
    s.to_lowercase()
}

/// The sequence a string is compared by: case-folded when case is ignored.
pub open spec fn folded(s: Seq<char>, ignore_case: bool) -> Seq<char> {
    if ignore_case {
        lower_of(s)
    } else {
        s
    }
}

/// Whether a name matches a query under the given case sensitivity.
pub open spec fn name_has_match(name: Seq<char>, query: Seq<char>, ignore_case: bool) -> bool {
    has_match(folded(name, ignore_case), folded(query, ignore_case))
}

/// Law: the empty query matches every name, at position 0.
pub proof fn lemma_empty_query_matches(name: Seq<char>)
    ensures
        occurs_at(name, Seq::<char>::empty(), 0),
        has_match(name, Seq::<char>::empty()),
{
    assert(name.subrange(0, 0) =~= Seq::<char>::empty());
}

/// Character-by-character string equality.
pub fn str_eq(a: &str, b: &str) -> (r: bool)
    ensures
        r == (a@ == b@),
{
    let n = a.unicode_len();
    if n != b.unicode_len() {
        return false;
    }
    let mut i: usize = 0;
    while i < n
        invariant
            n == a@.len(),
            n == b@.len(),
            i <= n,
            forall|k: int| 0 <= k < i ==> a@[k] == b@[k],
        decreases n - i,
    {
        if a.get_char(i) != b.get_char(i) {
            return false;
        }
        i = i + 1;
    }
    proof {
        assert(a@ =~= b@);
    }
    true
}

/// Whether `query` occurs in `name` at exactly position `i`.
fn match_at(name: &str, query: &str, i: usize) -> (r: bool)
    requires
        i + query@.len() <= name@.len(),
        name@.len() <= usize::MAX,
    ensures
        r == occurs_at(name@, query@, i as int),
{
    let m = query.unicode_len();
    let mut j: usize = 0;
    while j < m
        invariant
            m == query@.len(),
            i + m <= name@.len(),
            name@.len() <= usize::MAX,
            j <= m,
            forall|k: int| 0 <= k < j ==> name@[i + k] == #[trigger] query@[k],
        decreases m - j,
    {
        if name.get_char(i + j) != query.get_char(j) {
            proof {
                assert(name@.subrange(i as int, i + m as int)[j as int] == name@[i + j]);
            }
            return false;
        }
        j = j + 1;
    }
    proof {
        assert(name@.subrange(i as int, i + m as int) =~= query@);
    }
    true
}

/// The first character position at which `query` occurs in `name`, if any.
pub fn find_first(name: &str, query: &str) -> (r: Option<usize>)
    ensures
        match r {
            Some(i) => {
                &&& occurs_at(name@, query@, i as int)
                &&& forall|j: int| 0 <= j < i ==> !occurs_at(name@, query@, j)
            },
            None => !has_match(name@, query@),
        },
{
    let n = name.unicode_len();
    let m = query.unicode_len();
    if m > n {
        return None;
    }
    if m == 0 {
        proof {
            assert(name@.subrange(0, 0) =~= query@);
        }
        return Some(0);
    }
    let mut i: usize = 0;
    while i <= n - m
        invariant
            n == name@.len(),
            m == query@.len(),
            1 <= m <= n,
            i <= n - m + 1,
            forall|j: int| 0 <= j < i ==> !occurs_at(name@, query@, j),
        decreases n - m + 1 - i,
    {
        if match_at(name, query, i) {
            return Some(i);
        }
        i = i + 1;
    }
    None
}

/// Whether and where `query` first occurs in `name`, per the scan's case
/// sensitivity. An empty query matches every name at position 0. The
/// returned range is a character range in the case-folded name.
pub fn matches(name: &str, query: &str, ignore_case: bool) -> (r: Option<(usize, usize)>)
    ensures
        (r is Some) == name_has_match(name@, query@, ignore_case),
        match r {
            Some(p) => {
                &&& occurs_at(
                    folded(name@, ignore_case),
                    folded(query@, ignore_case),
                    p.0 as int,
                )
                &&& forall|j: int|
                    0 <= j < p.0 ==> !occurs_at(
                        folded(name@, ignore_case),
                        folded(query@, ignore_case),
                        j,
                    )
                &&& p.1 == p.0 + folded(query@, ignore_case).len()
            },
            None => true,
        },
        query@.len() == 0 ==> r == Some((0usize, 0usize)),
{
    if ignore_case {
        let fname = fold_lower(name);
        let fquery = fold_lower(query);
        let fm = fquery.as_str().unicode_len();
        // Binds the folded name's length, so the range's end stays in bounds.
        let _flen: usize = fname.as_str().unicode_len();
        proof {
            if query@.len() == 0 {
                assert(fname@.subrange(0, 0) =~= fquery@);
                assert(occurs_at(fname@, fquery@, 0));
            }
        }
        match find_first(fname.as_str(), fquery.as_str()) {
            Some(i) => Some((i, i + fm)),
            None => None,
        }
    } else {
        let m = query.unicode_len();
        // Binds the name's length, so the range's end stays in bounds.
        let _nlen: usize = name.unicode_len();
        proof {
            if query@.len() == 0 {
                assert(name@.subrange(0, 0) =~= query@);
                assert(occurs_at(name@, query@, 0));
            }
        }
        match find_first(name, query) {
            Some(i) => Some((i, i + m)),
            None => None,
        }
    }
}

} // verus!
