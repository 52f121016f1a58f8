//! The traversal itself, proved against a reference traversal of an
//! in-memory directory tree.
//!
//! A `Node` holds what the scan reads of a filesystem entry: its base name,
//! whether it is a directory, whether listing it succeeds, and its
//! children. `run_scan` drives the engine over such a tree exactly as the
//! worker loop does — pop a unit, match its name, forward its children,
//! mark the unit complete — and its contract equates what is reported with
//! the recursive reference traversal: every entry whose name contains the
//! query is reported, with no omissions and no duplicates, enumeration
//! failures are absorbed and counted, and the loop provably terminates.

use vstd::prelude::*;
use vstd::multiset::Multiset;
use vstd::string::*;
use crate::matcher::{folded, name_has_match, occurs_at, str_eq};
use crate::engine::{Aggregator, Scan};

verus! {

/// What the scan reads of one filesystem entry. An unreadable directory
/// models one whose listing fails mid-scan: its own name is still matched,
/// its children are never visited.
#[derive(Debug)]
pub enum Node {
    File { name: String },
    Dir { name: String, readable: bool, children: Vec<Node> },
}

/// A pending unit of work: an entry together with the path by which the
/// scan reached it.
pub struct WorkItem {
    pub path: String,
    pub node: Node,
}

/// One reported match: the path to the entry, its base name, the character
/// range of the first occurrence of the query in the (possibly case-folded)
/// name, and whether the entry is a directory.
#[derive(Debug)]
pub struct MatchRec {
    pub path: String,
    pub name: String,
    pub start: usize,
    pub end: usize,
    pub is_dir: bool,
}

pub open spec fn node_name(n: Node) -> Seq<char> {
    match n {
        Node::File { name } => name@,
        Node::Dir { name, .. } => name@,
    }
}

pub open spec fn node_is_dir(n: Node) -> bool {
    n is Dir
}

/// Whether the scan reports this entry for the given query.
pub open spec fn node_matched(n: Node, q: Seq<char>, ic: bool) -> bool {
    name_has_match(node_name(n), q, ic)
}

/// How many entries the scan visits in the subtree rooted at `n`: the entry
/// itself, plus everything below a readable directory.
pub open spec fn node_weight(n: Node) -> nat
    decreases n,
{
    match n {
        Node::File { .. } => 1,
        Node::Dir { readable, children, .. } => 1 + if readable {
            forest_weight(children@)
        } else {
            0
        },
    }
}

pub open spec fn forest_weight(s: Seq<Node>) -> nat
    decreases s,
{
    if s.len() == 0 {
        0
    } else {
        node_weight(s.first()) + forest_weight(s.drop_first())
    }
}

/// Matching directories in the visited subtree rooted at `n`.
pub open spec fn node_dirs(n: Node, q: Seq<char>, ic: bool) -> nat
    decreases n,
{
    match n {
        Node::File { .. } => 0,
        Node::Dir { readable, children, .. } => (if node_matched(n, q, ic) {
            1nat
        } else {
            0nat
        }) + if readable {
            forest_dirs(children@, q, ic)
        } else {
            0
        },
    }
}

pub open spec fn forest_dirs(s: Seq<Node>, q: Seq<char>, ic: bool) -> nat
    decreases s,
{
    if s.len() == 0 {
        0
    } else {
        node_dirs(s.first(), q, ic) + forest_dirs(s.drop_first(), q, ic)
    }
}

/// Matching files in the visited subtree rooted at `n`.
pub open spec fn node_files(n: Node, q: Seq<char>, ic: bool) -> nat
    decreases n,
{
    match n {
        Node::File { .. } => if node_matched(n, q, ic) {
            1nat
        } else {
            0nat
        },
        Node::Dir { readable, children, .. } => if readable {
            forest_files(children@, q, ic)
        } else {
            0
        },
    }
}

pub open spec fn forest_files(s: Seq<Node>, q: Seq<char>, ic: bool) -> nat
    decreases s,
{
    if s.len() == 0 {
        0
    } else {
        node_files(s.first(), q, ic) + forest_files(s.drop_first(), q, ic)
    }
}

/// Enumeration failures in the visited subtree rooted at `n`.
pub open spec fn node_errors(n: Node) -> nat
    decreases n,
{
    match n {
        Node::File { .. } => 0,
        Node::Dir { readable, children, .. } => if readable {
            forest_errors(children@)
        } else {
            1
        },
    }
}

pub open spec fn forest_errors(s: Seq<Node>) -> nat
    decreases s,
{
    if s.len() == 0 {
        0
    } else {
        node_errors(s.first()) + forest_errors(s.drop_first())
    }
}

/// The reference traversal: the multiset of matching entries — path, base
/// name, directory flag — in the visited subtree of `n`, whose own path is
/// `p`.
pub open spec fn node_ms(p: Seq<char>, n: Node, q: Seq<char>, ic: bool) -> Multiset<
    (Seq<char>, Seq<char>, bool),
>
    decreases n,
{
    let own = if node_matched(n, q, ic) {
        Multiset::empty().insert((p, node_name(n), node_is_dir(n)))
    } else {
        Multiset::empty()
    };
    match n {
        Node::File { .. } => own,
        Node::Dir { readable, children, .. } => own.add(
            if readable {
                forest_ms(p + "/"@, children@, q, ic)
            } else {
                Multiset::empty()
            },
        ),
    }
}

/// The matching entries of a forest of siblings; each sibling's path is the
/// prefix `pp` followed by its own name.
pub open spec fn forest_ms(pp: Seq<char>, s: Seq<Node>, q: Seq<char>, ic: bool) -> Multiset<
    (Seq<char>, Seq<char>, bool),
>
    decreases s,
{
    if s.len() == 0 {
        Multiset::empty()
    } else {
        node_ms(pp + node_name(s.first()), s.first(), q, ic).add(
            forest_ms(pp, s.drop_first(), q, ic),
        )
    }
}

/// Whether a root entry survives the exclusion list: excluded names never
/// enter the frontier, so nothing below them is visited or counted.
pub open spec fn kept(n: Node, ex: Seq<Seq<char>>) -> bool {
    !ex.contains(node_name(n))
}

/// The root entries that the scan is seeded with.
pub open spec fn filter_kept(s: Seq<Node>, ex: Seq<Seq<char>>) -> Seq<Node>
    decreases s,
{
    if s.len() == 0 {
        Seq::empty()
    } else if kept(s.first(), ex) {
        seq![s.first()] + filter_kept(s.drop_first(), ex)
    } else {
        filter_kept(s.drop_first(), ex)
    }
}

/// The reference traversal, restricted to one frontier item.
pub open spec fn item_ms(it: WorkItem, q: Seq<char>, ic: bool) -> Multiset<
    (Seq<char>, Seq<char>, bool),
> {
    node_ms(it.path@, it.node, q, ic)
}

/// Totals over a frontier, newest item last.
pub open spec fn fsum_weight(s: Seq<WorkItem>) -> nat
    decreases s,
{
    if s.len() == 0 {
        0
    } else {
        fsum_weight(s.drop_last()) + node_weight(s.last().node)
    }
}

pub open spec fn fsum_dirs(s: Seq<WorkItem>, q: Seq<char>, ic: bool) -> nat
    decreases s,
{
    if s.len() == 0 {
        0
    } else {
        fsum_dirs(s.drop_last(), q, ic) + node_dirs(s.last().node, q, ic)
    }
}

pub open spec fn fsum_files(s: Seq<WorkItem>, q: Seq<char>, ic: bool) -> nat
    decreases s,
{
    if s.len() == 0 {
        0
    } else {
        fsum_files(s.drop_last(), q, ic) + node_files(s.last().node, q, ic)
    }
}

pub open spec fn fsum_errors(s: Seq<WorkItem>) -> nat
    decreases s,
{
    if s.len() == 0 {
        0
    } else {
        fsum_errors(s.drop_last()) + node_errors(s.last().node)
    }
}

pub open spec fn fsum_ms(s: Seq<WorkItem>, q: Seq<char>, ic: bool) -> Multiset<
    (Seq<char>, Seq<char>, bool),
>
    decreases s,
{
    if s.len() == 0 {
        Multiset::empty()
    } else {
        fsum_ms(s.drop_last(), q, ic).add(item_ms(s.last(), q, ic))
    }
}

/// The multiset of entries that a sequence of match records reports.
pub open spec fn recs_ms(s: Seq<MatchRec>) -> Multiset<(Seq<char>, Seq<char>, bool)>
    decreases s,
{
    if s.len() == 0 {
        Multiset::empty()
    } else {
        recs_ms(s.drop_last()).insert((s.last().path@, s.last().name@, s.last().is_dir))
    }
}

/// A record's range is the first occurrence of the query in its name,
/// under the scan's case sensitivity.
pub open spec fn rec_valid(r: MatchRec, q: Seq<char>, ic: bool) -> bool {
    &&& name_has_match(r.name@, q, ic)
    &&& occurs_at(folded(r.name@, ic), folded(q, ic), r.start as int)
    &&& forall|j: int| 0 <= j < r.start ==> !occurs_at(folded(r.name@, ic), folded(q, ic), j)
    &&& r.end == r.start + folded(q, ic).len()
}

/// Every entry weighs at least one visit.
pub proof fn lemma_node_weight_pos(n: Node)
    ensures
        node_weight(n) >= 1,
{
}

/// A frontier holds no more items than the visits it still owes.
pub proof fn lemma_fsum_weight_len(s: Seq<WorkItem>)
    ensures
        s.len() <= fsum_weight(s),
    decreases s.len(),
{
    if s.len() > 0 {
        lemma_fsum_weight_len(s.drop_last());
        lemma_node_weight_pos(s.last().node);
    }
}

/// Each per-entry total is bounded by the number of visited entries.
pub proof fn lemma_node_bounds(n: Node, q: Seq<char>, ic: bool)
    ensures
        node_dirs(n, q, ic) <= node_weight(n),
        node_files(n, q, ic) <= node_weight(n),
        node_errors(n) <= node_weight(n),
    decreases n,
{
    match n {
        Node::File { .. } => {},
        Node::Dir { readable, children, .. } => {
            if readable {
                lemma_forest_bounds(children@, q, ic);
            }
        },
    }
}

pub proof fn lemma_forest_bounds(s: Seq<Node>, q: Seq<char>, ic: bool)
    ensures
        forest_dirs(s, q, ic) <= forest_weight(s),
        forest_files(s, q, ic) <= forest_weight(s),
        forest_errors(s) <= forest_weight(s),
    decreases s,
{
    if s.len() > 0 {
        lemma_node_bounds(s.first(), q, ic);
        lemma_forest_bounds(s.drop_first(), q, ic);
    }
}

/// Excluding root entries never adds work.
pub proof fn lemma_filter_weight(s: Seq<Node>, ex: Seq<Seq<char>>)
    ensures
        forest_weight(filter_kept(s, ex)) <= forest_weight(s),
    decreases s.len(),
{
    if s.len() > 0 {
        lemma_filter_weight(s.drop_first(), ex);
        if kept(s.first(), ex) {
            let t = seq![s.first()] + filter_kept(s.drop_first(), ex);
            assert(t.first() == s.first());
            assert(t.drop_first() =~= filter_kept(s.drop_first(), ex));
        }
    }
}

/// The base name of an entry.
pub fn name_of(n: &Node) -> (r: &str)
    ensures
        r@ == node_name(*n),
{
    match n {
        Node::File { name } => name.as_str(),
        Node::Dir { name, .. } => name.as_str(),
    }
}

/// Whether an entry is a directory.
pub fn is_dir_of(n: &Node) -> (r: bool)
    ensures
        r == node_is_dir(*n),
{
    match n {
        Node::File { .. } => false,
        Node::Dir { .. } => true,
    }
}

/// Whether `name` stands in the exclusion list.
pub fn is_excluded(name: &str, excludes: &Vec<String>) -> (r: bool)
    ensures
        r == excludes.deep_view().contains(name@),
{
    let mut i: usize = 0;
    while i < excludes.len()
        invariant
            i <= excludes@.len(),
            forall|k: int| 0 <= k < i ==> excludes.deep_view()[k] != name@,
        decreases excludes@.len() - i,
    {
        if str_eq(name, excludes[i].as_str()) {
            proof {
                assert(excludes.deep_view()[i as int] == name@);
            }
            return true;
        }
        i = i + 1;
    }
    false
}

/// The root entries minus the excluded names, their order kept.
pub fn filter_excluded(roots: Vec<Node>, excludes: &Vec<String>) -> (r: Vec<Node>)
    ensures
        r@ == filter_kept(roots@, excludes.deep_view()),
{
    let ghost ex = excludes.deep_view();
    let ghost orig = roots@;
    let mut work = roots;
    let mut out: Vec<Node> = Vec::new();
    proof {
        assert(out@ + filter_kept(work@, ex) =~= filter_kept(orig, ex));
    }
    while work.len() > 0
        invariant
            ex == excludes.deep_view(),
            filter_kept(orig, ex) == out@ + filter_kept(work@, ex),
        decreases work@.len(),
    {
        let ghost pre = work@;
        let n = work.remove(0);
        proof {
            assert(pre.remove(0) =~= pre.drop_first());
        }
        if !is_excluded(name_of(&n), excludes) {
            let ghost pre_out = out@;
            out.push(n);
            proof {
                assert(filter_kept(pre, ex) =~= seq![pre.first()] + filter_kept(
                    pre.drop_first(),
                    ex,
                ));
                assert(pre_out + filter_kept(pre, ex) =~= out@ + filter_kept(work@, ex));
            }
        }
    }
    proof {
        assert(out@ + filter_kept(work@, ex) =~= out@);
    }
    out
}

/// Law: every entry the reference traversal reports has a name the query
/// matches — no spurious reports. Together with `run_scan`'s multiset
/// equality this pins the reported set: exactly the visited entries whose
/// base name contains the query, no omissions, no duplicates.
pub proof fn lemma_node_ms_sound(
    p: Seq<char>,
    n: Node,
    q: Seq<char>,
    ic: bool,
    e: (Seq<char>, Seq<char>, bool),
)
    requires
        node_ms(p, n, q, ic).count(e) > 0,
    ensures
        name_has_match(e.1, q, ic),
    decreases n,
{
    let own = if node_matched(n, q, ic) {
        Multiset::empty().insert((p, node_name(n), node_is_dir(n)))
    } else {
        Multiset::<(Seq<char>, Seq<char>, bool)>::empty()
    };
    if own.count(e) > 0 {
        assert(e == (p, node_name(n), node_is_dir(n)));
    } else {
        match n {
            Node::File { .. } => {},
            Node::Dir { readable, children, .. } => {
                if readable {
                    lemma_forest_ms_sound(p + "/"@, children@, q, ic, e);
                }
            },
        }
    }
}

pub proof fn lemma_forest_ms_sound(
    pp: Seq<char>,
    s: Seq<Node>,
    q: Seq<char>,
    ic: bool,
    e: (Seq<char>, Seq<char>, bool),
)
    requires
        forest_ms(pp, s, q, ic).count(e) > 0,
    ensures
        name_has_match(e.1, q, ic),
    decreases s,
{
    if s.len() > 0 {
        if node_ms(pp + node_name(s.first()), s.first(), q, ic).count(e) > 0 {
            lemma_node_ms_sound(pp + node_name(s.first()), s.first(), q, ic, e);
        } else {
            lemma_forest_ms_sound(pp, s.drop_first(), q, ic, e);
        }
    }
}

/// Law: an enumeration failure in one subtree does not prevent reporting
/// of matches in sibling subtrees. A forest headed by an unreadable
/// directory reports exactly that directory's own name (if it matches),
/// one absorbed error for it, and everything its siblings report.
pub proof fn lemma_enumeration_failure_isolated(
    pp: Seq<char>,
    d: Node,
    siblings: Seq<Node>,
    q: Seq<char>,
    ic: bool,
)
    requires
        d matches Node::Dir { readable: false, .. },
    ensures
        forest_ms(pp, seq![d] + siblings, q, ic) == (if node_matched(d, q, ic) {
            Multiset::empty().insert((pp + node_name(d), node_name(d), true))
        } else {
            Multiset::empty()
        }).add(forest_ms(pp, siblings, q, ic)),
        forest_errors(seq![d] + siblings) == 1 + forest_errors(siblings),
        forest_dirs(seq![d] + siblings, q, ic) == (if node_matched(d, q, ic) {
            1nat
        } else {
            0nat
        }) + forest_dirs(siblings, q, ic),
        forest_files(seq![d] + siblings, q, ic) == forest_files(siblings, q, ic),
{
    let s = seq![d] + siblings;
    assert(s.first() == d);
    assert(s.drop_first() =~= siblings);
    assert(node_dirs(d, q, ic) == if node_matched(d, q, ic) {
        1nat
    } else {
        0nat
    });
    assert(node_files(d, q, ic) == 0);
    assert(node_errors(d) == 1);
    assert(forest_dirs(s, q, ic) == node_dirs(d, q, ic) + forest_dirs(siblings, q, ic));
    if node_matched(d, q, ic) {
        assert(node_ms(pp + node_name(d), d, q, ic) =~= Multiset::empty().insert(
            (pp + node_name(d), node_name(d), true),
        ));
    } else {
        assert(node_ms(pp + node_name(d), d, q, ic) =~= Multiset::<
            (Seq<char>, Seq<char>, bool),
        >::empty());
        assert(Multiset::<(Seq<char>, Seq<char>, bool)>::empty().add(
            forest_ms(pp, siblings, q, ic),
        ) =~= forest_ms(pp, siblings, q, ic));
    }
}

/// Law: scanning an unmodified tree twice reports the same matches. Each
/// run's reported multiset equals the reference traversal of the kept
/// roots — `run_scan` ensures as much — so any two runs agree, though the
/// order of the records may differ.
pub proof fn lemma_scan_idempotent(
    roots: Seq<Node>,
    ex: Seq<Seq<char>>,
    q: Seq<char>,
    ic: bool,
    first_run: Multiset<(Seq<char>, Seq<char>, bool)>,
    second_run: Multiset<(Seq<char>, Seq<char>, bool)>,
)
    requires
        first_run == forest_ms(Seq::empty(), filter_kept(roots, ex), q, ic),
        second_run == forest_ms(Seq::empty(), filter_kept(roots, ex), q, ic),
    ensures
        first_run == second_run,
{
}

/// The scan: seed the frontier with the kept root entries, then run the
/// worker loop — pop a unit, match its name, forward the children of a
/// readable directory, absorb an enumeration failure, mark the unit
/// complete — until nothing is queued or in flight.
///
/// The contract is the reference traversal: the reported multiset of
/// matches equals the set of visited entries whose base name contains the
/// query, the counters equal the matching directories and files, every
/// absorbed failure is counted, and each record carries the first
/// occurrence of the query in its name.
pub fn run_scan(roots: Vec<Node>, query: &str, ignore_case: bool, excludes: &Vec<String>) -> (r: (
    Aggregator,
    Vec<MatchRec>,
))
    requires
        forest_weight(roots@) <= usize::MAX,
    ensures
        ({
            let kept0 = filter_kept(roots@, excludes.deep_view());
            &&& r.0.dirs_matched() == forest_dirs(kept0, query@, ignore_case)
            &&& r.0.files_matched() == forest_files(kept0, query@, ignore_case)
            &&& r.0.errors_seen() == forest_errors(kept0)
            &&& recs_ms(r.1@) == forest_ms(Seq::empty(), kept0, query@, ignore_case)
            &&& forall|k: int|
                0 <= k < r.1@.len() ==> rec_valid(r.1@[k], query@, ignore_case)
        }),
{
    let ghost q = query@;
    let ghost ic = ignore_case;
    let ghost roots0 = roots@;
    let mut work = filter_excluded(roots, excludes);
    let ghost kept0 = work@;
    proof {
        lemma_filter_weight(roots0, excludes.deep_view());
        lemma_forest_bounds(kept0, q, ic);
    }
    let ghost w_total = forest_weight(kept0);
    let ghost d_total = forest_dirs(kept0, q, ic);
    let ghost f_total = forest_files(kept0, q, ic);
    let ghost e_total = forest_errors(kept0);
    let ghost m_total = forest_ms(Seq::empty(), kept0, q, ic);

    let mut scan: Scan<WorkItem> = Scan::new();
    let mut agg = Aggregator::new();
    let mut recs: Vec<MatchRec> = Vec::new();

    // SEEDING: the kept root entries enter the frontier; each is reached by
    // its own name.
    while work.len() > 0
        invariant
            scan.wf(),
            !scan.is_cancelled(),
            scan.outstanding_units() == 0,
            fsum_weight(scan.frontier()) + forest_weight(work@) == w_total,
            fsum_dirs(scan.frontier(), q, ic) + forest_dirs(work@, q, ic) == d_total,
            fsum_files(scan.frontier(), q, ic) + forest_files(work@, q, ic) == f_total,
            fsum_errors(scan.frontier()) + forest_errors(work@) == e_total,
            fsum_ms(scan.frontier(), q, ic).add(forest_ms(Seq::empty(), work@, q, ic)) == m_total,
            w_total <= usize::MAX,
        decreases work@.len(),
    {
        let ghost pre_work = work@;
        let ghost pre_front = scan.frontier();
        let c = work.remove(0);
        proof {
            assert(pre_work.remove(0) =~= pre_work.drop_first());
            lemma_fsum_weight_len(pre_front);
            lemma_node_weight_pos(c);
        }
        let p = name_of(&c).to_owned();
        let ghost gc = c;
        scan.push_item(WorkItem { path: p, node: c });
        proof {
            assert(scan.frontier().drop_last() =~= pre_front);
            assert(Seq::<char>::empty() + node_name(gc) =~= node_name(gc));
            assert(fsum_ms(scan.frontier(), q, ic) =~= fsum_ms(pre_front, q, ic).add(
                node_ms(node_name(gc), gc, q, ic),
            ));
            assert(fsum_ms(scan.frontier(), q, ic).add(forest_ms(Seq::empty(), work@, q, ic)) =~= fsum_ms(
                pre_front,
                q,
                ic,
            ).add(forest_ms(Seq::empty(), pre_work, q, ic)));
        }
    }

    // RUNNING: the worker loop, with the in-flight counter deciding when no
    // more work can ever appear.
    loop
        invariant
            q == query@,
            ic == ignore_case,
            scan.wf(),
            !scan.is_cancelled(),
            scan.outstanding_units() == 0,
            agg.dirs_matched() + fsum_dirs(scan.frontier(), q, ic) == d_total,
            agg.files_matched() + fsum_files(scan.frontier(), q, ic) == f_total,
            agg.errors_seen() + fsum_errors(scan.frontier()) == e_total,
            recs_ms(recs@).add(fsum_ms(scan.frontier(), q, ic)) == m_total,
            fsum_weight(scan.frontier()) <= w_total,
            w_total <= usize::MAX,
            d_total <= w_total,
            f_total <= w_total,
            e_total <= w_total,
            forall|k: int| 0 <= k < recs@.len() ==> rec_valid(recs@[k], q, ic),
        ensures
            scan.frontier().len() == 0,
            scan.outstanding_units() == 0,
            agg.dirs_matched() + fsum_dirs(scan.frontier(), q, ic) == d_total,
            agg.files_matched() + fsum_files(scan.frontier(), q, ic) == f_total,
            agg.errors_seen() + fsum_errors(scan.frontier()) == e_total,
            recs_ms(recs@).add(fsum_ms(scan.frontier(), q, ic)) == m_total,
            forall|k: int| 0 <= k < recs@.len() ==> rec_valid(recs@[k], q, ic),
        decreases fsum_weight(scan.frontier()),
    {
        let ghost pre_front = scan.frontier();
        match scan.take_work() {
            None => {
                break;
            },
            Some(item) => {
                proof {
                    assert(item == pre_front.last());
                    assert(scan.frontier() =~= pre_front.drop_last());
                }
                let ghost front1 = scan.frontier();
                let WorkItem { path, node } = item;
                let ghost p = path@;
                let ghost gnode = node;
                let is_dir = is_dir_of(&node);
                let m = crate::matcher::matches(name_of(&node), query, ignore_case);
                if let Some(range) = m {
                    proof {
                        if is_dir {
                            assert(node_dirs(gnode, q, ic) >= 1);
                        } else {
                            assert(node_files(gnode, q, ic) >= 1);
                        }
                    }
                    agg.record_match(is_dir);
                    let ghost pre_recs = recs@;
                    recs.push(
                        MatchRec {
                            path: path.clone(),
                            name: name_of(&node).to_owned(),
                            start: range.0,
                            end: range.1,
                            is_dir,
                        },
                    );
                    proof {
                        assert(recs@.drop_last() =~= pre_recs);
                        assert(recs@.last().path@ == p);
                        assert(recs@.last().name@ == node_name(gnode));
                        assert(rec_valid(recs@.last(), q, ic));
                        assert(forall|k: int|
                            0 <= k < pre_recs.len() ==> recs@[k] == pre_recs[k]);
                    }
                }
                match node {
                    Node::File { .. } => {
                        proof {
                            if node_matched(gnode, q, ic) {
                                assert(node_ms(p, gnode, q, ic) =~= Multiset::empty().insert(
                                    (p, node_name(gnode), false),
                                ));
                                assert(recs_ms(recs@).add(fsum_ms(front1, q, ic)) =~= m_total);
                            } else {
                                assert(node_ms(p, gnode, q, ic) =~= Multiset::<
                                    (Seq<char>, Seq<char>, bool),
                                >::empty());
                                assert(recs_ms(recs@).add(fsum_ms(front1, q, ic)) =~= m_total);
                            }
                        }
                        scan.complete_unit();
                    },
                    Node::Dir { readable, children, .. } => {
                        if readable {
                            let ghost own_ms = (if node_matched(gnode, q, ic) {
                                Multiset::empty().insert((p, node_name(gnode), true))
                            } else {
                                Multiset::empty()
                            });
                            proof {
                                assert(node_ms(p, gnode, q, ic) == own_ms.add(
                                    forest_ms(p + "/"@, children@, q, ic),
                                ));
                                assert(recs_ms(recs@).add(fsum_ms(front1, q, ic)).add(
                                    forest_ms(p + "/"@, children@, q, ic),
                                ) =~= m_total);
                            }
                            let mut kids = children;
                            let mut prefix = path;
                            prefix.append("/");
                            while kids.len() > 0
                                invariant
                                    q == query@,
                                    ic == ignore_case,
                                    prefix@ == p + "/"@,
                                    scan.wf(),
                                    !scan.is_cancelled(),
                                    scan.outstanding_units() == 1,
                                    agg.dirs_matched() + fsum_dirs(scan.frontier(), q, ic)
                                        + forest_dirs(kids@, q, ic) == d_total,
                                    agg.files_matched() + fsum_files(scan.frontier(), q, ic)
                                        + forest_files(kids@, q, ic) == f_total,
                                    agg.errors_seen() + fsum_errors(scan.frontier())
                                        + forest_errors(kids@) == e_total,
                                    recs_ms(recs@).add(fsum_ms(scan.frontier(), q, ic)).add(
                                        forest_ms(p + "/"@, kids@, q, ic),
                                    ) == m_total,
                                    fsum_weight(scan.frontier()) + forest_weight(kids@) + 1
                                        == fsum_weight(pre_front),
                                    fsum_weight(pre_front) <= w_total,
                                    w_total <= usize::MAX,
                                    forall|k: int|
                                        0 <= k < recs@.len() ==> rec_valid(recs@[k], q, ic),
                                decreases kids@.len(),
                            {
                                let ghost pre_kids = kids@;
                                let ghost front0 = scan.frontier();
                                let c = kids.remove(0);
                                proof {
                                    assert(pre_kids.remove(0) =~= pre_kids.drop_first());
                                    lemma_fsum_weight_len(front0);
                                    lemma_node_weight_pos(c);
                                }
                                let mut cp = prefix.clone();
                                cp.append(name_of(&c));
                                let ghost gc = c;
                                scan.push_item(WorkItem { path: cp, node: c });
                                proof {
                                    assert(scan.frontier().drop_last() =~= front0);
                                    assert(fsum_ms(scan.frontier(), q, ic) =~= fsum_ms(
                                        front0,
                                        q,
                                        ic,
                                    ).add(node_ms(p + "/"@ + node_name(gc), gc, q, ic)));
                                    assert(recs_ms(recs@).add(fsum_ms(scan.frontier(), q, ic)).add(
                                        forest_ms(p + "/"@, kids@, q, ic),
                                    ) =~= recs_ms(recs@).add(fsum_ms(front0, q, ic)).add(
                                        forest_ms(p + "/"@, pre_kids, q, ic),
                                    ));
                                }
                            }
                            proof {
                                assert(recs_ms(recs@).add(fsum_ms(scan.frontier(), q, ic)) =~= recs_ms(
                                    recs@,
                                ).add(fsum_ms(scan.frontier(), q, ic)).add(
                                    forest_ms(p + "/"@, kids@, q, ic),
                                ));
                            }
                            scan.complete_unit();
                        } else {
                            proof {
                                assert(node_errors(gnode) == 1);
                                assert(node_ms(p, gnode, q, ic) =~= (if node_matched(
                                    gnode,
                                    q,
                                    ic,
                                ) {
                                    Multiset::empty().insert((p, node_name(gnode), true))
                                } else {
                                    Multiset::empty()
                                }));
                                assert(recs_ms(recs@).add(fsum_ms(front1, q, ic)) =~= m_total);
                            }
                            agg.record_error();
                            scan.complete_unit();
                        }
                    },
                }
            },
        }
    }
    proof {
        assert(fsum_ms(scan.frontier(), q, ic) =~= Multiset::<(Seq<char>, Seq<char>, bool)>::empty());
        assert(recs_ms(recs@).add(Multiset::empty()) =~= recs_ms(recs@));
    }
    (agg, recs)
}

} // verus!
