//! Ordering programs so that every program runs after the programs that feed it.
//!
//! The dependencies are a table from a program to the programs it feeds (through buses).  An execution
//! order lists every program once, and puts each program after every program that feeds it.  Kahn's algorithm
//! finds one when there is one.
use vstd::prelude::*;

verus! {

broadcast use vstd::seq_lib::group_seq_properties, vstd::set::group_set_axioms;

/// A dependency table: each entry is a program and the programs it feeds.
pub type Dependencies = Vec<(u64, Vec<u64>)>;

/// How many times `x` occurs in `s`.
pub open spec fn occurrences(s: Seq<u64>, x: u64) -> nat
    decreases s.len(),
{
    if s.len() == 0 {
        0
    } else {
        occurrences(s.drop_last(), x) + if s.last() == x {
            1nat
        } else {
            0nat
        }
    }
}

/// No two entries of the table belong to the same program.
pub open spec fn keys_distinct(deps: Seq<(u64, Vec<u64>)>) -> bool {
    forall|i: int, j: int|
        0 <= i < deps.len() && 0 <= j < deps.len() && i != j ==> #[trigger] deps[i].0 != #[trigger] deps[j].0
}

/// Whether `source` has an entry in the table.
pub open spec fn has_entry(deps: Seq<(u64, Vec<u64>)>, source: u64) -> bool {
    exists|i: int| 0 <= i < deps.len() && #[trigger] deps[i].0 == source
}

/// The programs that `source` feeds according to the table; empty when it has no entry.
pub open spec fn dependents(deps: Seq<(u64, Vec<u64>)>, source: u64) -> Seq<u64>
    decreases deps.len(),
{
    if deps.len() == 0 {
        Seq::empty()
    } else if deps.last().0 == source {
        deps.last().1@
    } else {
        dependents(deps.drop_last(), source)
    }
}

/// The number of edges into `target` whose source is not in `done`, each occurrence counted.
pub open spec fn pending_inputs(deps: Seq<(u64, Vec<u64>)>, target: u64, done: Set<u64>) -> nat
    decreases deps.len(),
{
    if deps.len() == 0 {
        0
    } else {
        pending_inputs(deps.drop_last(), target, done) + if done.contains(deps.last().0) {
            0nat
        } else {
            occurrences(deps.last().1@, target)
        }
    }
}

/// The number of edges in the table.
pub open spec fn edge_total(deps: Seq<(u64, Vec<u64>)>) -> nat
    decreases deps.len(),
{
    if deps.len() == 0 {
        0
    } else {
        edge_total(deps.drop_last()) + deps.last().1@.len()
    }
}

/// `order` runs every program once, and each program after every program that feeds it.  A program fed by
/// something that is not a program can never run.
pub open spec fn is_execution_order(programs: Seq<u64>, deps: Seq<(u64, Vec<u64>)>, order: Seq<u64>) -> bool {
    &&& order.no_duplicates()
    &&& forall|p: u64| order.contains(p) <==> programs.contains(p)
    &&& forall|i: int, j: int|
        0 <= i < order.len() && 0 <= j < order.len() && #[trigger] dependents(deps, order[i]).contains(
            #[trigger] order[j],
        ) ==> i < j
    &&& forall|s: u64, j: int|
        0 <= j < order.len() && #[trigger] dependents(deps, s).contains(#[trigger] order[j]) ==> order.contains(
            s,
        )
}

/// Some execution order exists.
pub open spec fn has_execution_order(programs: Seq<u64>, deps: Seq<(u64, Vec<u64>)>) -> bool {
    exists|order: Seq<u64>| is_execution_order(programs, deps, order)
}

pub(crate) proof fn lemma_occurrences_push(s: Seq<u64>, a: u64, x: u64)
    ensures
        occurrences(s.push(a), x) == occurrences(s, x) + if a == x {
            1nat
        } else {
            0nat
        },
{
    assert(s.push(a).drop_last() =~= s);
}

pub(crate) proof fn lemma_occurrences_contains(s: Seq<u64>, x: u64)
    ensures
        s.contains(x) <==> occurrences(s, x) > 0,
    decreases s.len(),
{
    if s.len() > 0 {
        lemma_occurrences_contains(s.drop_last(), x);
        if s.contains(x) && s.last() != x {
            let i = choose|i: int| 0 <= i < s.len() && s[i] == x;
            assert(s.drop_last()[i] == x);
        }
        if s.drop_last().contains(x) {
            let i = choose|i: int| 0 <= i < s.drop_last().len() && s.drop_last()[i] == x;
            assert(s[i] == x);
        }
    }
}

proof fn lemma_occurrences_prefix(s: Seq<u64>, t: int, x: u64)
    requires
        0 <= t <= s.len(),
    ensures
        occurrences(s.take(t), x) <= occurrences(s, x),
    decreases s.len() - t,
{
    if t < s.len() {
        lemma_occurrences_prefix(s, t + 1, x);
        assert(s.take(t + 1) =~= s.take(t).push(s[t]));
        lemma_occurrences_push(s.take(t), s[t], x);
    } else {
        assert(s.take(t) =~= s);
    }
}

proof fn lemma_occurrences_le_len(s: Seq<u64>, x: u64)
    ensures
        occurrences(s, x) <= s.len(),
    decreases s.len(),
{
    if s.len() > 0 {
        lemma_occurrences_le_len(s.drop_last(), x);
    }
}

proof fn lemma_keys_distinct_drop_last(deps: Seq<(u64, Vec<u64>)>)
    requires
        keys_distinct(deps),
        deps.len() > 0,
    ensures
        keys_distinct(deps.drop_last()),
{
    assert forall|i: int, j: int|
        0 <= i < deps.drop_last().len() && 0 <= j < deps.drop_last().len() && i != j implies #[trigger] deps.drop_last()[i].0
        != #[trigger] deps.drop_last()[j].0 by {
        assert(deps[i].0 != deps[j].0);
    }
}

pub(crate) proof fn lemma_dependents_entry(deps: Seq<(u64, Vec<u64>)>, i: int)
    requires
        keys_distinct(deps),
        0 <= i < deps.len(),
    ensures
        dependents(deps, deps[i].0) == deps[i].1@,
    decreases deps.len(),
{
    if i < deps.len() - 1 {
        assert(deps.last().0 != deps[i].0) by {
            assert(deps[deps.len() - 1].0 != deps[i].0);
        }
        lemma_keys_distinct_drop_last(deps);
        lemma_dependents_entry(deps.drop_last(), i);
        assert(deps.drop_last()[i] == deps[i]);
    }
}

pub(crate) proof fn lemma_dependents_absent(deps: Seq<(u64, Vec<u64>)>, s: u64)
    requires
        !has_entry(deps, s),
    ensures
        dependents(deps, s) == Seq::<u64>::empty(),
    decreases deps.len(),
{
    if deps.len() > 0 {
        assert(deps[deps.len() - 1].0 != s);
        assert(!has_entry(deps.drop_last(), s)) by {
            if has_entry(deps.drop_last(), s) {
                let i = choose|i: int| 0 <= i < deps.drop_last().len() && #[trigger] deps.drop_last()[i].0 == s;
                assert(deps[i].0 == s);
            }
        }
        lemma_dependents_absent(deps.drop_last(), s);
    }
}

proof fn lemma_pending_split(deps: Seq<(u64, Vec<u64>)>, target: u64, done: Set<u64>, c: u64)
    requires
        keys_distinct(deps),
        !done.contains(c),
    ensures
        pending_inputs(deps, target, done) == pending_inputs(deps, target, done.insert(c)) + occurrences(
            dependents(deps, c),
            target,
        ),
    decreases deps.len(),
{
    if deps.len() > 0 {
        lemma_keys_distinct_drop_last(deps);
        lemma_pending_split(deps.drop_last(), target, done, c);
        if deps.last().0 == c {
            assert(!has_entry(deps.drop_last(), c)) by {
                if has_entry(deps.drop_last(), c) {
                    let i = choose|i: int| 0 <= i < deps.drop_last().len() && #[trigger] deps.drop_last()[i].0 == c;
                    assert(deps[i].0 == deps[deps.len() - 1].0);
                }
            }
            lemma_dependents_absent(deps.drop_last(), c);
        }
    }
}

proof fn lemma_pending_monotone(deps: Seq<(u64, Vec<u64>)>, target: u64, smaller: Set<u64>, larger: Set<u64>)
    requires
        smaller.subset_of(larger),
    ensures
        pending_inputs(deps, target, larger) <= pending_inputs(deps, target, smaller),
    decreases deps.len(),
{
    if deps.len() > 0 {
        lemma_pending_monotone(deps.drop_last(), target, smaller, larger);
    }
}

proof fn lemma_pending_witness(deps: Seq<(u64, Vec<u64>)>, target: u64, done: Set<u64>) -> (s: u64)
    requires
        keys_distinct(deps),
        pending_inputs(deps, target, done) > 0,
    ensures
        !done.contains(s),
        dependents(deps, s).contains(target),
    decreases deps.len(),
{
    let last = deps.last();
    if !done.contains(last.0) && occurrences(last.1@, target) > 0 {
        lemma_occurrences_contains(last.1@, target);
        last.0
    } else {
        lemma_keys_distinct_drop_last(deps);
        let s = lemma_pending_witness(deps.drop_last(), target, done);
        assert(has_entry(deps.drop_last(), s)) by {
            if !has_entry(deps.drop_last(), s) {
                lemma_dependents_absent(deps.drop_last(), s);
            }
        }
        let i = choose|i: int| 0 <= i < deps.drop_last().len() && #[trigger] deps.drop_last()[i].0 == s;
        assert(deps[i].0 == s);
        assert(deps[deps.len() - 1].0 != deps[i].0);
        s
    }
}

proof fn lemma_pending_le_total(deps: Seq<(u64, Vec<u64>)>, target: u64, done: Set<u64>)
    ensures
        pending_inputs(deps, target, done) <= edge_total(deps),
    decreases deps.len(),
{
    if deps.len() > 0 {
        lemma_pending_le_total(deps.drop_last(), target, done);
        lemma_occurrences_le_len(deps.last().1@, target);
    }
}

pub(crate) proof fn lemma_edge_total_prefix(deps: Seq<(u64, Vec<u64>)>, i: int)
    requires
        0 <= i <= deps.len(),
    ensures
        edge_total(deps.take(i)) <= edge_total(deps),
    decreases deps.len(),
{
    if i == deps.len() {
        assert(deps.take(i) =~= deps);
    } else {
        lemma_edge_total_prefix(deps.drop_last(), i);
        assert(deps.drop_last().take(i) =~= deps.take(i));
    }
}

proof fn lemma_distinct_subset_len(a: Seq<u64>, b: Seq<u64>)
    requires
        a.no_duplicates(),
        b.no_duplicates(),
        forall|x: u64| a.contains(x) ==> b.contains(x),
    ensures
        a.len() <= b.len(),
        a.len() == b.len() ==> forall|x: u64| b.contains(x) ==> a.contains(x),
{
    a.unique_seq_to_set();
    b.unique_seq_to_set();
    assert(a.to_set().subset_of(b.to_set()));
    vstd::set_lib::lemma_len_subset(a.to_set(), b.to_set());
    if a.len() == b.len() {
        vstd::set_lib::lemma_subset_equality(a.to_set(), b.to_set());
        assert forall|x: u64| b.contains(x) implies a.contains(x) by {
            assert(b.to_set().contains(x));
        }
    }
}

/// Replacing the list of an existing entry changes what that program feeds and nothing else.
pub(crate) proof fn lemma_dependents_update(deps: Seq<(u64, Vec<u64>)>, e: int, entry: (u64, Vec<u64>))
    requires
        keys_distinct(deps),
        0 <= e < deps.len(),
        entry.0 == deps[e].0,
    ensures
        keys_distinct(deps.update(e, entry)),
        dependents(deps.update(e, entry), entry.0) == entry.1@,
        forall|s: u64| s != entry.0 ==> #[trigger] dependents(deps.update(e, entry), s) == dependents(deps, s),
{
    let upd = deps.update(e, entry);
    assert(keys_distinct(upd)) by {
        assert forall|i: int, j: int| 0 <= i < upd.len() && 0 <= j < upd.len() && i != j implies #[trigger] upd[i].0
            != #[trigger] upd[j].0 by {
            assert(deps[i].0 != deps[j].0);
        }
    }
    lemma_dependents_entry(upd, e);
    assert forall|s: u64| s != entry.0 implies #[trigger] dependents(upd, s) == dependents(deps, s) by {
        if has_entry(deps, s) {
            let j = choose|j: int| 0 <= j < deps.len() && #[trigger] deps[j].0 == s;
            assert(upd[j] == deps[j]);
            lemma_dependents_entry(deps, j);
            lemma_dependents_entry(upd, j);
        } else {
            assert(!has_entry(upd, s)) by {
                if has_entry(upd, s) {
                    let j = choose|j: int| 0 <= j < upd.len() && #[trigger] upd[j].0 == s;
                    assert(deps[j].0 == s);
                }
            }
            lemma_dependents_absent(deps, s);
            lemma_dependents_absent(upd, s);
        }
    }
}

/// Adding an entry for a program without one gives it that list and changes nothing else.
pub(crate) proof fn lemma_dependents_push(deps: Seq<(u64, Vec<u64>)>, entry: (u64, Vec<u64>))
    requires
        keys_distinct(deps),
        !has_entry(deps, entry.0),
    ensures
        keys_distinct(deps.push(entry)),
        dependents(deps.push(entry), entry.0) == entry.1@,
        forall|s: u64| s != entry.0 ==> #[trigger] dependents(deps.push(entry), s) == dependents(deps, s),
{
    let p = deps.push(entry);
    assert(p.drop_last() =~= deps);
    assert(keys_distinct(p)) by {
        assert forall|i: int, j: int| 0 <= i < p.len() && 0 <= j < p.len() && i != j implies #[trigger] p[i].0
            != #[trigger] p[j].0 by {
            if i < deps.len() && j < deps.len() {
                assert(deps[i].0 != deps[j].0);
            } else if i < deps.len() {
                assert(deps[i].0 != entry.0);
            } else {
                assert(deps[j].0 != entry.0);
            }
        }
    }
}

/// Every position of `order` holds a program in `done`, when every program outside `done` waits on
/// something and `order` is an execution order.
proof fn lemma_blocked_never_run(
    programs: Seq<u64>,
    deps: Seq<(u64, Vec<u64>)>,
    done: Set<u64>,
    order: Seq<u64>,
    j: int,
)
    requires
        keys_distinct(deps),
        is_execution_order(programs, deps, order),
        forall|p: u64| programs.contains(p) && !done.contains(p) ==> pending_inputs(deps, p, done) > 0,
        0 <= j < order.len(),
    ensures
        done.contains(order[j]),
    decreases j,
{
    if !done.contains(order[j]) {
        assert(order.contains(order[j]));
        let s = lemma_pending_witness(deps, order[j], done);
        assert(order.contains(s));
        let i = choose|i: int| 0 <= i < order.len() && order[i] == s;
        assert(i < j);
        lemma_blocked_never_run(programs, deps, done, order, i);
    }
}

/// The index of `x` in `v`.
fn index_of(v: &Vec<u64>, x: u64) -> (r: Option<usize>)
    ensures
        r matches Some(k) ==> k < v.len() && v[k as int] == x,
        r is None ==> !v@.contains(x),
{
    let mut k: usize = 0;
    while k < v.len()
        invariant
            k <= v.len(),
            forall|j: int| 0 <= j < k ==> v[j] != x,
        decreases v.len() - k,
    {
        if v[k] == x {
            return Some(k);
        }
        k = k + 1;
    }
    None
}

/// The index of the entry of `source` in the table.
pub(crate) fn entry_of(deps: &Dependencies, source: u64) -> (r: Option<usize>)
    ensures
        r matches Some(i) ==> i < deps.len() && deps[i as int].0 == source,
        r is None ==> !has_entry(deps@, source),
{
    let mut i: usize = 0;
    while i < deps.len()
        invariant
            i <= deps.len(),
            forall|j: int| 0 <= j < i ==> deps@[j].0 != source,
        decreases deps.len() - i,
    {
        if deps[i].0 == source {
            return Some(i);
        }
        i = i + 1;
    }
    None
}

/// The number of inputs of each program: for `programs[k]`, the number of edges into it.
fn count_inputs(programs: &Vec<u64>, deps: &Dependencies) -> (counts: Vec<usize>)
    requires
        programs@.no_duplicates(),
        edge_total(deps@) <= usize::MAX,
    ensures
        counts.len() == programs.len(),
        forall|k: int|
            0 <= k < programs.len() ==> counts[k] == pending_inputs(deps@, programs[k], Set::empty()),
{
    let n = programs.len();
    let mut counts: Vec<usize> = Vec::new();
    let mut k: usize = 0;
    while k < n
        invariant
            n == programs.len(),
            k <= n,
            counts.len() == k,
            forall|j: int| 0 <= j < k ==> counts[j] == 0,
        decreases n - k,
    {
        counts.push(0);
        k = k + 1;
    }
    let mut i: usize = 0;
    while i < deps.len()
        invariant
            n == programs.len(),
            programs@.no_duplicates(),
            counts.len() == n,
            i <= deps.len(),
            edge_total(deps@) <= usize::MAX,
            forall|k: int|
                0 <= k < n ==> counts[k] == pending_inputs(deps@.take(i as int), programs[k], Set::empty()),
        decreases deps.len() - i,
    {
        let list = &deps[i].1;
        proof {
            assert(deps@.take(i + 1).drop_last() =~= deps@.take(i as int));
            assert(edge_total(deps@.take(i + 1)) == edge_total(deps@.take(i as int)) + list@.len());
            lemma_edge_total_prefix(deps@, i + 1);
        }
        let mut t: usize = 0;
        while t < list.len()
            invariant
                n == programs.len(),
                programs@.no_duplicates(),
                counts.len() == n,
                i < deps.len(),
                list == &deps@[i as int].1,
                t <= list.len(),
                edge_total(deps@.take(i as int)) + list@.len() <= usize::MAX,
                forall|k: int|
                    0 <= k < n ==> counts[k] == pending_inputs(deps@.take(i as int), programs[k], Set::empty())
                        + occurrences(list@.take(t as int), programs[k]),
            decreases list.len() - t,
        {
            let d = list[t];
            proof {
                assert(list@.take(t + 1) =~= list@.take(t as int).push(d));
                assert forall|k: int| 0 <= k < n implies occurrences(list@.take(t + 1), programs[k])
                    == occurrences(list@.take(t as int), programs[k]) + if d == programs[k] {
                    1nat
                } else {
                    0nat
                } by {
                    lemma_occurrences_push(list@.take(t as int), d, programs[k]);
                }
            }
            match index_of(programs, d) {
                Some(k) => {
                    proof {
                        lemma_pending_le_total(deps@.take(i as int), programs[k as int], Set::empty());
                        lemma_occurrences_le_len(list@.take(t as int), programs[k as int]);
                    }
                    let v = counts[k] + 1;
                    counts.set(k, v);
                },
                None => {
                    proof {
                        assert forall|j: int| 0 <= j < n implies programs[j] != d by {
                            assert(programs@.contains(programs[j]));
                        }
                    }
                },
            }
            t = t + 1;
        }
        proof {
            assert(list@.take(list@.len() as int) =~= list@);
        }
        i = i + 1;
    }
    proof {
        assert(deps@.take(deps@.len() as int) =~= deps@);
    }
    counts
}

/// An order in which to run `programs` so that each runs after every program that feeds it, found by Kahn's
/// algorithm; `None` when there is none (a cycle, or a program fed by something that is not a program).
pub fn topological_order(programs: &Vec<u64>, deps: &Dependencies) -> (r: Option<Vec<u64>>)
    requires
        programs@.no_duplicates(),
        keys_distinct(deps@),
        edge_total(deps@) <= usize::MAX,
    ensures
        r matches Some(order) ==> is_execution_order(programs@, deps@, order@),
        r is None <==> !has_execution_order(programs@, deps@),
{
    let n = programs.len();
    let mut counts = count_inputs(programs, deps);
    let ghost done: Set<u64> = Set::empty();
    let mut queue: Vec<u64> = Vec::new();
    let mut k: usize = 0;
    while k < n
        invariant
            n == programs.len(),
            counts.len() == n,
            programs@.no_duplicates(),
            k <= n,
            done == Set::<u64>::empty(),
            forall|j: int| 0 <= j < n ==> counts[j] == pending_inputs(deps@, programs[j], done),
            queue@.no_duplicates(),
            forall|x: u64| queue@.contains(x) ==> exists|j: int| 0 <= j < k && programs[j] == x,
            forall|j: int| 0 <= j < n && #[trigger] queue@.contains(programs[j]) ==> counts[j] == 0,
            forall|j: int| 0 <= j < k && counts[j] == 0 ==> #[trigger] queue@.contains(programs[j]),
        decreases n - k,
    {
        if counts[k] == 0 {
            proof {
                if queue@.contains(programs[k as int]) {
                    let j = choose|j: int| 0 <= j < k && programs[j] == programs[k as int];
                    assert(programs[j] == programs[k as int]);
                }
            }
            queue.push(programs[k]);
        }
        k = k + 1;
    }
    let mut order: Vec<u64> = Vec::new();
    while queue.len() > 0
        invariant
            n == programs.len(),
            counts.len() == n,
            programs@.no_duplicates(),
            keys_distinct(deps@),
            forall|j: int| 0 <= j < n ==> counts[j] == pending_inputs(deps@, programs[j], done),
            forall|x: u64| done.contains(x) <==> order@.contains(x),
            order@.no_duplicates(),
            forall|x: u64| order@.contains(x) ==> programs@.contains(x),
            forall|x: u64| #[trigger] done.contains(x) ==> pending_inputs(deps@, x, done) == 0,
            queue@.no_duplicates(),
            forall|x: u64| #[trigger] queue@.contains(x) ==> programs@.contains(x) && !done.contains(x),
            forall|j: int| 0 <= j < n && #[trigger] queue@.contains(programs[j]) ==> counts[j] == 0,
            forall|j: int|
                0 <= j < n && !done.contains(programs[j]) && counts[j] == 0 ==> #[trigger] queue@.contains(
                    programs[j],
                ),
            forall|s: u64, j: int|
                0 <= j < order.len() && #[trigger] dependents(deps@, s).contains(#[trigger] order@[j])
                    ==> order@.take(j).contains(s),
        decreases n - order.len(),
    {
        let ghost queue_before = queue@;
        let c = queue.pop().unwrap();
        let ghost old_done = done;
        let ghost old_order = order@;
        proof {
            assert(queue_before[queue_before.len() - 1] == c);
            assert(queue_before.contains(c));
            assert(programs@.contains(c));
            assert(queue_before =~= queue@.push(c));
            assert(!queue@.contains(c));
            assert forall|x: u64| #[trigger] queue@.contains(x) implies queue_before.contains(x) && x != c by {
                let i = choose|i: int| 0 <= i < queue@.len() && queue@[i] == x;
                assert(queue_before[i] == x);
            }
            assert forall|y: u64| queue_before.contains(y) && y != c implies #[trigger] queue@.contains(y) by {
                let i = choose|i: int| 0 <= i < queue_before.len() && queue_before[i] == y;
                assert(queue@[i] == y);
            }
            let kc = choose|j: int| 0 <= j < n && programs[j] == c;
            assert(queue_before.contains(programs[kc]));
            assert(pending_inputs(deps@, c, old_done) == 0);
            assert forall|s: u64| dependents(deps@, s).contains(c) implies old_order.contains(s) by {
                if !old_done.contains(s) {
                    lemma_pending_split(deps@, c, old_done, s);
                    lemma_occurrences_contains(dependents(deps@, s), c);
                }
            }
            lemma_distinct_subset_len(old_order.push(c), programs@);
        }
        order.push(c);
        proof {
            done = done.insert(c);
            assert forall|s: u64, j: int|
                0 <= j < order.len() && #[trigger] dependents(deps@, s).contains(#[trigger] order@[j]) implies order@.take(
                j,
            ).contains(s) by {
                if j < old_order.len() {
                    assert(order@.take(j) =~= old_order.take(j));
                    assert(old_order[j] == order@[j]);
                } else {
                    assert(order@.take(j) =~= old_order);
                }
            }
        }
        let entry = entry_of(deps, c);
        let ghost list_spec = dependents(deps@, c);
        if let Some(e) = entry {
            let list = &deps[e].1;
            proof {
                lemma_dependents_entry(deps@, e as int);
            }
            let mut t: usize = 0;
            while t < list.len()
                invariant
                    n == programs.len(),
                    counts.len() == n,
                    programs@.no_duplicates(),
                    list@ == list_spec,
                    list_spec == dependents(deps@, c),
                    keys_distinct(deps@),
                    t <= list.len(),
                    !old_done.contains(c),
                    done == old_done.insert(c),
                    pending_inputs(deps@, c, old_done) == 0,
                    forall|x: u64| #[trigger] old_done.contains(x) ==> pending_inputs(deps@, x, old_done) == 0,
                    forall|j: int|
                        0 <= j < n ==> counts[j] == pending_inputs(deps@, programs[j], old_done) - occurrences(
                            list@.take(t as int),
                            programs[j],
                        ),
                    queue@.no_duplicates(),
                    forall|x: u64| #[trigger] queue@.contains(x) ==> programs@.contains(x) && !done.contains(x),
                    forall|j: int| 0 <= j < n && #[trigger] queue@.contains(programs[j]) ==> counts[j] == 0,
                    forall|j: int|
                        0 <= j < n && !done.contains(programs[j]) && counts[j] == 0 ==> #[trigger] queue@.contains(
                            programs[j],
                        ),
                decreases list.len() - t,
            {
                let d = list[t];
                proof {
                    assert(list@.take(t + 1) =~= list@.take(t as int).push(d));
                    assert forall|j: int| 0 <= j < n implies occurrences(list@.take(t + 1), programs[j])
                        == occurrences(list@.take(t as int), programs[j]) + if d == programs[j] {
                        1nat
                    } else {
                        0nat
                    } by {
                        lemma_occurrences_push(list@.take(t as int), d, programs[j]);
                    }
                }
                match index_of(programs, d) {
                    Some(kd) => {
                        proof {
                            lemma_pending_split(deps@, d, old_done, c);
                            lemma_occurrences_prefix(list@, t + 1, d);
                            assert(counts[kd as int] >= 1);
                            assert(!old_done.contains(d));
                            assert(d != c);
                            assert(!queue@.contains(programs[kd as int]));
                        }
                        let v = counts[kd] - 1;
                        counts.set(kd, v);
                        if v == 0 {
                            queue.push(d);
                        }
                    },
                    None => {},
                }
                t = t + 1;
            }
            proof {
                assert(list@.take(list@.len() as int) =~= list@);
            }
        } else {
            proof {
                lemma_dependents_absent(deps@, c);
                assert forall|j: int| 0 <= j < n implies counts[j] == pending_inputs(
                    deps@,
                    programs[j],
                    old_done,
                ) - occurrences(list_spec, programs[j]) by {}
            }
        }
        proof {
            assert forall|j: int| 0 <= j < n implies counts[j] == pending_inputs(deps@, programs[j], done) by {
                lemma_pending_split(deps@, programs[j], old_done, c);
            }
            assert forall|x: u64| #[trigger] done.contains(x) implies pending_inputs(deps@, x, done) == 0 by {
                lemma_pending_monotone(deps@, x, old_done, done);
            }
        }
    }
    proof {
        assert forall|p: u64| programs@.contains(p) && !done.contains(p) implies pending_inputs(deps@, p, done)
            > 0 by {
            let j = choose|j: int| 0 <= j < n && programs[j] == p;
            assert(!queue@.contains(programs[j]));
        }
    }
    if order.len() == n {
        proof {
            lemma_distinct_subset_len(order@, programs@);
            assert forall|i: int, j: int|
                0 <= i < order.len() && 0 <= j < order.len() && #[trigger] dependents(deps@, order@[i]).contains(
                    #[trigger] order@[j],
                ) implies i < j by {
                assert(order@.take(j).contains(order@[i]));
                let m = choose|m: int| 0 <= m < order@.take(j).len() && order@.take(j)[m] == order@[i];
                assert(order@[m] == order@[i]);
            }
            assert forall|s: u64, j: int|
                0 <= j < order.len() && #[trigger] dependents(deps@, s).contains(#[trigger] order@[j]) implies order@.contains(
                s,
            ) by {
                assert(order@.take(j).contains(s));
            }
            assert(is_execution_order(programs@, deps@, order@));
        }
        Some(order)
    } else {
        proof {
            assert(exists|p: u64| programs@.contains(p) && !done.contains(p)) by {
                if !exists|p: u64| programs@.contains(p) && !done.contains(p) {
                    assert forall|x: u64| programs@.contains(x) implies order@.contains(x) by {
                        assert(done.contains(x));
                    }
                    lemma_distinct_subset_len(programs@, order@);
                    lemma_distinct_subset_len(order@, programs@);
                }
            }
            let p = choose|p: u64| programs@.contains(p) && !done.contains(p);
            assert forall|other: Seq<u64>| !is_execution_order(programs@, deps@, other) by {
                if is_execution_order(programs@, deps@, other) {
                    assert(other.contains(p));
                    let j = choose|j: int| 0 <= j < other.len() && other[j] == p;
                    lemma_blocked_never_run(programs@, deps@, done, other, j);
                }
            }
        }
        None
    }
}

} // verus!
