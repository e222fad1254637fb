//! Pulling columns through a query plan: every node that refers to a column
//! that its ancestors do not emit has the ancestors that can supply it emit
//! it.

use crate::mir::{
    contains_column, descend, emitted_by, emitted_upstream, grown, keep_missing,
    lemma_emitted_grows, lemma_grown_trans, lemma_provides_grows, lemma_with_column, names,
    needed, node_ok, provides, pulled, supplied_among, supplied_by, supply, supply_all, emits,
    Column, MirError, MirGraph,
};
use vstd::prelude::*;

verus! {

/// A query plan: a graph with the nodes at which it begins and the node at
/// which it ends.
#[derive(Debug)]
pub struct MirQuery {
    pub name: String,
    pub graph: MirGraph,
    pub roots: Vec<usize>,
    pub leaf: usize,
}

/// Whether the node `n`, or a node that it reads from, directly or not,
/// emits `column`.
pub fn has_column(graph: &MirGraph, n: usize, column: &Column) -> (found: bool)
    requires
        graph.wf(),
        n < graph@.len(),
    ensures
        found == provides(graph@, n as int, column@),
    decreases n,
{
    let node = graph.at(n);
    assert(node_ok(graph@[n as int], n as int));
    if contains_column(&node.columns, column) {
        return true;
    }
    let mut i: usize = 0;
    while i < node.ancestors.len()
        invariant
            i <= node.ancestors@.len(),
            graph.wf(),
            n < graph@.len(),
            node@ == graph@[n as int],
            node_ok(graph@[n as int], n as int),
            forall|j: int|
                0 <= j < i ==> !provides(graph@, #[trigger] node.ancestors@[j] as int, column@),
        decreases node.ancestors@.len() - i,
    {
        let a = node.ancestors[i];
        assert(graph@[n as int].ancestors[i as int] < n);
        if has_column(graph, a, column) {
            return true;
        }
        i += 1;
    }
    false
}

/// Whether an ancestor of the node `n` emits `column`.
fn is_emitted_upstream(graph: &MirGraph, n: usize, column: &Column) -> (found: bool)
    requires
        graph.wf(),
        n < graph@.len(),
    ensures
        found == emitted_upstream(graph@, n as int, column@),
{
    let node = graph.at(n);
    assert(node_ok(graph@[n as int], n as int));
    let mut i: usize = 0;
    while i < node.ancestors.len()
        invariant
            i <= node.ancestors@.len(),
            graph.wf(),
            n < graph@.len(),
            node@ == graph@[n as int],
            node_ok(graph@[n as int], n as int),
            forall|j: int|
                0 <= j < i ==> !(#[trigger] graph@[node.ancestors@[j] as int]).columns.contains(
                    column@,
                ),
        decreases node.ancestors@.len() - i,
    {
        let a = node.ancestors[i];
        assert(graph@[n as int].ancestors[i as int] < n);
        if contains_column(&graph.at(a).columns, column) {
            return true;
        }
        i += 1;
    }
    false
}

/// The columns that the node `n` refers to and that none of its ancestors
/// emits.
pub fn needed_columns(graph: &MirGraph, n: usize) -> (columns: Vec<Column>)
    requires
        graph.wf(),
        n < graph@.len(),
    ensures
        names(columns@) == needed(graph@, n as int),
{
    let all = graph.referenced_columns(n);
    let mut columns: Vec<Column> = Vec::new();
    let mut i: usize = 0;
    proof {
        assert(names(columns@) =~= Seq::<Seq<char>>::empty());
    }
    while i < all.len()
        invariant
            i <= all@.len(),
            graph.wf(),
            n < graph@.len(),
            needed(graph@, n as int) == keep_missing(
                graph@,
                n as int,
                names(all@),
                i as int,
                names(columns@),
            ),
        decreases all@.len() - i,
    {
        assert(names(all@)[i as int] == all@[i as int]@);
        if !is_emitted_upstream(graph, n, &all[i]) {
            let ghost before = columns@;
            columns.push(all[i].duplicate());
            proof {
                assert(names(columns@) =~= names(before).push(all@[i as int]@));
            }
        }
        i += 1;
    }
    columns
}

/// Has the node `a` emit those of `cols` that it or its ancestors can supply
/// and that are not among `found` yet, and adds them to `found`.
fn supply_columns(graph: &mut MirGraph, a: usize, cols: &Vec<Column>, found: &mut Vec<Column>)
    requires
        old(graph).wf(),
        a < old(graph)@.len(),
        old(graph)@[a as int].ancestors.len() > 0,
    ensures
        final(graph).wf(),
        grown(old(graph)@, final(graph)@),
        (final(graph)@, names(final(found)@)) == supply(
            old(graph)@,
            a as int,
            names(cols@),
            names(old(found)@),
            0,
        ),
        forall|c: Seq<char>|
            names(cols@).contains(c) && provides(old(graph)@, a as int, c) ==> emits(
                final(graph)@,
                a as int,
                c,
            ) || names(old(found)@).contains(c),
        forall|c: Seq<char>|
            names(final(found)@).contains(c) ==> names(old(found)@).contains(c) || emits(
                final(graph)@,
                a as int,
                c,
            ),
{
    let mut j: usize = 0;
    proof {
        lemma_grown_trans(graph@, graph@, graph@);
    }
    while j < cols.len()
        invariant
            j <= cols@.len(),
            graph.wf(),
            grown(old(graph)@, graph@),
            a < graph@.len(),
            old(graph)@[a as int].ancestors.len() > 0,
            supply(old(graph)@, a as int, names(cols@), names(old(found)@), 0) == supply(
                graph@,
                a as int,
                names(cols@),
                names(found@),
                j as int,
            ),
            forall|k: int|
                0 <= k < j && provides(old(graph)@, a as int, #[trigger] names(cols@)[k])
                    ==> graph@[a as int].columns.contains(names(cols@)[k]) || names(
                    old(found)@,
                ).contains(names(cols@)[k]),
            forall|c: Seq<char>|
                names(found@).contains(c) ==> names(old(found)@).contains(c)
                    || graph@[a as int].columns.contains(c),
        decreases cols@.len() - j,
    {
        assert(names(cols@)[j as int] == cols@[j as int]@);
        let ghost entered = graph@;
        let ghost found_entered = names(found@);
        proof {
            if provides(old(graph)@, a as int, cols@[j as int]@) {
                lemma_provides_grows(old(graph)@, graph@, a as int, cols@[j as int]@);
            }
        }
        if !contains_column(found, &cols[j]) && has_column(graph, a, &cols[j]) {
            let ghost before = graph@;
            let ghost found_before = found@;
            proof {
                lemma_with_column(graph@, a as int, cols@[j as int]@);
                assert(node_ok(graph@[a as int], a as int));
                assert(graph@[a as int].ancestors == old(graph)@[a as int].ancestors);
            }
            let added = graph.add_column(a, cols[j].duplicate());
            assert(added is Ok);
            found.push(cols[j].duplicate());
            proof {
                lemma_grown_trans(old(graph)@, before, graph@);
                assert(names(found@) =~= names(found_before).push(cols@[j as int]@));
                let at = crate::mir::insert_at(before, a as int);
                assert(graph@[a as int].columns[at] == cols@[j as int]@);
                assert(grown(before, graph@));
                assert forall|c: Seq<char>| names(found@).contains(c) implies names(
                    old(found)@,
                ).contains(c) || graph@[a as int].columns.contains(c) by {
                    let i = choose|i: int| 0 <= i < names(found@).len() && names(found@)[i] == c;
                    if i < found_entered.len() {
                        assert(found_entered[i] == c);
                        assert(found_entered.contains(c));
                        if entered[a as int].columns.contains(c) {
                            assert(graph@[a as int].columns.contains(c));
                        }
                    }
                }
            }
        }
        proof {
            assert(grown(entered, graph@)) by {
                lemma_grown_trans(entered, entered, entered);
            }
            assert forall|k: int|
                0 <= k < j + 1 && provides(
                    old(graph)@,
                    a as int,
                    #[trigger] names(cols@)[k],
                ) implies graph@[a as int].columns.contains(names(cols@)[k]) || names(
                old(found)@,
            ).contains(names(cols@)[k]) by {
                let c = names(cols@)[k];
                if k < j {
                    if entered[a as int].columns.contains(c) {
                        assert(graph@[a as int].columns.contains(c));
                    }
                } else {
                    if found_entered.contains(c) {
                        if entered[a as int].columns.contains(c) {
                            assert(graph@[a as int].columns.contains(c));
                        }
                    }
                }
            }
        }
        j += 1;
    }
    proof {
        assert forall|c: Seq<char>|
            names(cols@).contains(c) && provides(old(graph)@, a as int, c) implies emits(
            graph@,
            a as int,
            c,
        ) || names(old(found)@).contains(c) by {
            let k = choose|k: int| 0 <= k < names(cols@).len() && names(cols@)[k] == c;
            assert(names(cols@)[k] == c);
        }
    }
}

/// Pulls the columns that the node `n` needs, and those that its ancestors
/// need in turn, through the graph.
///
/// The ancestors of `n` that have ancestors of their own take, in their
/// order, the columns that `n` refers to, that no ancestor of `n` emits and
/// that they can supply; each column goes to the first ancestor that can
/// supply it. Then the same is done for each of these ancestors, the last
/// first. A base table takes no column, so nothing fails. Afterwards, every
/// column that `n` needed and that such an ancestor could supply is emitted
/// by an ancestor of `n`.
pub fn pull_columns_for(graph: &mut MirGraph, n: usize) -> (result: Result<(), MirError>)
    requires
        old(graph).wf(),
        n < old(graph)@.len(),
    ensures
        result is Ok,
        final(graph).wf(),
        grown(old(graph)@, final(graph)@),
        final(graph)@ == pulled(old(graph)@, n as int),
        forall|c: Seq<char>|
            needed(old(graph)@, n as int).contains(c) && supplied_by(
                old(graph)@,
                old(graph)@[n as int].ancestors,
                c,
            ) ==> emitted_by(final(graph)@, old(graph)@[n as int].ancestors, c),
    decreases n,
{
    let cols = needed_columns(graph, n);
    let ancestors = graph.at(n).ancestors.clone();
    let mut found: Vec<Column> = Vec::new();
    let mut i: usize = 0;
    proof {
        lemma_grown_trans(graph@, graph@, graph@);
        assert(node_ok(graph@[n as int], n as int));
        assert(names(found@) =~= Seq::<Seq<char>>::empty());
    }
    while i < ancestors.len()
        invariant
            i <= ancestors@.len(),
            graph.wf(),
            grown(old(graph)@, graph@),
            n < graph@.len(),
            ancestors@ == old(graph)@[n as int].ancestors,
            node_ok(old(graph)@[n as int], n as int),
            supply_all(
                old(graph)@,
                ancestors@,
                needed(old(graph)@, n as int),
                Seq::empty(),
                0,
            ) == supply_all(graph@, ancestors@, names(cols@), names(found@), i as int),
            names(cols@) == needed(old(graph)@, n as int),
            forall|c: Seq<char>|
                names(cols@).contains(c) && supplied_among(old(graph)@, ancestors@, c, i as int)
                    ==> emitted_by(graph@, ancestors@, c),
            forall|c: Seq<char>| names(found@).contains(c) ==> emitted_by(graph@, ancestors@, c),
        decreases ancestors@.len() - i,
    {
        let a = ancestors[i];
        assert(old(graph)@[n as int].ancestors[i as int] < n);
        let ghost before = graph@;
        let ghost found_before = names(found@);
        if graph.at(a).ancestors.len() > 0 {
            supply_columns(graph, a, &cols, &mut found);
            proof {
                lemma_grown_trans(old(graph)@, before, graph@);
            }
        }
        proof {
            assert(grown(before, graph@)) by {
                lemma_grown_trans(before, before, before);
            }
            assert forall|c: Seq<char>| names(found@).contains(c) implies emitted_by(
                graph@,
                ancestors@,
                c,
            ) by {
                if found_before.contains(c) {
                    lemma_emitted_grows(before, graph@, ancestors@, c);
                } else {
                    assert(emits(graph@, a as int, c));
                    assert(graph@[ancestors@[i as int] as int].columns.contains(c));
                }
            }
            assert forall|c: Seq<char>|
                names(cols@).contains(c) && supplied_among(
                    old(graph)@,
                    ancestors@,
                    c,
                    i + 1,
                ) implies emitted_by(graph@, ancestors@, c) by {
                if supplied_among(old(graph)@, ancestors@, c, i as int) {
                    lemma_emitted_grows(before, graph@, ancestors@, c);
                } else {
                    let k = choose|k: int|
                        0 <= k < i + 1 && k < ancestors@.len() && ancestors@[k] < old(
                            graph,
                        )@.len() && (#[trigger] old(graph)@[ancestors@[k] as int]).ancestors.len()
                            > 0 && provides(old(graph)@, ancestors@[k] as int, c);
                    assert(k == i);
                    assert(before[a as int].ancestors == old(graph)@[a as int].ancestors);
                    lemma_provides_grows(old(graph)@, before, a as int, c);
                    if found_before.contains(c) {
                        lemma_emitted_grows(before, graph@, ancestors@, c);
                    } else {
                        assert(emits(graph@, a as int, c));
                        assert(graph@[ancestors@[i as int] as int].columns.contains(c));
                    }
                }
            }
        }
        i += 1;
    }
    let ghost supplied = graph@;
    let mut i: usize = ancestors.len();
    while i > 0
        invariant
            i <= ancestors@.len(),
            graph.wf(),
            grown(old(graph)@, graph@),
            n < graph@.len(),
            ancestors@ == old(graph)@[n as int].ancestors,
            node_ok(old(graph)@[n as int], n as int),
            descend(supplied, n as int, ancestors@, ancestors@.len() as int) == descend(
                graph@,
                n as int,
                ancestors@,
                i as int,
            ),
            forall|c: Seq<char>|
                needed(old(graph)@, n as int).contains(c) && supplied_by(
                    old(graph)@,
                    ancestors@,
                    c,
                ) ==> emitted_by(graph@, ancestors@, c),
        decreases i,
    {
        let a = ancestors[i - 1];
        assert(old(graph)@[n as int].ancestors[i - 1] < n);
        if graph.at(a).ancestors.len() > 0 {
            let ghost before = graph@;
            let pulled_up = pull_columns_for(graph, a);
            proof {
                lemma_grown_trans(old(graph)@, before, graph@);
                assert forall|c: Seq<char>|
                    needed(old(graph)@, n as int).contains(c) && supplied_by(
                        old(graph)@,
                        ancestors@,
                        c,
                    ) implies emitted_by(graph@, ancestors@, c) by {
                    lemma_emitted_grows(before, graph@, ancestors@, c);
                }
            }
        }
        i -= 1;
    }
    Ok(())
}

/// Pulls the columns that the last node of the query needs, and those that
/// the nodes before it need in turn, through the query's graph.
pub fn pull_all_required_columns(q: &mut MirQuery) -> (result: Result<(), MirError>)
    requires
        old(q).graph.wf(),
        old(q).leaf < old(q).graph@.len(),
    ensures
        result is Ok,
        final(q).graph.wf(),
        grown(old(q).graph@, final(q).graph@),
        final(q).graph@ == pulled(old(q).graph@, old(q).leaf as int),
        forall|c: Seq<char>|
            needed(old(q).graph@, old(q).leaf as int).contains(c) && supplied_by(
                old(q).graph@,
                old(q).graph@[old(q).leaf as int].ancestors,
                c,
            ) ==> emitted_by(final(q).graph@, old(q).graph@[old(q).leaf as int].ancestors, c),
        final(q).leaf == old(q).leaf,
        final(q).roots == old(q).roots,
        final(q).name == old(q).name,
{
    let leaf = q.leaf;
    pull_columns_for(&mut q.graph, leaf)
}

} // verus!
