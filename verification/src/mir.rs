//! The graph of a query plan: nodes that emit columns, each behind the nodes
//! that it reads from.

use vstd::prelude::*;
use vstd::string::StringExecFns;

verus! {

/// A column, known by its name.
#[derive(Clone, Debug, PartialEq, Eq, Hash)]
pub struct Column {
    pub name: String,
}

impl View for Column {
    type V = Seq<char>;

    open spec fn view(&self) -> Seq<char> {
        self.name@
    }
}

/// What a node does, as far as the place of a new column depends on it.
#[derive(Clone, Copy, Debug, PartialEq, Eq, Structural)]
pub enum MirNodeKind {
    /// A base table. It has no ancestors and takes no new column.
    Base,
    /// An aggregate. Its last column is the aggregate's result.
    Aggregation,
    /// A filter. It places columns as its first ancestor does.
    Filter,
    /// A projection. Its first `emit` columns come from its ancestor; behind
    /// them stand those that it computes.
    Project { emit: usize },
    /// Any other operator. New columns go to the end.
    Other,
}

/// Why a node takes no new column.
#[derive(Clone, Copy, Debug, PartialEq, Eq, Structural)]
pub enum MirError {
    /// Base tables have the columns of their schema and no others.
    BaseColumn,
}

/// A node of the graph.
#[derive(Debug)]
pub struct MirNode {
    pub name: String,
    /// The columns that the node emits, in order.
    pub columns: Vec<Column>,
    pub kind: MirNodeKind,
    /// The columns that the node's operator reads, emitted or not.
    pub reads: Vec<Column>,
    /// The nodes that this node reads from, by their numbers.
    pub ancestors: Vec<usize>,
}

/// A node as the contracts see it.
pub struct NodeModel {
    pub columns: Seq<Seq<char>>,
    pub kind: MirNodeKind,
    pub reads: Seq<Seq<char>>,
    pub ancestors: Seq<usize>,
}

/// The names of `cols`.
pub open spec fn names(cols: Seq<Column>) -> Seq<Seq<char>> {
    cols.map_values(|c: Column| c@)
}

impl View for MirNode {
    type V = NodeModel;

    open spec fn view(&self) -> NodeModel {
        NodeModel {
            columns: names(self.columns@),
            kind: self.kind,
            reads: names(self.reads@),
            ancestors: self.ancestors@,
        }
    }
}

/// The node may stand at the position `n` of a graph: its ancestors stand
/// before it, a base table has none, an aggregate has its result column, and
/// a projection emits no more columns than it has.
pub open spec fn node_ok(node: NodeModel, n: int) -> bool {
    &&& forall|i: int| 0 <= i < node.ancestors.len() ==> #[trigger] node.ancestors[i] < n
    &&& node.kind == MirNodeKind::Base ==> node.ancestors.len() == 0
    &&& node.kind == MirNodeKind::Aggregation ==> node.columns.len() >= 1
    &&& node.kind matches MirNodeKind::Project { emit } ==> emit <= node.columns.len()
}

/// Every node of `g` may stand where it stands.
pub open spec fn graph_ok(g: Seq<NodeModel>) -> bool {
    forall|n: int| 0 <= n < g.len() ==> node_ok(#[trigger] g[n], n)
}

/// The node `n` or one of the nodes that it reads from, directly or not,
/// emits the column `c`.
pub open spec fn provides(g: Seq<NodeModel>, n: int, c: Seq<char>) -> bool
    decreases n,
{
    &&& 0 <= n < g.len()
    &&& (g[n].columns.contains(c) || exists|i: int|
        0 <= i < g[n].ancestors.len() && g[n].ancestors[i] < n && provides(
            g,
            #[trigger] g[n].ancestors[i] as int,
            c,
        ))
}

/// Where the node `n` puts a new column, if not at the end: an aggregate
/// before its result, a projection behind the columns that it passes on, a
/// filter where its first ancestor would.
pub open spec fn column_pos(g: Seq<NodeModel>, n: int) -> Option<int>
    decreases n,
{
    if 0 <= n < g.len() {
        match g[n].kind {
            MirNodeKind::Aggregation => Some(g[n].columns.len() - 1),
            MirNodeKind::Project { emit } => Some(emit as int),
            MirNodeKind::Filter => if g[n].ancestors.len() > 0 && g[n].ancestors[0] < n {
                column_pos(g, g[n].ancestors[0] as int)
            } else {
                None
            },
            _ => None,
        }
    } else {
        None
    }
}

/// The place at which the node `n` takes a new column: `column_pos`, but
/// never before the first nor behind the last of its columns.
pub open spec fn insert_at(g: Seq<NodeModel>, n: int) -> int {
    let len = g[n].columns.len() as int;
    match column_pos(g, n) {
        Some(p) => if p < 0 {
            0
        } else if p > len {
            len
        } else {
            p
        },
        None => len,
    }
}

/// The graph `g` after the node `n` has taken the column `c`. A projection
/// then passes one more column on.
pub open spec fn with_column(g: Seq<NodeModel>, n: int, c: Seq<char>) -> Seq<NodeModel> {
    g.update(
        n,
        NodeModel {
            columns: g[n].columns.insert(insert_at(g, n), c),
            kind: match g[n].kind {
                MirNodeKind::Project { emit } => MirNodeKind::Project { emit: (emit + 1) as usize },
                kind => kind,
            },
            reads: g[n].reads,
            ancestors: g[n].ancestors,
        },
    )
}

/// `acc` with those of `extra`, from the position `i` on, that it does not
/// hold yet.
pub open spec fn add_missing(acc: Seq<Seq<char>>, extra: Seq<Seq<char>>, i: int) -> Seq<Seq<char>>
    decreases extra.len() - i,
{
    if 0 <= i < extra.len() {
        add_missing(
            if acc.contains(extra[i]) {
                acc
            } else {
                acc.push(extra[i])
            },
            extra,
            i + 1,
        )
    } else {
        acc
    }
}

/// The columns that a node refers to: those that it emits, then those that
/// its operator reads besides.
pub open spec fn referenced(node: NodeModel) -> Seq<Seq<char>> {
    add_missing(node.columns, node.reads, 0)
}

/// An ancestor of the node `n` emits the column `c`.
pub open spec fn emitted_upstream(g: Seq<NodeModel>, n: int, c: Seq<char>) -> bool {
    exists|i: int|
        0 <= i < g[n].ancestors.len() && g[n].ancestors[i] < g.len() && (
        #[trigger] g[g[n].ancestors[i] as int]).columns.contains(c)
}

/// `acc` with those of `cols`, from the position `i` on, that no ancestor of
/// the node `n` emits.
pub open spec fn keep_missing(
    g: Seq<NodeModel>,
    n: int,
    cols: Seq<Seq<char>>,
    i: int,
    acc: Seq<Seq<char>>,
) -> Seq<Seq<char>>
    decreases cols.len() - i,
{
    if 0 <= i < cols.len() {
        keep_missing(
            g,
            n,
            cols,
            i + 1,
            if emitted_upstream(g, n, cols[i]) {
                acc
            } else {
                acc.push(cols[i])
            },
        )
    } else {
        acc
    }
}

/// The columns that the node `n` refers to and that none of its ancestors
/// emits.
pub open spec fn needed(g: Seq<NodeModel>, n: int) -> Seq<Seq<char>> {
    keep_missing(g, n, referenced(g[n]), 0, Seq::empty())
}

/// The graph after the node `a` has taken those of `cols`, from the position
/// `j` on, that it or its ancestors emit and that are not among `found`;
/// with it, `found` and the columns taken.
pub open spec fn supply(
    g: Seq<NodeModel>,
    a: int,
    cols: Seq<Seq<char>>,
    found: Seq<Seq<char>>,
    j: int,
) -> (Seq<NodeModel>, Seq<Seq<char>>)
    decreases cols.len() - j,
{
    if 0 <= j < cols.len() {
        if !found.contains(cols[j]) && provides(g, a, cols[j]) {
            supply(with_column(g, a, cols[j]), a, cols, found.push(cols[j]), j + 1)
        } else {
            supply(g, a, cols, found, j + 1)
        }
    } else {
        (g, found)
    }
}

/// The graph after the nodes `ancestors`, from the position `i` on, have
/// each taken those of `cols` that they can supply and that no earlier one
/// took. A node without ancestors of its own takes none.
pub open spec fn supply_all(
    g: Seq<NodeModel>,
    ancestors: Seq<usize>,
    cols: Seq<Seq<char>>,
    found: Seq<Seq<char>>,
    i: int,
) -> Seq<NodeModel>
    decreases ancestors.len() - i,
{
    if 0 <= i < ancestors.len() {
        let a = ancestors[i] as int;
        if 0 <= a < g.len() && g[a].ancestors.len() > 0 {
            let (g2, found2) = supply(g, a, cols, found, 0);
            supply_all(g2, ancestors, cols, found2, i + 1)
        } else {
            supply_all(g, ancestors, cols, found, i + 1)
        }
    } else {
        g
    }
}

/// The graph after the columns were pulled for the first `i` ancestors of
/// `n`, the last of them first.
pub open spec fn descend(g: Seq<NodeModel>, n: int, ancestors: Seq<usize>, i: int) -> Seq<
    NodeModel,
>
    decreases n, i,
{
    if 0 < i <= ancestors.len() {
        let a = ancestors[i - 1] as int;
        let g2 = if 0 <= a < n && a < g.len() && g[a].ancestors.len() > 0 {
            pulled(g, a)
        } else {
            g
        };
        descend(g2, n, ancestors, i - 1)
    } else {
        g
    }
}

/// The graph after the columns were pulled for the node `n`: its ancestors
/// take the columns that it needs, and then the same is done for each of
/// them, the last first.
pub open spec fn pulled(g: Seq<NodeModel>, n: int) -> Seq<NodeModel>
    decreases n, g[n].ancestors.len() + 1,
{
    if 0 <= n < g.len() {
        descend(
            supply_all(g, g[n].ancestors, needed(g, n), Seq::empty(), 0),
            n,
            g[n].ancestors,
            g[n].ancestors.len() as int,
        )
    } else {
        g
    }
}

/// `after` is `before` with columns added: the same nodes with the same
/// ancestors and operators, each with the columns that it had, in their
/// order, and possibly more.
pub open spec fn grown(before: Seq<NodeModel>, after: Seq<NodeModel>) -> bool {
    &&& after.len() == before.len()
    &&& forall|m: int|
        0 <= m < before.len() ==> {
            &&& (#[trigger] after[m]).ancestors == before[m].ancestors
            &&& after[m].reads == before[m].reads
            &&& (after[m].kind is Base) == (before[m].kind is Base)
            &&& forall|c: Seq<char>|
                before[m].columns.contains(c) ==> #[trigger] after[m].columns.contains(c)
        }
}

/// Taking a column keeps a graph in order and only adds to it.
pub proof fn lemma_with_column(g: Seq<NodeModel>, n: int, c: Seq<char>)
    requires
        graph_ok(g),
        0 <= n < g.len(),
    ensures
        graph_ok(with_column(g, n, c)),
        grown(g, with_column(g, n, c)),
        0 <= insert_at(g, n) <= g[n].columns.len(),
{
    let w = with_column(g, n, c);
    let p = insert_at(g, n);
    assert(node_ok(g[n], n));
    assert forall|m: int| 0 <= m < w.len() implies node_ok(#[trigger] w[m], m) by {
        assert(node_ok(g[m], m));
        if m == n {
            assert(w[n].columns.len() == g[n].columns.len() + 1);
        }
    }
    assert forall|d: Seq<char>| g[n].columns.contains(d) implies #[trigger] w[n].columns.contains(
        d,
    ) by {
        let i = choose|i: int| 0 <= i < g[n].columns.len() && g[n].columns[i] == d;
        if i < p {
            assert(w[n].columns[i] == d);
        } else {
            assert(w[n].columns[i + 1] == d);
        }
    }
}

/// Growth is reflexive and transitive.
pub proof fn lemma_grown_trans(a: Seq<NodeModel>, b: Seq<NodeModel>, c: Seq<NodeModel>)
    requires
        grown(a, b),
        grown(b, c),
    ensures
        grown(a, c),
        grown(a, a),
{
    assert forall|m: int| 0 <= m < a.len() implies {
        &&& (#[trigger] c[m]).ancestors == a[m].ancestors
        &&& c[m].reads == a[m].reads
        &&& (c[m].kind is Base) == (a[m].kind is Base)
        &&& forall|d: Seq<char>| a[m].columns.contains(d) ==> #[trigger] c[m].columns.contains(d)
    } by {
        assert(b[m].ancestors == a[m].ancestors);
        assert forall|d: Seq<char>| a[m].columns.contains(d) implies #[trigger] c[m].columns.contains(
            d,
        ) by {
            assert(b[m].columns.contains(d));
        }
    }
}

/// A node that can supply a column can still supply it after the graph has
/// grown.
pub proof fn lemma_provides_grows(
    before: Seq<NodeModel>,
    after: Seq<NodeModel>,
    n: int,
    c: Seq<char>,
)
    requires
        grown(before, after),
        provides(before, n, c),
    ensures
        provides(after, n, c),
    decreases n,
{
    assert(after[n].ancestors == before[n].ancestors);
    if before[n].columns.contains(c) {
        assert(after[n].columns.contains(c));
    } else {
        let i = choose|i: int|
            0 <= i < before[n].ancestors.len() && before[n].ancestors[i] < n && provides(
                before,
                #[trigger] before[n].ancestors[i] as int,
                c,
            );
        lemma_provides_grows(before, after, before[n].ancestors[i] as int, c);
        assert(provides(after, after[n].ancestors[i] as int, c));
    }
}

/// The node `n` emits the column `c`.
pub open spec fn emits(g: Seq<NodeModel>, n: int, c: Seq<char>) -> bool {
    g[n].columns.contains(c)
}

/// One of the nodes `ancestors` emits the column `c`.
pub open spec fn emitted_by(g: Seq<NodeModel>, ancestors: Seq<usize>, c: Seq<char>) -> bool {
    exists|i: int|
        0 <= i < ancestors.len() && ancestors[i] < g.len() && (#[trigger] g[ancestors[i] as int]).columns.contains(
            c,
        )
}

/// One of the first `upto` of the nodes `ancestors` has ancestors of its own
/// and can supply the column `c`.
pub open spec fn supplied_among(
    g: Seq<NodeModel>,
    ancestors: Seq<usize>,
    c: Seq<char>,
    upto: int,
) -> bool {
    exists|i: int|
        0 <= i < upto && i < ancestors.len() && ancestors[i] < g.len() && (
        #[trigger] g[ancestors[i] as int]).ancestors.len() > 0 && provides(
            g,
            ancestors[i] as int,
            c,
        )
}

/// One of the nodes `ancestors` has ancestors of its own and can supply the
/// column `c`.
pub open spec fn supplied_by(g: Seq<NodeModel>, ancestors: Seq<usize>, c: Seq<char>) -> bool {
    supplied_among(g, ancestors, c, ancestors.len() as int)
}

/// A column that one of some nodes emits is still emitted by it after the
/// graph has grown.
pub proof fn lemma_emitted_grows(
    before: Seq<NodeModel>,
    after: Seq<NodeModel>,
    ancestors: Seq<usize>,
    c: Seq<char>,
)
    requires
        grown(before, after),
        emitted_by(before, ancestors, c),
    ensures
        emitted_by(after, ancestors, c),
{
    let i = choose|i: int|
        0 <= i < ancestors.len() && ancestors[i] < before.len() && (
        #[trigger] before[ancestors[i] as int]).columns.contains(c);
    assert(after[ancestors[i] as int].columns.contains(c));
}

impl Column {
    /// The column with the given name.
    pub fn new(name: &str) -> (column: Column)
        ensures
            column@ == name@,
    {
        Column { name: String::from_str(name) }
    }

    /// Whether the two columns have the same name.
    pub fn same_as(&self, other: &Column) -> (same: bool)
        ensures
            same == (self@ == other@),
    {
        self.name == other.name
    }

    /// A copy of the column.
    pub fn duplicate(&self) -> (copy: Column)
        ensures
            copy@ == self@,
    {
        Column { name: self.name.clone() }
    }
}

/// Whether a column with the name of `c` is among `cols`.
pub fn contains_column(cols: &Vec<Column>, c: &Column) -> (found: bool)
    ensures
        found == names(cols@).contains(c@),
{
    let mut i: usize = 0;
    while i < cols.len()
        invariant
            i <= cols@.len(),
            forall|j: int| 0 <= j < i ==> names(cols@)[j] != c@,
        decreases cols@.len() - i,
    {
        if cols[i].same_as(c) {
            assert(names(cols@)[i as int] == c@);
            return true;
        }
        i += 1;
    }
    false
}

/// The graph of a query plan. Nodes are known by their numbers; every node
/// stands behind its ancestors.
#[derive(Debug)]
pub struct MirGraph {
    nodes: Vec<MirNode>,
}

impl View for MirGraph {
    type V = Seq<NodeModel>;

    closed spec fn view(&self) -> Seq<NodeModel> {
        self.nodes@.map_values(|node: MirNode| node@)
    }
}

impl MirGraph {
    /// Every node stands behind its ancestors and is in order by itself.
    pub open spec fn wf(&self) -> bool {
        graph_ok(self@)
    }

    /// A graph without nodes.
    pub fn new() -> (graph: MirGraph)
        ensures
            graph@ == Seq::<NodeModel>::empty(),
            graph.wf(),
    {
        let graph = MirGraph { nodes: Vec::new() };
        assert(graph@ =~= Seq::<NodeModel>::empty());
        graph
    }

    /// The number of nodes.
    pub fn len(&self) -> (n: usize)
        ensures
            n == self@.len(),
    {
        self.nodes.len()
    }

    /// Whether `node` may stand at the end of the graph.
    pub fn accepts(&self, node: &MirNode) -> (ok: bool)
        ensures
            ok == node_ok(node@, self@.len() as int),
    {
        let n = self.nodes.len();
        let mut i: usize = 0;
        while i < node.ancestors.len()
            invariant
                i <= node.ancestors@.len(),
                n == self@.len(),
                forall|j: int| 0 <= j < i ==> node.ancestors@[j] < n,
            decreases node.ancestors@.len() - i,
        {
            if node.ancestors[i] >= n {
                assert(!(node@.ancestors[i as int] < n));
                return false;
            }
            i += 1;
        }
        match node.kind {
            MirNodeKind::Base => node.ancestors.len() == 0,
            MirNodeKind::Aggregation => node.columns.len() >= 1,
            MirNodeKind::Project { emit } => emit <= node.columns.len(),
            _ => true,
        }
    }

    /// Adds `node` at the end of the graph and returns its number, or hands
    /// it back if it may not stand there.
    pub fn add_node(&mut self, node: MirNode) -> (added: Result<usize, MirNode>)
        requires
            old(self).wf(),
        ensures
            final(self).wf(),
            match added {
                Ok(n) => {
                    &&& node_ok(node@, old(self)@.len() as int)
                    &&& n == old(self)@.len()
                    &&& final(self)@ == old(self)@.push(node@)
                },
                Err(back) => {
                    &&& !node_ok(node@, old(self)@.len() as int)
                    &&& back == node
                    &&& final(self)@ == old(self)@
                },
            },
    {
        if !self.accepts(&node) {
            return Err(node);
        }
        let n = self.nodes.len();
        proof {
            assert(self.nodes@.push(node).map_values(|node: MirNode| node@) =~= self@.push(node@));
        }
        self.nodes.push(node);
        Ok(n)
    }

    /// The node with the number `n`, if there is one.
    pub fn node(&self, n: usize) -> (node: Option<&MirNode>)
        ensures
            match node {
                Some(found) => n < self@.len() && found@ == self@[n as int],
                None => n >= self@.len(),
            },
    {
        if n < self.nodes.len() {
            Some(&self.nodes[n])
        } else {
            None
        }
    }

    /// The node with the number `n`.
    pub fn at(&self, n: usize) -> (node: &MirNode)
        requires
            n < self@.len(),
        ensures
            node@ == self@[n as int],
    {
        &self.nodes[n]
    }

    /// Where the node `n` puts a new column, if not at the end.
    pub fn column_pos(&self, n: usize) -> (pos: Option<usize>)
        requires
            self.wf(),
            n < self@.len(),
        ensures
            match pos {
                Some(p) => column_pos(self@, n as int) == Some(p as int),
                None => column_pos(self@, n as int) is None,
            },
        decreases n,
    {
        assert(node_ok(self@[n as int], n as int));
        match self.nodes[n].kind {
            MirNodeKind::Aggregation => Some(self.nodes[n].columns.len() - 1),
            MirNodeKind::Project { emit } => Some(emit),
            MirNodeKind::Filter => {
                if self.nodes[n].ancestors.len() > 0 {
                    let parent = self.nodes[n].ancestors[0];
                    assert(self@[n as int].ancestors[0] < n);
                    self.column_pos(parent)
                } else {
                    None
                }
            },
            _ => None,
        }
    }

    /// Makes the node `n` emit the column `c` as well, at the place that its
    /// operator has for new columns. A base table refuses.
    pub fn add_column(&mut self, n: usize, c: Column) -> (result: Result<(), MirError>)
        requires
            old(self).wf(),
            n < old(self)@.len(),
        ensures
            final(self).wf(),
            match result {
                Ok(_) => {
                    &&& !(old(self)@[n as int].kind is Base)
                    &&& final(self)@ == with_column(old(self)@, n as int, c@)
                },
                Err(error) => {
                    &&& old(self)@[n as int].kind is Base
                    &&& error == MirError::BaseColumn
                    &&& final(self)@ == old(self)@
                },
            },
    {
        let len = self.nodes[n].columns.len();
        let at = match self.nodes[n].kind {
            MirNodeKind::Base => {
                return Err(MirError::BaseColumn);
            },
            _ => match self.column_pos(n) {
                Some(p) => if p > len {
                    len
                } else {
                    p
                },
                None => len,
            },
        };
        proof {
            lemma_with_column(self@, n as int, c@);
        }
        self.nodes[n].columns.insert(at, c);
        match self.nodes[n].kind {
            MirNodeKind::Project { emit } => {
                let now = self.nodes[n].columns.len();
                assert(emit < now);
                self.nodes[n].kind = MirNodeKind::Project { emit: emit + 1 };
            },
            _ => {},
        }
        proof {
            let w = with_column(old(self)@, n as int, c@);
            assert(self@[n as int].columns =~= w[n as int].columns);
            assert(self@ =~= w);
        }
        Ok(())
    }

    /// The columns that the node `n` refers to: those that it emits, then
    /// those that its operator reads besides.
    pub fn referenced_columns(&self, n: usize) -> (columns: Vec<Column>)
        requires
            n < self@.len(),
        ensures
            names(columns@) == referenced(self@[n as int]),
    {
        let node = &self.nodes[n];
        let mut columns: Vec<Column> = Vec::new();
        let mut i: usize = 0;
        while i < node.columns.len()
            invariant
                i <= node.columns@.len(),
                columns@.len() == i,
                forall|k: int| 0 <= k < i ==> columns@[k]@ == node.columns@[k]@,
            decreases node.columns@.len() - i,
        {
            columns.push(node.columns[i].duplicate());
            i += 1;
        }
        proof {
            assert(names(columns@) =~= names(node.columns@));
        }
        let mut j: usize = 0;
        while j < node.reads.len()
            invariant
                j <= node.reads@.len(),
                n < self@.len(),
                node@ == self@[n as int],
                referenced(node@) == add_missing(names(columns@), names(node.reads@), j as int),
            decreases node.reads@.len() - j,
        {
            assert(names(node.reads@)[j as int] == node.reads@[j as int]@);
            if !contains_column(&columns, &node.reads[j]) {
                let ghost before = columns@;
                columns.push(node.reads[j].duplicate());
                proof {
                    assert(names(columns@) =~= names(before).push(node.reads@[j as int]@));
                }
            }
            j += 1;
        }
        columns
    }
}

} // verus!
