//! The syntax tree model: a parsed SQL statement as an arena of plain nodes
//! in document (pre-order) position, each carrying its kind, source text,
//! position, and links to parent and children.
//!
//! The parser itself is an outside collaborator; its calls sit behind trusted
//! wrappers, and the verified builder guarantees a well-formed arena whatever
//! the parser returned.

use vstd::prelude::*;

verus! {

use vstd::string::StrSliceExecFns;
use crate::text::str_eq;

/// One node of the model: plain values only.
pub struct SqlNode {
    /// The grammar kind tag, such as `select` or `identifier`.
    pub kind: String,
    /// The source text this node spans.
    pub text: String,
    /// 0-based start row in the source.
    pub row: usize,
    /// 0-based start column in the source.
    pub col: usize,
    /// Whether the grammar counts this node as named.
    pub named: bool,
    /// The field name under which this node sits in its parent, if any.
    pub field: Option<String>,
    /// The parent's arena index; the root has none.
    pub parent: Option<usize>,
    /// Arena indices of the children, in document order.
    pub children: Vec<usize>,
}

/// A parse tree as an arena; index 0 is the root, and indices are assigned in
/// pre-order, so walking `0..len` visits nodes in document order.
pub struct SqlTree {
    pub nodes: Vec<SqlNode>,
}

impl SqlTree {
    /// Well-formedness: every child link goes strictly forward and stays in
    /// bounds, every parent link goes strictly backward, and positions leave
    /// room for 1-based conversion.
    pub open spec fn wf(&self) -> bool {
        &&& forall|i: int, k: int|
            0 <= i < self.nodes@.len() && 0 <= k < self.nodes@[i].children@.len() ==> i
                < #[trigger] self.nodes@[i].children@[k] && self.nodes@[i].children@[k]
                < self.nodes@.len()
        &&& forall|i: int|
            0 <= i < self.nodes@.len() ==> ((#[trigger] self.nodes@[i].parent) matches Some(p)
                ==> 0 <= p < i)
        &&& forall|i: int|
            0 <= i < self.nodes@.len() ==> (#[trigger] self.nodes@[i].row) < usize::MAX
                && self.nodes@[i].col < usize::MAX
    }

    pub fn node_count(&self) -> (res: usize)
        ensures
            res == self.nodes@.len(),
    {
        self.nodes.len()
    }

    /// Whether node `i` has this kind tag.
    pub fn kind_is(&self, i: usize, kind: &str) -> (res: bool)
        requires
            i < self.nodes@.len(),
        ensures
            res == (self.nodes@[i as int].kind@ == kind@),
    {
        str_eq(self.nodes[i].kind.as_str(), kind)
    }

    /// The first named child of node `i` with this kind.
    pub open spec fn spec_named_child_of_kind(self, i: int, kind: Seq<char>) -> Option<usize> {
        spec_named_kind_search(self.nodes@, self.nodes@[i].children@, kind)
    }

    /// The first named child of node `i` with this kind, if any.
    pub fn named_child_of_kind(&self, i: usize, kind: &str) -> (res: Option<usize>)
        requires
            self.wf(),
            i < self.nodes@.len(),
        ensures
            res == self.spec_named_child_of_kind(i as int, kind@),
            res matches Some(c) ==> i < c < self.nodes@.len() && self.nodes@[c as int].kind@
                == kind@ && self.nodes@[c as int].named,
    {
        let children = &self.nodes[i].children;
        let n = children.len();
        let mut k: usize = 0;
        proof {
            assert(children@.subrange(0, n as int) =~= children@);
        }
        while k < n
            invariant
                self.wf(),
                i < self.nodes@.len(),
                children@ == self.nodes@[i as int].children@,
                n == children@.len(),
                0 <= k <= n,
                self.spec_named_child_of_kind(i as int, kind@) == spec_named_kind_search(
                    self.nodes@,
                    children@.subrange(k as int, n as int),
                    kind@,
                ),
            decreases n - k,
        {
            let c = children[k];
            proof {
                assert(children@.subrange(k as int, n as int)[0] == children@[k as int]);
                assert(children@.subrange(k as int, n as int).subrange(
                    1,
                    (n - k) as int,
                ) =~= children@.subrange(k + 1, n as int));
            }
            if self.nodes[c].named && str_eq(self.nodes[c].kind.as_str(), kind) {
                return Some(c);
            }
            k = k + 1;
        }
        None
    }

    /// The first child of node `i` sitting under this field name.
    pub open spec fn spec_child_by_field(self, i: int, name: Seq<char>) -> Option<usize> {
        spec_field_search(self.nodes@, self.nodes@[i].children@, name)
    }

    /// The child of node `i` sitting under this field name, if any.
    pub fn child_by_field_name(&self, i: usize, name: &str) -> (res: Option<usize>)
        requires
            self.wf(),
            i < self.nodes@.len(),
        ensures
            res == self.spec_child_by_field(i as int, name@),
            res matches Some(c) ==> i < c < self.nodes@.len() && (self.nodes@[c as int].field
                matches Some(f) && f@ == name@),
    {
        let children = &self.nodes[i].children;
        let n = children.len();
        let mut k: usize = 0;
        proof {
            assert(children@.subrange(0, n as int) =~= children@);
        }
        while k < n
            invariant
                self.wf(),
                i < self.nodes@.len(),
                children@ == self.nodes@[i as int].children@,
                n == children@.len(),
                0 <= k <= n,
                self.spec_child_by_field(i as int, name@) == spec_field_search(
                    self.nodes@,
                    children@.subrange(k as int, n as int),
                    name@,
                ),
            decreases n - k,
        {
            let c = children[k];
            proof {
                assert(children@.subrange(k as int, n as int)[0] == children@[k as int]);
                assert(children@.subrange(k as int, n as int).subrange(
                    1,
                    (n - k) as int,
                ) =~= children@.subrange(k + 1, n as int));
            }
            match &self.nodes[c].field {
                Some(f) => {
                    if str_eq(f.as_str(), name) {
                        return Some(c);
                    }
                },
                None => {},
            }
            k = k + 1;
        }
        None
    }

    /// The first named sibling after node `i` in its parent's child list.
    pub open spec fn spec_next_named_sibling(self, i: usize) -> Option<usize> {
        match self.nodes@[i as int].parent {
            Some(p) => spec_sibling_search(self.nodes@, self.nodes@[p as int].children@, i, false),
            None => None,
        }
    }

    /// The next named sibling of node `i`, if any: a named node that follows
    /// `i` in the same parent's child list.
    pub fn next_named_sibling(&self, i: usize) -> (res: Option<usize>)
        requires
            self.wf(),
            i < self.nodes@.len(),
        ensures
            res == self.spec_next_named_sibling(i),
            res matches Some(s) ==> s < self.nodes@.len() && self.nodes@[s as int].named
                && (self.nodes@[i as int].parent matches Some(p) && exists|ki: int, ks: int|
                0 <= ki < ks < self.nodes@[p as int].children@.len()
                    && self.nodes@[p as int].children@[ki] == i
                    && self.nodes@[p as int].children@[ks] == s),
    {
        let p = match self.nodes[i].parent {
            Some(p) => p,
            None => {
                return None;
            },
        };
        let siblings = &self.nodes[p].children;
        let n = siblings.len();
        let mut k: usize = 0;
        let mut seen: bool = false;
        let ghost mut seen_at: int = 0;
        proof {
            assert(siblings@.subrange(0, n as int) =~= siblings@);
        }
        while k < n
            invariant
                self.wf(),
                i < self.nodes@.len(),
                p < self.nodes@.len(),
                self.nodes@[i as int].parent == Some(p),
                siblings@ == self.nodes@[p as int].children@,
                n == siblings@.len(),
                0 <= k <= n,
                seen ==> 0 <= seen_at < k && siblings@[seen_at] == i,
                self.spec_next_named_sibling(i) == spec_sibling_search(
                    self.nodes@,
                    siblings@.subrange(k as int, n as int),
                    i,
                    seen,
                ),
            decreases n - k,
        {
            let c = siblings[k];
            proof {
                assert(siblings@.subrange(k as int, n as int)[0] == siblings@[k as int]);
                assert(siblings@.subrange(k as int, n as int).subrange(
                    1,
                    (n - k) as int,
                ) =~= siblings@.subrange(k + 1, n as int));
            }
            if seen && self.nodes[c].named {
                proof {
                    assert(siblings@[seen_at] == i && siblings@[k as int] == c);
                }
                return Some(c);
            }
            if c == i {
                seen = true;
                proof {
                    seen_at = k as int;
                }
            }
            k = k + 1;
        }
        None
    }

    /// The nearest strict ancestor of node `i` with this kind.
    pub open spec fn spec_ancestor_of_kind(self, i: int, kind: Seq<char>) -> Option<usize>
        decreases i,
        when self.wf() && 0 <= i < self.nodes@.len()
    {
        match self.nodes@[i].parent {
            Some(p) => {
                if self.nodes@[p as int].kind@ == kind {
                    Some(p)
                } else {
                    self.spec_ancestor_of_kind(p as int, kind)
                }
            },
            None => None,
        }
    }

    /// The nearest ancestor of node `i` with this kind, if any.
    pub fn find_ancestor_of_kind(&self, i: usize, kind: &str) -> (res: Option<usize>)
        requires
            self.wf(),
            i < self.nodes@.len(),
        ensures
            res == self.spec_ancestor_of_kind(i as int, kind@),
            res matches Some(a) ==> a < self.nodes@.len() && self.nodes@[a as int].kind@ == kind@,
    {
        let mut cur: usize = i;
        loop
            invariant
                self.wf(),
                cur < self.nodes@.len(),
                self.spec_ancestor_of_kind(i as int, kind@) == self.spec_ancestor_of_kind(
                    cur as int,
                    kind@,
                ),
            decreases cur,
        {
            match self.nodes[cur].parent {
                Some(p) => {
                    if str_eq(self.nodes[p].kind.as_str(), kind) {
                        return Some(p);
                    }
                    cur = p;
                },
                None => {
                    return None;
                },
            }
        }
    }

    /// Whether node `i` sits anywhere inside a CTE definition.
    pub fn is_inside_cte(&self, i: usize) -> (res: bool)
        requires
            self.wf(),
            i < self.nodes@.len(),
        ensures
            res == (self.spec_ancestor_of_kind(i as int, "cte"@) is Some),
    {
        self.find_ancestor_of_kind(i, "cte").is_some()
    }
}

/// First entry of `children` whose node is named and has this kind.
pub open spec fn spec_named_kind_search(
    nodes: Seq<SqlNode>,
    children: Seq<usize>,
    kind: Seq<char>,
) -> Option<usize>
    decreases children.len(),
{
    if children.len() == 0 {
        None
    } else {
        let c = children[0];
        if nodes[c as int].named && nodes[c as int].kind@ == kind {
            Some(c)
        } else {
            spec_named_kind_search(nodes, children.subrange(1, children.len() as int), kind)
        }
    }
}

/// First entry of `children` whose node carries this field name.
pub open spec fn spec_field_search(
    nodes: Seq<SqlNode>,
    children: Seq<usize>,
    name: Seq<char>,
) -> Option<usize>
    decreases children.len(),
{
    if children.len() == 0 {
        None
    } else {
        let c = children[0];
        let hit = match nodes[c as int].field {
            Some(f) => f@ == name,
            None => false,
        };
        if hit {
            Some(c)
        } else {
            spec_field_search(nodes, children.subrange(1, children.len() as int), name)
        }
    }
}

/// First named entry of `siblings` after the one equal to `i`.
pub open spec fn spec_sibling_search(
    nodes: Seq<SqlNode>,
    siblings: Seq<usize>,
    i: usize,
    seen: bool,
) -> Option<usize>
    decreases siblings.len(),
{
    if siblings.len() == 0 {
        None
    } else {
        let c = siblings[0];
        if seen && nodes[c as int].named {
            Some(c)
        } else {
            spec_sibling_search(
                nodes,
                siblings.subrange(1, siblings.len() as int),
                i,
                seen || c == i,
            )
        }
    }
}

#[verifier::external_type_specification]
#[verifier::external_body]
pub struct ExTsTree(tree_sitter::Tree);

#[verifier::external_type_specification]
#[verifier::external_body]
pub struct ExTsNode<'a>(tree_sitter::Node<'a>);

/// Relies on tree_sitter::Parser (new, set_language) with the BigQuery SQL
/// grammar of tree_sitter_sql_bigquery::language, and Parser::parse: turns
/// source text into a concrete syntax tree, or nothing when the parser
/// cannot be set up or gives no tree.
#[verifier::external_body]
fn ts_parse(sql: &str) -> (res: Option<tree_sitter::Tree>) {
    let mut parser = tree_sitter::Parser::new();
    if parser.set_language(&tree_sitter_sql_bigquery::language()).is_err() {
        return None;
    }
    parser.parse(sql, None)
}

/// Relies on tree_sitter::Tree::root_node: the root of the tree.
#[verifier::external_body]
fn ts_root<'t>(tree: &'t tree_sitter::Tree) -> (res: tree_sitter::Node<'t>) {
    tree.root_node()
}

/// Relies on tree_sitter::Node::kind: the node's grammar kind tag.
#[verifier::external_body]
fn ts_kind(node: &tree_sitter::Node) -> (res: String) {
    node.kind().to_string()
}

/// Relies on tree_sitter::Node::utf8_text, with Node::start_byte and
/// Node::end_byte guarding its slice: the source text the node spans, empty
/// when the node's byte range does not fit the given text or the span is not
/// valid UTF-8. The guard keeps the call from panicking when the text is not
/// the one the node was parsed from.
#[verifier::external_body]
fn ts_text(node: &tree_sitter::Node, sql: &str) -> (res: String) {
    if node.start_byte() > node.end_byte() || node.end_byte() > sql.len() {
        return String::new();
    }
    node.utf8_text(sql.as_bytes()).unwrap_or("").to_string()
}

/// Relies on tree_sitter::Node::start_position: the 0-based start row.
#[verifier::external_body]
fn ts_row(node: &tree_sitter::Node) -> (res: usize) {
    node.start_position().row
}

/// Relies on tree_sitter::Node::start_position: the 0-based start column.
#[verifier::external_body]
fn ts_col(node: &tree_sitter::Node) -> (res: usize) {
    node.start_position().column
}

/// Relies on tree_sitter::Node::is_named: whether the grammar counts the
/// node as named.
#[verifier::external_body]
fn ts_named(node: &tree_sitter::Node) -> (res: bool) {
    node.is_named()
}

/// Relies on tree_sitter::Node::child_count: how many children the node has.
#[verifier::external_body]
fn ts_child_count(node: &tree_sitter::Node) -> (res: usize) {
    node.child_count()
}

/// Relies on tree_sitter::Node::child: the i-th child, if any.
#[verifier::external_body]
fn ts_child<'t>(node: &tree_sitter::Node<'t>, i: usize) -> (res: Option<tree_sitter::Node<'t>>) {
    node.child(i)
}

/// Relies on tree_sitter::Node::field_name_for_child: the field name of the
/// i-th child, if any; an index beyond the u32 range has no field.
#[verifier::external_body]
fn ts_field_name(node: &tree_sitter::Node, i: usize) -> (res: Option<String>) {
    match u32::try_from(i) {
        Ok(v) => node.field_name_for_child(v).map(|s| s.to_string()),
        Err(_) => None,
    }
}

/// Parses SQL text into the arena model; `None` when the parser gives no
/// tree, a position leaves no room for 1-based conversion, or the work
/// budget runs out.
pub fn parse_sql_tree(sql: &str) -> (res: Option<SqlTree>)
    ensures
        res matches Some(t) ==> t.wf(),
{
    match ts_parse(sql) {
        None => None,
        Some(tree) => {
            let root = ts_root(&tree);
            build_tree(root, sql)
        },
    }
}

/// Builds the arena by an explicit depth-first walk; children are pushed in
/// reverse so indices come out in document (pre-order) order.
fn build_tree(root: tree_sitter::Node, sql: &str) -> (res: Option<SqlTree>)
    ensures
        res matches Some(t) ==> t.wf(),
{
    let mut nodes: Vec<SqlNode> = Vec::new();
    let mut stack: Vec<(tree_sitter::Node, Option<usize>, Option<String>)> = Vec::new();
    stack.push((root, None, None));
    let mut fuel: usize = usize::MAX;
    while stack.len() > 0
        invariant
            forall|s: int|
                0 <= s < stack@.len() ==> ((#[trigger] stack@[s].1) matches Some(p) ==> p
                    < nodes@.len()),
            forall|i: int, k: int|
                0 <= i < nodes@.len() && 0 <= k < nodes@[i].children@.len() ==> i
                    < #[trigger] nodes@[i].children@[k] && nodes@[i].children@[k] < nodes@.len(),
            forall|i: int|
                0 <= i < nodes@.len() ==> ((#[trigger] nodes@[i].parent) matches Some(p) ==> 0
                    <= p < i),
            forall|i: int|
                0 <= i < nodes@.len() ==> (#[trigger] nodes@[i].row) < usize::MAX
                    && nodes@[i].col < usize::MAX,
        decreases fuel,
    {
        if fuel == 0 {
            return None;
        }
        fuel = fuel - 1;
        let (node, parent, field) = match stack.pop() {
            Some(entry) => entry,
            None => {
                return None;
            },
        };
        let row = ts_row(&node);
        let col = ts_col(&node);
        if row == usize::MAX || col == usize::MAX {
            return None;
        }
        let idx = nodes.len();
        if idx == usize::MAX {
            return None;
        }
        nodes.push(
            SqlNode {
                kind: ts_kind(&node),
                text: ts_text(&node, sql),
                row,
                col,
                named: ts_named(&node),
                field,
                parent,
                children: Vec::new(),
            },
        );
        match parent {
            Some(p) => {
                nodes[p].children.push(idx);
            },
            None => {},
        }
        let count = ts_child_count(&node);
        let mut k: usize = count;
        while k > 0
            invariant
                nodes@.len() == idx + 1,
                forall|s: int|
                    0 <= s < stack@.len() ==> ((#[trigger] stack@[s].1) matches Some(p) ==> p
                        < nodes@.len()),
            decreases k,
        {
            k = k - 1;
            match ts_child(&node, k) {
                Some(child) => {
                    stack.push((child, Some(idx), ts_field_name(&node, k)));
                },
                None => {},
            }
        }
    }
    let res = SqlTree { nodes };
    Some(res)
}

} // verus!
