use vstd::prelude::*;
use crate::util::{kind_rank, NodeType};
use core::cmp::Ordering;
use std::collections::HashSet;

verus! {

/// Abstract value of a tree entry.
pub struct NodeView {
    pub name: Seq<char>,
    pub path: Seq<char>,
    pub children: Option<Seq<NodeView>>,
    pub expanded: Option<bool>,
    pub id: u128,
    pub depth: u32,
    pub kind: NodeType,
}

/// An entry of the workspace tree.
///
/// `children` is `None` for an entry that is not a directory, and `expanded`
/// is `None` for an entry that cannot be expanded.
pub struct Node {
    pub display_name: String,
    pub value: String,
    pub children: Option<Vec<Node>>,
    pub expanded: Option<bool>,
    pub id: u128,
    pub layer: u32,
    pub node_type: NodeType,
}

pub open spec fn node_view(n: Node) -> NodeView
    decreases n,
{
    NodeView {
        name: n.display_name@,
        path: n.value@,
        children: match n.children {
            Some(c) => Some(nodes_view(c@)),
            None => None,
        },
        expanded: n.expanded,
        id: n.id,
        depth: n.layer,
        kind: n.node_type,
    }
}

pub open spec fn nodes_view(s: Seq<Node>) -> Seq<NodeView>
    decreases s,
{
    Seq::new(s.len(), |i: int| if 0 <= i < s.len() { node_view(s[i]) } else { arbitrary() })
}

impl View for Node {
    type V = NodeView;

    open spec fn view(&self) -> NodeView {
        node_view(*self)
    }
}

/// All of a sequence but its last element.
pub open spec fn init<A>(s: Seq<A>) -> Seq<A> {
    s.subrange(0, s.len() - 1)
}

// ----- lookup by id -----

/// The first node carrying `id` in a depth-first, pre-order walk of `n`.
pub open spec fn find_node(n: NodeView, id: u128) -> Option<NodeView>
    decreases n,
{
    if n.id == id {
        Some(n)
    } else {
        match n.children {
            Some(c) => find_nodes(c, id),
            None => None,
        }
    }
}

/// The first node carrying `id` in a depth-first, pre-order walk of the forest `s`.
pub open spec fn find_nodes(s: Seq<NodeView>, id: u128) -> Option<NodeView>
    decreases s,
{
    if s.len() == 0 {
        None
    } else {
        match find_nodes(init(s), id) {
            Some(n) => Some(n),
            None => find_node(s.last(), id),
        }
    }
}

// ----- expand / collapse -----

pub open spec fn flip(e: Option<bool>) -> Option<bool> {
    match e {
        Some(b) => Some(!b),
        None => None,
    }
}

/// `n` with the expand state of its first node carrying `id` flipped.
pub open spec fn toggle_node(n: NodeView, id: u128) -> NodeView
    decreases n,
{
    if n.id == id {
        NodeView { expanded: flip(n.expanded), ..n }
    } else {
        match n.children {
            Some(c) => NodeView { children: Some(toggle_nodes(c, id)), ..n },
            None => n,
        }
    }
}

/// The forest `s` with the expand state of its first node carrying `id` flipped.
pub open spec fn toggle_nodes(s: Seq<NodeView>, id: u128) -> Seq<NodeView>
    decreases s,
{
    if s.len() == 0 {
        s
    } else if find_nodes(init(s), id) is Some {
        toggle_nodes(init(s), id).push(s.last())
    } else {
        init(s).push(toggle_node(s.last(), id))
    }
}

proof fn lemma_toggle_len(s: Seq<NodeView>, id: u128)
    ensures
        toggle_nodes(s, id).len() == s.len(),
    decreases s.len(),
{
    if s.len() > 0 {
        lemma_toggle_len(init(s), id);
    }
}

proof fn lemma_find_after_toggle_node(n: NodeView, id: u128)
    ensures
        (find_node(toggle_node(n, id), id) is Some) == (find_node(n, id) is Some),
    decreases n,
{
    if n.id != id {
        if let Some(c) = n.children {
            lemma_find_after_toggle(c, id);
        }
    }
}

proof fn lemma_find_after_toggle(s: Seq<NodeView>, id: u128)
    ensures
        (find_nodes(toggle_nodes(s, id), id) is Some) == (find_nodes(s, id) is Some),
    decreases s,
{
    if s.len() > 0 {
        let p = init(s);
        let t = toggle_nodes(s, id);
        lemma_toggle_len(p, id);
        if find_nodes(p, id) is Some {
            lemma_find_after_toggle(p, id);
            assert(init(t) =~= toggle_nodes(p, id));
        } else {
            assert(init(t) =~= p);
            lemma_find_after_toggle_node(s.last(), id);
        }
    }
}

/// Flipping the same node twice gives back the node unchanged.
pub proof fn lemma_toggle_node_twice(n: NodeView, id: u128)
    ensures
        toggle_node(toggle_node(n, id), id) == n,
    decreases n,
{
    if n.id != id {
        if let Some(c) = n.children {
            lemma_toggle_twice(c, id);
        }
    }
}

/// Toggling the same id twice restores the expand state of every node of the forest.
pub proof fn lemma_toggle_twice(s: Seq<NodeView>, id: u128)
    ensures
        toggle_nodes(toggle_nodes(s, id), id) == s,
    decreases s,
{
    if s.len() > 0 {
        let p = init(s);
        let t = toggle_nodes(s, id);
        lemma_toggle_len(p, id);
        if find_nodes(p, id) is Some {
            assert(init(t) =~= toggle_nodes(p, id));
            lemma_find_after_toggle(p, id);
            lemma_toggle_twice(p, id);
            assert(toggle_nodes(t, id) =~= s);
        } else {
            assert(init(t) =~= p);
            lemma_toggle_node_twice(s.last(), id);
            assert(toggle_nodes(t, id) =~= s);
        }
    }
}

proof fn lemma_toggle_node_no_match(n: NodeView, id: u128)
    requires
        find_node(n, id) is None,
    ensures
        toggle_node(n, id) == n,
    decreases n,
{
    if let Some(c) = n.children {
        lemma_toggle_no_match(c, id);
    }
}

proof fn lemma_toggle_no_match(s: Seq<NodeView>, id: u128)
    requires
        find_nodes(s, id) is None,
    ensures
        toggle_nodes(s, id) == s,
    decreases s,
{
    if s.len() > 0 {
        lemma_toggle_node_no_match(s.last(), id);
        assert(toggle_nodes(s, id) =~= s);
    }
}

/// When the first match of `id` lies in `s[i]`, lookup and toggle act on `s[i]` alone.
proof fn lemma_first_match(s: Seq<NodeView>, i: int, id: u128)
    requires
        0 <= i < s.len(),
        find_nodes(s.subrange(0, i), id) is None,
        find_node(s[i], id) is Some,
    ensures
        find_nodes(s, id) == find_node(s[i], id),
        toggle_nodes(s, id) == s.update(i, toggle_node(s[i], id)),
    decreases s.len(),
{
    let p = init(s);
    if i == s.len() - 1 {
        assert(p =~= s.subrange(0, i));
        assert(toggle_nodes(s, id) =~= s.update(i, toggle_node(s[i], id)));
    } else {
        assert(p.subrange(0, i) =~= s.subrange(0, i));
        lemma_first_match(p, i, id);
        assert(toggle_nodes(s, id) =~= s.update(i, toggle_node(s[i], id)));
    }
}

// ----- flattening -----

/// How a row should be drawn.
#[derive(Clone, Copy, Debug, PartialEq, Eq, Structural)]
pub enum RowStyle {
    Directory,
    File,
    /// Placeholders and hidden entries (names starting with a dot).
    Muted,
}

/// Abstract value of a display row.
pub struct RowView {
    pub id: u128,
    pub text: Seq<char>,
    pub style: RowStyle,
}

/// One line of the flattened tree.
pub struct Row {
    pub text: String,
    pub id: u128,
    pub style: RowStyle,
}

impl View for Row {
    type V = RowView;

    open spec fn view(&self) -> RowView {
        RowView { id: self.id, text: self.text@, style: self.style }
    }
}

pub open spec fn rows_view(s: Seq<Row>) -> Seq<RowView> {
    s.map_values(|r: Row| r@)
}

pub open spec fn indent_unit() -> Seq<char> {
    seq![' ', ' ', ' ']
}

/// Three spaces per level of depth.
pub open spec fn indent(depth: nat) -> Seq<char>
    decreases depth,
{
    if depth == 0 {
        Seq::empty()
    } else {
        indent((depth - 1) as nat) + indent_unit()
    }
}

/// The marker of an expandable node: a down triangle when expanded, a right one when not.
pub open spec fn glyph(e: Option<bool>) -> Seq<char> {
    match e {
        Some(true) => seq!['\u{25bc}', ' '],
        Some(false) => seq!['\u{25b6}', ' '],
        None => Seq::empty(),
    }
}

pub open spec fn is_hidden_name(name: Seq<char>) -> bool {
    name.len() > 0 && name[0] == '.'
}

pub open spec fn style_of(n: NodeView) -> RowStyle {
    if n.kind == NodeType::Info || is_hidden_name(n.name) {
        RowStyle::Muted
    } else if n.kind == NodeType::Directory {
        RowStyle::Directory
    } else {
        RowStyle::File
    }
}

pub open spec fn row_of(n: NodeView) -> RowView {
    RowView { id: n.id, text: indent(n.depth as nat) + glyph(n.expanded) + n.name, style: style_of(n) }
}

pub open spec fn shows_children(n: NodeView) -> bool {
    n.expanded == Some(true) && n.children is Some
}

/// The rows of `n`: its own, then those of its children when it is expanded.
pub open spec fn flatten_node(n: NodeView) -> Seq<RowView>
    decreases n,
{
    seq![row_of(n)] + if shows_children(n) {
        flatten_nodes(n.children.unwrap())
    } else {
        Seq::empty()
    }
}

/// The rows of a forest, in depth-first pre-order.
pub open spec fn flatten_nodes(s: Seq<NodeView>) -> Seq<RowView>
    decreases s,
{
    if s.len() == 0 {
        Seq::empty()
    } else {
        flatten_nodes(init(s)) + flatten_node(s.last())
    }
}

/// The number of nodes of `n` that are on display: `n` itself, and those of
/// its children when `n` is expanded.
pub open spec fn visible_node(n: NodeView) -> nat
    decreases n,
{
    1 + if shows_children(n) {
        visible_nodes(n.children.unwrap())
    } else {
        0
    }
}

/// The number of nodes of a forest whose chain of ancestors is expanded all the way up.
pub open spec fn visible_nodes(s: Seq<NodeView>) -> nat
    decreases s,
{
    if s.len() == 0 {
        0
    } else {
        visible_nodes(init(s)) + visible_node(s.last())
    }
}

/// A node yields one row for itself and for each visible descendant.
pub proof fn lemma_flatten_node_len(n: NodeView)
    ensures
        flatten_node(n).len() == visible_node(n),
    decreases n,
{
    if shows_children(n) {
        lemma_flatten_len(n.children.unwrap());
    }
}

/// A flattened forest has one row for each node whose ancestors are all expanded.
pub proof fn lemma_flatten_len(s: Seq<NodeView>)
    ensures
        flatten_nodes(s).len() == visible_nodes(s),
    decreases s,
{
    if s.len() > 0 {
        lemma_flatten_len(init(s));
        lemma_flatten_node_len(s.last());
    }
}

// ----- executable operations -----

fn find_in_node(n: &Node, id: u128) -> (r: Option<&Node>)
    ensures
        match r {
            Some(m) => find_node(n@, id) == Some(m@),
            None => find_node(n@, id) is None,
        },
    decreases n,
{
    if n.id == id {
        Some(n)
    } else {
        match &n.children {
            Some(c) => find_in(c, id),
            None => None,
        }
    }
}

fn find_in(ns: &Vec<Node>, id: u128) -> (r: Option<&Node>)
    ensures
        match r {
            Some(m) => find_nodes(nodes_view(ns@), id) == Some(m@),
            None => find_nodes(nodes_view(ns@), id) is None,
        },
    decreases ns,
{
    let ghost s = nodes_view(ns@);
    let mut i: usize = 0;
    while i < ns.len()
        invariant
            i <= ns.len(),
            s == nodes_view(ns@),
            find_nodes(s.subrange(0, i as int), id) is None,
        decreases ns.len() - i,
    {
        match find_in_node(&ns[i], id) {
            Some(m) => {
                proof {
                    lemma_first_match(s, i as int, id);
                }
                return Some(m);
            },
            None => {
                assert(init(s.subrange(0, i + 1)) =~= s.subrange(0, i as int));
            },
        }
        i += 1;
    }
    assert(s.subrange(0, i as int) =~= s);
    None
}

fn toggle_in_node(n: &mut Node, id: u128) -> (found: bool)
    ensures
        found == find_node(old(n)@, id) is Some,
        final(n)@ == toggle_node(old(n)@, id),
    decreases *old(n),
{
    if n.id == id {
        n.expanded = match n.expanded {
            Some(b) => Some(!b),
            None => None,
        };
        true
    } else {
        match &mut n.children {
            Some(c) => toggle_in(c, id),
            None => false,
        }
    }
}

fn toggle_in(ns: &mut Vec<Node>, id: u128) -> (found: bool)
    ensures
        found == find_nodes(nodes_view(old(ns)@), id) is Some,
        nodes_view(final(ns)@) == toggle_nodes(nodes_view(old(ns)@), id),
    decreases old(ns)@,
{
    let ghost s = nodes_view(ns@);
    let mut i: usize = 0;
    while i < ns.len()
        invariant
            i <= ns.len(),
            s == nodes_view(ns@),
            ns@ == old(ns)@,
            find_nodes(s.subrange(0, i as int), id) is None,
        decreases ns.len() - i,
    {
        if find_in_node(&ns[i], id).is_some() {
            let found = toggle_in_node(&mut ns[i], id);
            proof {
                lemma_first_match(s, i as int, id);
                assert(nodes_view(ns@) =~= s.update(i as int, toggle_node(s[i as int], id)));
            }
            return true;
        }
        proof {
            assert(init(s.subrange(0, i + 1)) =~= s.subrange(0, i as int));
        }
        i += 1;
    }
    proof {
        assert(s.subrange(0, i as int) =~= s);
        lemma_toggle_no_match(s, id);
    }
    false
}

fn starts_with_dot(name: &String) -> (r: bool)
    ensures
        r == is_hidden_name(name@),
{
    let t = name.as_str();
    t.unicode_len() > 0 && t.get_char(0) == '.'
}

fn row_style(n: &Node) -> (r: RowStyle)
    ensures
        r == style_of(n@),
{
    if n.node_type == NodeType::Info || starts_with_dot(&n.display_name) {
        RowStyle::Muted
    } else if n.node_type == NodeType::Directory {
        RowStyle::Directory
    } else {
        RowStyle::File
    }
}

fn row_text(n: &Node) -> (r: String)
    ensures
        r@ == row_of(n@).text,
{
    let mut text = String::new();
    let mut k: u32 = 0;
    while k < n.layer
        invariant
            k <= n.layer,
            text@ == indent(k as nat),
        decreases n.layer - k,
    {
        text.append("   ");
        proof {
            reveal_strlit("   ");
            assert("   "@ =~= indent_unit());
        }
        k += 1;
    }
    match n.expanded {
        Some(true) => {
            text.append("\u{25bc} ");
            proof {
                reveal_strlit("\u{25bc} ");
                assert("\u{25bc} "@ =~= glyph(Some(true)));
            }
        },
        Some(false) => {
            text.append("\u{25b6} ");
            proof {
                reveal_strlit("\u{25b6} ");
                assert("\u{25b6} "@ =~= glyph(Some(false)));
            }
        },
        None => {
            assert(text@ + glyph(None) =~= text@);
        },
    }
    text.append(n.display_name.as_str());
    text
}

fn row_for(n: &Node) -> (r: Row)
    ensures
        r@ == row_of(n@),
{
    Row { text: row_text(n), id: n.id, style: row_style(n) }
}

fn flatten_node_into(n: &Node, out: &mut Vec<Row>)
    ensures
        rows_view(final(out)@) == rows_view(old(out)@) + flatten_node(n@),
    decreases n,
{
    let ghost start = rows_view(out@);
    out.push(row_for(n));
    assert(rows_view(out@) =~= start + seq![row_of(n@)]);
    if n.expanded == Some(true) {
        if let Some(c) = &n.children {
            flatten_into(c, out);
            assert(rows_view(out@) =~= start + flatten_node(n@));
            return;
        }
    }
    assert(rows_view(out@) =~= start + flatten_node(n@));
}

fn flatten_into(ns: &Vec<Node>, out: &mut Vec<Row>)
    ensures
        rows_view(final(out)@) == rows_view(old(out)@) + flatten_nodes(nodes_view(ns@)),
    decreases ns,
{
    let ghost start = rows_view(out@);
    let ghost s = nodes_view(ns@);
    let mut i: usize = 0;
    while i < ns.len()
        invariant
            i <= ns.len(),
            s == nodes_view(ns@),
            rows_view(out@) == start + flatten_nodes(s.subrange(0, i as int)),
        decreases ns.len() - i,
    {
        flatten_node_into(&ns[i], out);
        proof {
            assert(init(s.subrange(0, i + 1)) =~= s.subrange(0, i as int));
            assert(rows_view(out@) =~= start + flatten_nodes(s.subrange(0, i + 1)));
        }
        i += 1;
    }
    assert(s.subrange(0, i as int) =~= s);
}

/// The forest of root nodes that makes up a workspace.
pub struct Nodes {
    pub nodes: Vec<Node>,
}

impl View for Nodes {
    type V = Seq<NodeView>;

    open spec fn view(&self) -> Seq<NodeView> {
        nodes_view(self.nodes@)
    }
}

impl Nodes {
    pub fn new(nodes: Vec<Node>) -> (r: Nodes)
        ensures
            r.nodes == nodes,
    {
        Nodes { nodes }
    }

    /// The first node carrying `id`, searching each root and its descendants
    /// depth first, in order.
    pub fn find_by_id(&self, id: u128) -> (r: Option<&Node>)
        ensures
            match r {
                Some(m) => find_nodes(self@, id) == Some(m@),
                None => find_nodes(self@, id) is None,
            },
    {
        find_in(&self.nodes, id)
    }

    /// Flips the expand state of the first node carrying `id`; nothing changes
    /// when no node carries it or when that node is a leaf.
    pub fn toggle_expand(&mut self, id: u128)
        ensures
            final(self)@ == toggle_nodes(old(self)@, id),
            tree_ordered(old(self)@) ==> tree_ordered(final(self)@),
    {
        toggle_in(&mut self.nodes, id);
        proof {
            if tree_ordered(old(self)@) {
                lemma_toggle_keeps_order(old(self)@, id);
            }
        }
    }

    /// The display rows of the tree: a depth-first, pre-order walk that enters
    /// the children of expanded nodes only.
    pub fn flatten(&self) -> (r: Vec<Row>)
        ensures
            rows_view(r@) == flatten_nodes(self@),
            r@.len() == visible_nodes(self@),
    {
        let mut out: Vec<Row> = Vec::new();
        flatten_into(&self.nodes, &mut out);
        assert(rows_view(out@) =~= flatten_nodes(self@));
        proof {
            lemma_flatten_len(self@);
        }
        out
    }
}

// ----- identity -----

/// The ids carried by `n` and its descendants.
pub open spec fn node_ids(n: NodeView) -> Set<u128>
    decreases n,
{
    match n.children {
        Some(c) => set![n.id].union(forest_ids(c)),
        None => set![n.id],
    }
}

/// The ids carried anywhere in the forest `s`.
pub open spec fn forest_ids(s: Seq<NodeView>) -> Set<u128>
    decreases s,
{
    Set::new(|v: u128| exists|i: int| 0 <= i < s.len() && node_ids(s[i]).contains(v))
}

/// No id occurs twice in `n`.
pub open spec fn ids_unique_node(n: NodeView) -> bool
    decreases n,
{
    match n.children {
        Some(c) => !forest_ids(c).contains(n.id) && ids_unique(c),
        None => true,
    }
}

/// No id occurs twice in the forest `s`.
pub open spec fn ids_unique(s: Seq<NodeView>) -> bool
    decreases s,
{
    &&& forall|i: int| 0 <= i < s.len() ==> ids_unique_node(#[trigger] s[i])
    &&& forall|i: int, j: int|
        0 <= i < j < s.len() ==> node_ids(#[trigger] s[i]).disjoint(node_ids(#[trigger] s[j]))
}

proof fn lemma_forest_ids_insert(s: Seq<NodeView>, p: int, x: NodeView)
    requires
        0 <= p <= s.len(),
    ensures
        forest_ids(s.insert(p, x)) == forest_ids(s).union(node_ids(x)),
{
    let t = s.insert(p, x);
    assert forall|v: u128| forest_ids(t).contains(v) == forest_ids(s).union(node_ids(x)).contains(v) by {
        if forest_ids(t).contains(v) {
            let i = choose|i: int| 0 <= i < t.len() && node_ids(t[i]).contains(v);
            if i < p {
                assert(t[i] == s[i]);
            } else if i > p {
                assert(t[i] == s[i - 1]);
            }
        }
        if forest_ids(s).contains(v) {
            let i = choose|i: int| 0 <= i < s.len() && node_ids(s[i]).contains(v);
            if i < p {
                assert(t[i] == s[i]);
            } else {
                assert(t[i + 1] == s[i]);
            }
        }
        if node_ids(x).contains(v) {
            assert(t[p] == x);
        }
    }
    assert(forest_ids(t) =~= forest_ids(s).union(node_ids(x)));
}

proof fn lemma_forest_ids_push(s: Seq<NodeView>, x: NodeView)
    ensures
        forest_ids(s.push(x)) == forest_ids(s).union(node_ids(x)),
{
    lemma_forest_ids_insert(s, s.len() as int, x);
    assert(s.insert(s.len() as int, x) =~= s.push(x));
}

proof fn lemma_node_ids_finite(n: NodeView)
    ensures
        node_ids(n).finite(),
    decreases n,
{
    if let Some(c) = n.children {
        lemma_forest_ids_finite(c);
    }
}

proof fn lemma_forest_ids_finite(s: Seq<NodeView>)
    ensures
        forest_ids(s).finite(),
    decreases s,
{
    if s.len() == 0 {
        assert(forest_ids(s) =~= Set::<u128>::empty());
    } else {
        let p = init(s);
        lemma_forest_ids_finite(p);
        lemma_node_ids_finite(s.last());
        lemma_forest_ids_push(p, s.last());
        assert(p.push(s.last()) =~= s);
    }
}

/// A finite set holding every value below `n` has at least `n` elements.
proof fn lemma_pigeonhole(a: Set<u128>, n: nat)
    requires
        a.finite(),
        n <= u128::MAX + 1,
        forall|k: u128| (k as nat) < n ==> a.contains(k),
    ensures
        a.len() >= n,
    decreases n,
{
    if n > 0 {
        let x = (n - 1) as u128;
        assert(a.contains(x));
        let b = a.remove(x);
        assert forall|k: u128| (k as nat) < n - 1 implies b.contains(k) by {
            assert(a.contains(k));
        }
        lemma_pigeonhole(b, (n - 1) as nat);
    }
}

/// An id that is not in `used`, recorded there: a fresh random one, or on a
/// clash the smallest value not in use.
fn unique_id(used: &mut HashSet<u128>) -> (r: u128)
    requires
        old(used)@.finite(),
    ensures
        !old(used)@.contains(r),
        final(used)@ == old(used)@.insert(r),
        final(used)@.finite(),
{
    broadcast use vstd::std_specs::hash::group_hash_axioms;

    let id = fresh_id();
    if used.insert(id) {
        return id;
    }
    assert(used@ =~= old(used)@);
    let n = used.len();
    let mut c: u128 = 0;
    loop
        invariant
            used@ == old(used)@,
            used@.finite(),
            n == used@.len(),
            c <= n,
            forall|k: u128| k < c ==> used@.contains(k),
        decreases n - c,
    {
        if used.insert(c) {
            return c;
        }
        proof {
            assert(used@ =~= old(used)@);
            assert forall|k: u128| (k as nat) < c + 1 implies used@.contains(k) by {}
            lemma_pigeonhole(used@, (c + 1) as nat);
        }
        c += 1;
    }
}

fn collect_node_ids(n: &Node, used: &mut HashSet<u128>)
    requires
        old(used)@.finite(),
    ensures
        final(used)@ == old(used)@.union(node_ids(n@)),
        final(used)@.finite(),
    decreases n,
{
    broadcast use vstd::std_specs::hash::group_hash_axioms;

    used.insert(n.id);
    match &n.children {
        Some(c) => {
            collect_ids(c, used);
        },
        None => {},
    }
    assert(used@ =~= old(used)@.union(node_ids(n@)));
}

fn collect_ids(ns: &Vec<Node>, used: &mut HashSet<u128>)
    requires
        old(used)@.finite(),
    ensures
        final(used)@ == old(used)@.union(forest_ids(nodes_view(ns@))),
        final(used)@.finite(),
    decreases ns,
{
    let ghost s = nodes_view(ns@);
    let ghost start = used@;
    let mut i: usize = 0;
    assert(forest_ids(s.subrange(0, 0)) =~= Set::<u128>::empty());
    while i < ns.len()
        invariant
            i <= ns.len(),
            s == nodes_view(ns@),
            used@ == start.union(forest_ids(s.subrange(0, i as int))),
            used@.finite(),
        decreases ns.len() - i,
    {
        collect_node_ids(&ns[i], used);
        proof {
            lemma_forest_ids_push(s.subrange(0, i as int), s[i as int]);
            assert(s.subrange(0, i as int).push(s[i as int]) =~= s.subrange(0, i + 1));
            assert(used@ =~= start.union(forest_ids(s.subrange(0, i + 1))));
        }
        i += 1;
    }
    assert(s.subrange(0, i as int) =~= s);
}

// ----- ordering policy -----

/// Lexicographic order of two names, character by character.
pub open spec fn name_cmp(a: Seq<char>, b: Seq<char>) -> Ordering
    decreases a.len(),
{
    if a.len() == 0 {
        if b.len() == 0 {
            Ordering::Equal
        } else {
            Ordering::Less
        }
    } else if b.len() == 0 {
        Ordering::Greater
    } else if (a[0] as u32) < (b[0] as u32) {
        Ordering::Less
    } else if (a[0] as u32) > (b[0] as u32) {
        Ordering::Greater
    } else {
        name_cmp(a.drop_first(), b.drop_first())
    }
}

/// Directories first, then files, then placeholders; by name within a kind.
pub open spec fn node_cmp(a: NodeView, b: NodeView) -> Ordering {
    if kind_rank(a.kind) < kind_rank(b.kind) {
        Ordering::Less
    } else if kind_rank(a.kind) > kind_rank(b.kind) {
        Ordering::Greater
    } else {
        name_cmp(a.name, b.name)
    }
}

pub open spec fn node_le(a: NodeView, b: NodeView) -> bool {
    node_cmp(a, b) != Ordering::Greater
}

proof fn lemma_name_cmp_flip(a: Seq<char>, b: Seq<char>)
    ensures
        (name_cmp(a, b) == Ordering::Greater) == (name_cmp(b, a) == Ordering::Less),
    decreases a.len(),
{
    if a.len() > 0 && b.len() > 0 && a[0] as u32 == b[0] as u32 {
        lemma_name_cmp_flip(a.drop_first(), b.drop_first());
    }
}

proof fn lemma_name_cmp_trans(a: Seq<char>, b: Seq<char>, c: Seq<char>)
    requires
        name_cmp(a, b) != Ordering::Greater,
        name_cmp(b, c) != Ordering::Greater,
    ensures
        name_cmp(a, c) != Ordering::Greater,
    decreases a.len(),
{
    if a.len() > 0 && b.len() > 0 && c.len() > 0 && a[0] as u32 == b[0] as u32 && b[0] as u32
        == c[0] as u32 {
        lemma_name_cmp_trans(a.drop_first(), b.drop_first(), c.drop_first());
    }
}

proof fn lemma_name_cmp_refl(a: Seq<char>)
    ensures
        name_cmp(a, a) == Ordering::Equal,
    decreases a.len(),
{
    if a.len() > 0 {
        lemma_name_cmp_refl(a.drop_first());
    }
}

proof fn lemma_node_le_refl(a: NodeView)
    ensures
        node_le(a, a),
{
    lemma_name_cmp_refl(a.name);
}

proof fn lemma_node_le_total(a: NodeView, b: NodeView)
    ensures
        node_le(a, b) || node_le(b, a),
        !node_le(a, b) ==> node_le(b, a),
{
    lemma_name_cmp_flip(a.name, b.name);
}

proof fn lemma_node_le_trans(a: NodeView, b: NodeView, c: NodeView)
    requires
        node_le(a, b),
        node_le(b, c),
    ensures
        node_le(a, c),
{
    if kind_rank(a.kind) == kind_rank(b.kind) && kind_rank(b.kind) == kind_rank(c.kind) {
        lemma_name_cmp_trans(a.name, b.name, c.name);
    }
}

/// Each element is in order with every later one.
pub open spec fn sorted(s: Seq<NodeView>) -> bool {
    forall|i: int, j: int| 0 <= i < j < s.len() ==> node_le(#[trigger] s[i], #[trigger] s[j])
}

/// Siblings are in order at every level of the forest.
pub open spec fn tree_ordered(s: Seq<NodeView>) -> bool
    decreases s,
{
    &&& sorted(s)
    &&& forall|i: int|
        0 <= i < s.len() ==> match (#[trigger] s[i]).children {
            Some(c) => tree_ordered(c),
            None => true,
        }
}

/// From `i` on, the first position whose node sorts strictly after `x`.
pub open spec fn insert_pos_from(s: Seq<NodeView>, x: NodeView, i: int) -> int
    decreases s.len() - i,
{
    if i >= s.len() {
        s.len() as int
    } else if node_cmp(s[i], x) == Ordering::Greater {
        i
    } else {
        insert_pos_from(s, x, i + 1)
    }
}

/// `x` placed after every node of `s` that does not sort after it.
pub open spec fn insert_sorted(s: Seq<NodeView>, x: NodeView) -> Seq<NodeView> {
    s.insert(insert_pos_from(s, x, 0), x)
}

/// Stable insertion sort by the ordering policy.
pub open spec fn sort_nodes(s: Seq<NodeView>) -> Seq<NodeView>
    decreases s.len(),
{
    if s.len() == 0 {
        s
    } else {
        insert_sorted(sort_nodes(init(s)), s.last())
    }
}

proof fn lemma_insert_pos_from(s: Seq<NodeView>, x: NodeView, i: int)
    requires
        0 <= i <= s.len(),
        forall|j: int| 0 <= j < i ==> node_le(#[trigger] s[j], x),
    ensures
        i <= insert_pos_from(s, x, i) <= s.len(),
        forall|j: int| 0 <= j < insert_pos_from(s, x, i) ==> node_le(#[trigger] s[j], x),
        insert_pos_from(s, x, i) < s.len() ==> !node_le(s[insert_pos_from(s, x, i)], x),
    decreases s.len() - i,
{
    if i < s.len() && node_cmp(s[i], x) != Ordering::Greater {
        lemma_insert_pos_from(s, x, i + 1);
    }
}

proof fn lemma_insert_sorted(s: Seq<NodeView>, x: NodeView)
    requires
        sorted(s),
    ensures
        sorted(insert_sorted(s, x)),
        insert_sorted(s, x).len() == s.len() + 1,
        forall|k: int|
            0 <= k < s.len() + 1 ==> #[trigger] insert_sorted(s, x)[k] == x || s.contains(
                insert_sorted(s, x)[k],
            ),
{
    lemma_insert_pos_from(s, x, 0);
    let p = insert_pos_from(s, x, 0);
    let t = insert_sorted(s, x);
    assert forall|i: int, j: int| 0 <= i < j < t.len() implies node_le(#[trigger] t[i], #[trigger] t[j]) by {
        if j < p {
        } else if j == p {
        } else if i < p {
            assert(t[j] == s[j - 1]);
            lemma_node_le_total(s[p], x);
            lemma_node_le_refl(s[p]);
            lemma_node_le_trans(t[i], x, s[p]);
            lemma_node_le_trans(t[i], s[p], t[j]);
        } else if i == p {
            assert(t[j] == s[j - 1]);
            lemma_node_le_total(s[p], x);
            lemma_node_le_refl(s[p]);
            lemma_node_le_trans(x, s[p], t[j]);
        } else {
        }
    }
    assert forall|k: int| 0 <= k < s.len() + 1 implies #[trigger] t[k] == x || s.contains(t[k]) by {
        if k < p {
            assert(t[k] == s[k]);
        } else if k > p {
            assert(t[k] == s[k - 1]);
        }
    }
}

proof fn lemma_sort_nodes(s: Seq<NodeView>)
    ensures
        sorted(sort_nodes(s)),
        sort_nodes(s).len() == s.len(),
        forall|k: int| 0 <= k < s.len() ==> s.contains(#[trigger] sort_nodes(s)[k]),
    decreases s.len(),
{
    if s.len() > 0 {
        let p = init(s);
        lemma_sort_nodes(p);
        lemma_insert_sorted(sort_nodes(p), s.last());
        let t = sort_nodes(s);
        assert forall|k: int| 0 <= k < s.len() implies s.contains(#[trigger] t[k]) by {
            if t[k] == s.last() {
                assert(s[s.len() - 1] == t[k]);
            } else {
                let j = choose|j: int| 0 <= j < p.len() && sort_nodes(p)[j] == t[k];
                let m = choose|m: int| 0 <= m < p.len() && p[m] == sort_nodes(p)[j];
                assert(s[m] == t[k]);
            }
        }
    }
}

/// Siblings ordered by the policy never have a file before a directory, nor a
/// placeholder before anything else.
pub proof fn lemma_ordered_siblings(s: Seq<NodeView>, i: int, j: int)
    requires
        sorted(s),
        0 <= i < j < s.len(),
    ensures
        !(s[i].kind == NodeType::File && s[j].kind == NodeType::Directory),
        s[i].kind == NodeType::Info ==> s[j].kind == NodeType::Info,
{
    assert(node_le(s[i], s[j]));
}

// ----- building from a listing -----

/// Abstract value of a listed filesystem entry.
pub struct EntryView {
    pub name: Seq<char>,
    pub path: Seq<char>,
    pub children: Option<Seq<EntryView>>,
}

/// A filesystem entry as listed by the caller: its file name, its full path,
/// and for a directory the entries it holds.
pub struct Entry {
    pub name: String,
    pub path: String,
    pub children: Option<Vec<Entry>>,
}

pub open spec fn entry_view(e: Entry) -> EntryView
    decreases e,
{
    EntryView {
        name: e.name@,
        path: e.path@,
        children: match e.children {
            Some(c) => Some(entries_view(c@)),
            None => None,
        },
    }
}

pub open spec fn entries_view(s: Seq<Entry>) -> Seq<EntryView>
    decreases s,
{
    Seq::new(s.len(), |i: int| if 0 <= i < s.len() { entry_view(s[i]) } else { arbitrary() })
}

impl View for Entry {
    type V = EntryView;

    open spec fn view(&self) -> EntryView {
        entry_view(*self)
    }
}

/// The depth of a child; it stays at the largest value once there.
pub open spec fn child_depth(d: u32) -> u32 {
    if d < u32::MAX {
        (d + 1) as u32
    } else {
        d
    }
}

/// The node built for a listed entry at `depth`: a directory starts
/// collapsed, with its entries below it; anything else is a file. Its id is
/// left at zero here: the built node carries a fresh one.
pub open spec fn built_node(e: EntryView, depth: u32) -> NodeView
    decreases e, 0nat,
{
    NodeView {
        name: e.name,
        path: e.path,
        children: match e.children {
            Some(c) => Some(built_forest(c, child_depth(depth))),
            None => None,
        },
        expanded: if e.children is Some {
            Some(false)
        } else {
            None
        },
        id: 0,
        depth,
        kind: if e.children is Some {
            NodeType::Directory
        } else {
            NodeType::File
        },
    }
}

/// The nodes built for a listing, in the listing's order.
pub open spec fn built_unsorted(es: Seq<EntryView>, depth: u32) -> Seq<NodeView>
    decreases es, 0nat,
{
    Seq::new(
        es.len(),
        |i: int|
            if 0 <= i < es.len() {
                built_node(es[i], depth)
            } else {
                arbitrary()
            },
    )
}

/// The nodes built for a listing, sorted by the ordering policy.
pub open spec fn built_forest(es: Seq<EntryView>, depth: u32) -> Seq<NodeView>
    decreases es, 1nat,
{
    sort_nodes(built_unsorted(es, depth))
}

/// Two nodes that agree in everything but their ids, all the way down.
pub open spec fn same_but_id(a: NodeView, b: NodeView) -> bool
    decreases a,
{
    &&& a.name == b.name
    &&& a.path == b.path
    &&& a.expanded == b.expanded
    &&& a.depth == b.depth
    &&& a.kind == b.kind
    &&& match (a.children, b.children) {
        (Some(x), Some(y)) => all_same_but_id(x, y),
        (None, None) => true,
        _ => false,
    }
}

pub open spec fn all_same_but_id(a: Seq<NodeView>, b: Seq<NodeView>) -> bool
    decreases a,
{
    &&& a.len() == b.len()
    &&& forall|i: int| 0 <= i < a.len() ==> same_but_id(#[trigger] a[i], b[i])
}

/// Relies on uuid::Uuid::new_v4 for a random identifier, taken as its
/// 128-bit value. Nothing is promised of the value.
#[verifier::external_body]
fn fresh_id() -> u128 {
    uuid::Uuid::new_v4().as_u128()
}

fn compare_names(a: &String, b: &String) -> (r: Ordering)
    ensures
        r == name_cmp(a@, b@),
{
    let sa = a.as_str();
    let sb = b.as_str();
    let la = sa.unicode_len();
    let lb = sb.unicode_len();
    let mut i: usize = 0;
    assert(a@.skip(0) =~= a@);
    assert(b@.skip(0) =~= b@);
    while i < la && i < lb
        invariant
            i <= la,
            i <= lb,
            la == a@.len(),
            lb == b@.len(),
            sa@ == a@,
            sb@ == b@,
            name_cmp(a@, b@) == name_cmp(a@.skip(i as int), b@.skip(i as int)),
        decreases la - i,
    {
        let ca = sa.get_char(i);
        let cb = sb.get_char(i);
        if (ca as u32) < (cb as u32) {
            return Ordering::Less;
        }
        if (ca as u32) > (cb as u32) {
            return Ordering::Greater;
        }
        assert(a@.skip(i as int).drop_first() =~= a@.skip(i + 1));
        assert(b@.skip(i as int).drop_first() =~= b@.skip(i + 1));
        i += 1;
    }
    if la == lb {
        Ordering::Equal
    } else if i == la {
        Ordering::Less
    } else {
        Ordering::Greater
    }
}

fn sorts_after(a: &Node, b: &Node) -> (r: bool)
    ensures
        r == (node_cmp(a@, b@) == Ordering::Greater),
{
    match a.cmp(b) {
        Ordering::Greater => true,
        _ => false,
    }
}

impl Node {
    /// A node with a fresh random id.
    pub fn new(
        display_name: String,
        value: String,
        children: Option<Vec<Node>>,
        expanded: Option<bool>,
        layer: u32,
        node_type: NodeType,
    ) -> (r: Node)
        ensures
            r.display_name == display_name,
            r.value == value,
            r.children == children,
            r.expanded == expanded,
            r.layer == layer,
            r.node_type == node_type,
    {
        Node { display_name, value, children, expanded, id: fresh_id(), layer, node_type }
    }

    /// The ordering policy: directories first, then files, then
    /// placeholders; by name within a kind.
    pub fn cmp(&self, other: &Self) -> (r: Ordering)
        ensures
            r == node_cmp(self@, other@),
    {
        let a = self.node_type.rank();
        let b = other.node_type.rank();
        if a < b {
            Ordering::Less
        } else if a > b {
            Ordering::Greater
        } else {
            compare_names(&self.display_name, &other.display_name)
        }
    }
}

fn build_node(e: &Entry, depth: u32, used: &mut HashSet<u128>) -> (r: Node)
    requires
        old(used)@.finite(),
    ensures
        same_but_id(r@, built_node(e@, depth)),
        ids_unique_node(r@),
        old(used)@.disjoint(node_ids(r@)),
        final(used)@ == old(used)@.union(node_ids(r@)),
        final(used)@.finite(),
    decreases e,
{
    let id = unique_id(used);
    match &e.children {
        Some(c) => {
            let next = if depth < u32::MAX {
                depth + 1
            } else {
                depth
            };
            let kids = build_forest(c, next, used);
            let r = Node {
                display_name: e.name.clone(),
                value: e.path.clone(),
                children: Some(kids),
                expanded: Some(false),
                id,
                layer: depth,
                node_type: NodeType::Directory,
            };
            assert(node_ids(r@) =~= set![id].union(forest_ids(nodes_view(kids@))));
            assert(used@ =~= old(used)@.union(node_ids(r@)));
            r
        },
        None => {
            let r = Node {
                display_name: e.name.clone(),
                value: e.path.clone(),
                children: None,
                expanded: None,
                id,
                layer: depth,
                node_type: NodeType::File,
            };
            assert(used@ =~= old(used)@.union(node_ids(r@)));
            r
        },
    }
}

fn build_forest(es: &Vec<Entry>, depth: u32, used: &mut HashSet<u128>) -> (r: Vec<Node>)
    requires
        old(used)@.finite(),
    ensures
        all_same_but_id(nodes_view(r@), built_forest(entries_view(es@), depth)),
        ids_unique(nodes_view(r@)),
        old(used)@.disjoint(forest_ids(nodes_view(r@))),
        final(used)@ == old(used)@.union(forest_ids(nodes_view(r@))),
        final(used)@.finite(),
    decreases es,
{
    let ghost u = built_unsorted(entries_view(es@), depth);
    let ghost start = used@;
    let mut out: Vec<Node> = Vec::new();
    let mut i: usize = 0;
    assert(forest_ids(nodes_view(out@)) =~= Set::<u128>::empty());
    while i < es.len()
        invariant
            i <= es.len(),
            u == built_unsorted(entries_view(es@), depth),
            all_same_but_id(nodes_view(out@), sort_nodes(u.subrange(0, i as int))),
            ids_unique(nodes_view(out@)),
            start.disjoint(forest_ids(nodes_view(out@))),
            used@ == start.union(forest_ids(nodes_view(out@))),
            used@.finite(),
        decreases es.len() - i,
    {
        let ghost used_before = used@;
        let x = build_node(&es[i], depth, used);
        let ghost t = sort_nodes(u.subrange(0, i as int));
        let ghost y = u[i as int];
        let mut p: usize = 0;
        loop
            invariant
                p <= out.len(),
                all_same_but_id(nodes_view(out@), t),
                same_but_id(x@, y),
                insert_pos_from(t, y, 0) == insert_pos_from(t, y, p as int),
            ensures
                p <= out.len(),
                p == out.len() || node_cmp(t[p as int], y) == Ordering::Greater,
            decreases out.len() - p,
        {
            if p == out.len() {
                break;
            }
            assert(same_but_id(nodes_view(out@)[p as int], t[p as int]));
            if sorts_after(&out[p], &x) {
                break;
            }
            p += 1;
        }
        let ghost before = nodes_view(out@);
        assert(insert_pos_from(t, y, p as int) == p);
        out.insert(p, x);
        proof {
            let w = nodes_view(out@);
            assert(w =~= before.insert(p as int, x@));
            lemma_forest_ids_insert(before, p as int, x@);
            assert forall|k: int| 0 <= k < before.len() implies node_ids(
                #[trigger] before[k],
            ).subset_of(forest_ids(before)) by {
                assert forall|v: u128| node_ids(before[k]).contains(v) implies forest_ids(
                    before,
                ).contains(v) by {}
            }
            assert forall|k: int| 0 <= k < w.len() implies ids_unique_node(#[trigger] w[k]) by {
                if k < p {
                    assert(w[k] == before[k]);
                } else if k > p {
                    assert(w[k] == before[k - 1]);
                }
            }
            assert forall|a: int, b: int| 0 <= a < b < w.len() implies node_ids(
                #[trigger] w[a],
            ).disjoint(node_ids(#[trigger] w[b])) by {
                if b < p {
                    assert(w[a] == before[a] && w[b] == before[b]);
                } else if b == p {
                    assert(w[a] == before[a]);
                } else if a < p {
                    assert(w[a] == before[a] && w[b] == before[b - 1]);
                } else if a == p {
                    assert(w[b] == before[b - 1]);
                } else {
                    assert(w[a] == before[a - 1] && w[b] == before[b - 1]);
                }
            }
            assert(used@ =~= start.union(forest_ids(w)));
        }
        proof {
            let v = u.subrange(0, i + 1);
            assert(init(v) =~= u.subrange(0, i as int));
            assert(v.last() == y);
            let w = nodes_view(out@);
            let z = insert_sorted(t, y);
            assert forall|k: int| 0 <= k < w.len() implies same_but_id(#[trigger] w[k], z[k]) by {
                if k < p {
                    assert(w[k] == before[k]);
                } else if k == p {
                } else {
                    assert(w[k] == before[k - 1]);
                }
            }
        }
        i += 1;
    }
    assert(u.subrange(0, i as int) =~= u);
    out
}

/// Every tree built from a listing has its siblings in order at every level.
pub proof fn lemma_built_forest_ordered(es: Seq<EntryView>, depth: u32)
    ensures
        tree_ordered(built_forest(es, depth)),
    decreases es,
{
    let u = built_unsorted(es, depth);
    lemma_sort_nodes(u);
    let t = built_forest(es, depth);
    assert forall|k: int| 0 <= k < t.len() implies match (#[trigger] t[k]).children {
        Some(c) => tree_ordered(c),
        None => true,
    } by {
        assert(u.contains(t[k]));
        let m = choose|m: int| 0 <= m < u.len() && u[m] == t[k];
        assert(u[m] == built_node(es[m], depth));
        if let Some(c) = es[m].children {
            lemma_built_forest_ordered(c, child_depth(depth));
        }
    }
}

/// Order depends on names and kinds alone, so it survives a change of ids.
pub proof fn lemma_ordered_same_but_id(a: Seq<NodeView>, b: Seq<NodeView>)
    requires
        all_same_but_id(a, b),
        tree_ordered(b),
    ensures
        tree_ordered(a),
    decreases a,
{
    assert forall|i: int, j: int| 0 <= i < j < a.len() implies node_le(#[trigger] a[i], #[trigger] a[j]) by {
        assert(same_but_id(a[i], b[i]));
        assert(same_but_id(a[j], b[j]));
        assert(node_le(b[i], b[j]));
    }
    assert forall|k: int| 0 <= k < a.len() implies match (#[trigger] a[k]).children {
        Some(c) => tree_ordered(c),
        None => true,
    } by {
        assert(same_but_id(a[k], b[k]));
        if let Some(x) = a[k].children {
            let y = b[k].children.unwrap();
            assert(tree_ordered(y));
            lemma_ordered_same_but_id(x, y);
        }
    }
}

/// Two nodes with the same names and kinds, all the way down.
pub open spec fn same_keys(a: NodeView, b: NodeView) -> bool
    decreases a,
{
    &&& a.name == b.name
    &&& a.kind == b.kind
    &&& match (a.children, b.children) {
        (Some(x), Some(y)) => all_same_keys(x, y),
        (None, None) => true,
        _ => false,
    }
}

pub open spec fn all_same_keys(a: Seq<NodeView>, b: Seq<NodeView>) -> bool
    decreases a,
{
    &&& a.len() == b.len()
    &&& forall|i: int| 0 <= i < a.len() ==> same_keys(#[trigger] a[i], b[i])
}

proof fn lemma_ordered_same_keys(a: Seq<NodeView>, b: Seq<NodeView>)
    requires
        all_same_keys(a, b),
        tree_ordered(b),
    ensures
        tree_ordered(a),
    decreases a,
{
    assert forall|i: int, j: int| 0 <= i < j < a.len() implies node_le(#[trigger] a[i], #[trigger] a[j]) by {
        assert(same_keys(a[i], b[i]));
        assert(same_keys(a[j], b[j]));
        assert(node_le(b[i], b[j]));
    }
    assert forall|k: int| 0 <= k < a.len() implies match (#[trigger] a[k]).children {
        Some(c) => tree_ordered(c),
        None => true,
    } by {
        assert(same_keys(a[k], b[k]));
        if let Some(x) = a[k].children {
            let y = b[k].children.unwrap();
            assert(tree_ordered(y));
            lemma_ordered_same_keys(x, y);
        }
    }
}

proof fn lemma_same_keys_refl(n: NodeView)
    ensures
        same_keys(n, n),
    decreases n,
{
    if let Some(c) = n.children {
        assert forall|i: int| 0 <= i < c.len() implies same_keys(#[trigger] c[i], c[i]) by {
            lemma_same_keys_refl(c[i]);
        }
    }
}

proof fn lemma_toggle_node_keys(n: NodeView, id: u128)
    ensures
        same_keys(toggle_node(n, id), n),
    decreases n,
{
    if n.id == id {
        lemma_same_keys_refl(n);
    } else if let Some(c) = n.children {
        lemma_toggle_keys(c, id);
    }
}

proof fn lemma_toggle_keys(s: Seq<NodeView>, id: u128)
    ensures
        all_same_keys(toggle_nodes(s, id), s),
    decreases s,
{
    if s.len() > 0 {
        let p = init(s);
        let t = toggle_nodes(s, id);
        lemma_toggle_len(p, id);
        if find_nodes(p, id) is Some {
            lemma_toggle_keys(p, id);
            lemma_same_keys_refl(s.last());
            assert forall|i: int| 0 <= i < t.len() implies same_keys(#[trigger] t[i], s[i]) by {
                if i < p.len() {
                    assert(t[i] == toggle_nodes(p, id)[i]);
                    assert(s[i] == p[i]);
                }
            }
        } else {
            lemma_toggle_node_keys(s.last(), id);
            assert forall|i: int| 0 <= i < t.len() implies same_keys(#[trigger] t[i], s[i]) by {
                if i < p.len() {
                    assert(t[i] == p[i]);
                    lemma_same_keys_refl(p[i]);
                }
            }
        }
    }
}

/// Expanding or collapsing a node keeps siblings in order at every level.
pub proof fn lemma_toggle_keeps_order(s: Seq<NodeView>, id: u128)
    requires
        tree_ordered(s),
    ensures
        tree_ordered(toggle_nodes(s, id)),
{
    lemma_toggle_keys(s, id);
    lemma_ordered_same_keys(toggle_nodes(s, id), s);
}

/// Flattening reads the tree and nothing else: the same tree, with the same
/// expand states, always gives the same rows.
pub proof fn lemma_flatten_deterministic(a: Seq<NodeView>, b: Seq<NodeView>)
    requires
        a == b,
    ensures
        flatten_nodes(a) == flatten_nodes(b),
        flatten_nodes(a).len() == visible_nodes(b),
{
    lemma_flatten_len(b);
}

/// The text of the placeholder shown when no workspace is open.
pub open spec fn empty_workspace_text() -> Seq<char> {
    seq!['E', 'm', 'p', 't', 'y', ' ', 'w', 'o', 'r', 'k', 's', 'p', 'a', 'c', 'e']
}

impl Nodes {
    /// The tree of a listed workspace: one root per listed entry, directories
    /// collapsed, siblings sorted by the ordering policy at every level.
    pub fn build(entries: &Vec<Entry>) -> (r: Nodes)
        ensures
            all_same_but_id(r@, built_forest(entries_view(entries@), 0)),
            tree_ordered(r@),
            ids_unique(r@),
    {
        let mut used: HashSet<u128> = HashSet::new();
        Nodes::build_avoiding(entries, &mut used)
    }

    /// The tree of a listed workspace, with ids that differ from those of
    /// this tree.
    pub fn rebuild(&self, entries: &Vec<Entry>) -> (r: Nodes)
        ensures
            all_same_but_id(r@, built_forest(entries_view(entries@), 0)),
            tree_ordered(r@),
            ids_unique(r@),
            forest_ids(r@).disjoint(forest_ids(self@)),
    {
        let mut used: HashSet<u128> = HashSet::new();
        collect_ids(&self.nodes, &mut used);
        Nodes::build_avoiding(entries, &mut used)
    }

    fn build_avoiding(entries: &Vec<Entry>, used: &mut HashSet<u128>) -> (r: Nodes)
        requires
            old(used)@.finite(),
        ensures
            all_same_but_id(r@, built_forest(entries_view(entries@), 0)),
            tree_ordered(r@),
            ids_unique(r@),
            old(used)@.disjoint(forest_ids(r@)),
    {
        let nodes = build_forest(entries, 0, used);
        proof {
            lemma_built_forest_ordered(entries_view(entries@), 0);
            lemma_ordered_same_but_id(nodes_view(nodes@), built_forest(entries_view(entries@), 0));
        }
        Nodes { nodes }
    }

    /// The tree shown when no workspace is open: a single placeholder root.
    pub fn empty_workspace() -> (r: Nodes)
        ensures
            is_placeholder(r@),
    {
        let mut used: HashSet<u128> = HashSet::new();
        Nodes::placeholder_avoiding(&mut used)
    }

    /// The placeholder tree, with an id that differs from those of this tree.
    pub fn rebuild_empty(&self) -> (r: Nodes)
        ensures
            is_placeholder(r@),
            ids_unique(r@),
            forest_ids(r@).disjoint(forest_ids(self@)),
    {
        let mut used: HashSet<u128> = HashSet::new();
        collect_ids(&self.nodes, &mut used);
        Nodes::placeholder_avoiding(&mut used)
    }

    fn placeholder_avoiding(used: &mut HashSet<u128>) -> (r: Nodes)
        requires
            old(used)@.finite(),
        ensures
            is_placeholder(r@),
            ids_unique(r@),
            old(used)@.disjoint(forest_ids(r@)),
    {
        let id = unique_id(used);
        let node = Node {
            display_name: String::from_str("Empty workspace"),
            value: String::new(),
            children: None,
            expanded: None,
            id,
            layer: 0,
            node_type: NodeType::Info,
        };
        proof {
            reveal_strlit("Empty workspace");
        }
        let mut nodes: Vec<Node> = Vec::new();
        nodes.push(node);
        let r = Nodes { nodes };
        assert(r@[0] == node_view(node));
        assert(r@[0].name =~= empty_workspace_text());
        assert(forest_ids(r@) =~= set![id]) by {
            assert(node_ids(r@[0]) == set![id]);
        }
        r
    }
}

/// The tree shown when no workspace is open.
pub open spec fn is_placeholder(s: Seq<NodeView>) -> bool {
    &&& s.len() == 1
    &&& s[0].name == empty_workspace_text()
    &&& s[0].path.len() == 0
    &&& s[0].children is None
    &&& s[0].expanded is None
    &&& s[0].depth == 0
    &&& s[0].kind == NodeType::Info
}

} // verus!
