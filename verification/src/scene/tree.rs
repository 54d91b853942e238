//! The retained semantic tree and the validated scene that owns focus. A node's geometry is a
//! type parameter: the tree's rules (identity, focusability, structural state, focus ownership)
//! never read it.
use vstd::prelude::*;
use crate::scene::{NodeAction, NodeId, NodeState, Role, SceneError, StateTransition};
use crate::text::{str_eq, string_of};

verus! {

/// A semantic component in the retained tree, with its geometry of type `B`.
#[derive(Debug)]
pub struct Node<B> {
    pub id: NodeId,
    pub role: Role,
    pub accessible_label: String,
    pub state: NodeState,
    pub bounds: B,
    /// Theme-owned style key; never a resolved color or pixel value.
    pub style_token: String,
    /// `Some` makes the node focusable and states what activation means.
    pub action: Option<NodeAction>,
    pub children: Vec<Node<B>>,
}

/// One node of a tree as it appears in the preorder listing: everything but its children,
/// of which only the number is kept. The listing determines the tree.
pub struct NodeEntry<B> {
    pub id: Seq<char>,
    pub role: Role,
    pub label: Seq<char>,
    pub state: NodeState,
    pub bounds: B,
    pub style: Seq<char>,
    pub action: Option<NodeAction>,
    pub arity: nat,
}

/// The structural state of a new node: nothing set.
pub open spec fn rest_state() -> NodeState {
    NodeState { focused: false, disabled: false, selected: false, checked: false, expanded: false }
}

/// A node without its children.
pub open spec fn entry<B>(n: Node<B>) -> NodeEntry<B> {
    NodeEntry {
        id: n.id.view(),
        role: n.role,
        label: n.accessible_label@,
        state: n.state,
        bounds: n.bounds,
        style: n.style_token@,
        action: n.action,
        arity: n.children@.len(),
    }
}

/// The preorder listing of a tree: the node, then each child's listing in order.
pub open spec fn flat<B>(n: Node<B>) -> Seq<NodeEntry<B>>
    decreases n,
{
    seq![entry(n)] + flat_all(n.children@)
}

/// The concatenated preorder listings of a sequence of trees.
pub open spec fn flat_all<B>(s: Seq<Node<B>>) -> Seq<NodeEntry<B>>
    decreases s,
{
    if s.len() == 0 {
        Seq::empty()
    } else {
        flat_all(s.drop_last()) + flat(s.last())
    }
}

/// Whether an entry can take focus: it has an action and is not disabled.
pub open spec fn entry_focusable<B>(e: NodeEntry<B>) -> bool {
    e.action is Some && !e.state.disabled
}

/// An entry with its focus bit set exactly when its identifier is `id`.
pub open spec fn refocused<B>(e: NodeEntry<B>, id: Seq<char>) -> NodeEntry<B> {
    NodeEntry { state: NodeState { focused: e.id == id, ..e.state }, ..e }
}

/// Structural state after a transition.
pub open spec fn transitioned(s: NodeState, t: StateTransition) -> NodeState {
    match t {
        StateTransition::Disabled(v) => NodeState { disabled: v, ..s },
        StateTransition::Selected(v) => NodeState { selected: v, ..s },
        StateTransition::Checked(v) => NodeState { checked: v, ..s },
        StateTransition::Expanded(v) => NodeState { expanded: v, ..s },
    }
}

/// One entry after a tree-wide edit keyed by `id`: with no transition, the focus bit is set
/// exactly on `id`; with one, the entry carrying `id` takes it and the others stay.
pub open spec fn edited<B>(e: NodeEntry<B>, id: Seq<char>, t: Option<StateTransition>) -> NodeEntry<B> {
    match t {
        None => refocused(e, id),
        Some(t) => if e.id == id {
            NodeEntry { state: transitioned(e.state, t), ..e }
        } else {
            e
        },
    }
}

/// A listing after a tree-wide edit.
pub open spec fn edit_all<B>(s: Seq<NodeEntry<B>>, id: Seq<char>, t: Option<StateTransition>) -> Seq<NodeEntry<B>> {
    s.map_values(|e: NodeEntry<B>| edited(e, id, t))
}

/// Appending a tree appends its listing.
proof fn lemma_flat_all_push<B>(s: Seq<Node<B>>, n: Node<B>)
    ensures
        flat_all(s.push(n)) == flat_all(s) + flat(n),
{
    assert(s.push(n).drop_last() =~= s);
}

/// The listing of the first `i + 1` trees extends that of the first `i` by tree `i`.
proof fn lemma_flat_all_take<B>(s: Seq<Node<B>>, i: int)
    requires
        0 <= i < s.len(),
    ensures
        flat_all(s.take(i + 1)) == flat_all(s.take(i)) + flat(s[i]),
{
    assert(s.take(i + 1) =~= s.take(i).push(s[i]));
    lemma_flat_all_push(s.take(i), s[i]);
}

/// Trees whose listings are edited copies of others' list as the edited concatenation.
proof fn lemma_flat_all_edit<B>(a: Seq<Node<B>>, b: Seq<Node<B>>, id: Seq<char>, t: Option<StateTransition>)
    requires
        a.len() == b.len(),
        forall|j: int| 0 <= j < a.len() ==> flat(#[trigger] a[j]) == edit_all(flat(b[j]), id, t),
    ensures
        flat_all(a) == edit_all(flat_all(b), id, t),
    decreases a.len(),
{
    if a.len() > 0 {
        let k = a.len() - 1;
        lemma_flat_all_edit(a.drop_last(), b.drop_last(), id, t);
        assert(flat(a[k]) == edit_all(flat(b[k]), id, t));
    }
    assert(flat_all(a) =~= edit_all(flat_all(b), id, t));
}

/// Applies a tree-wide edit keyed by `id` to every node.
fn edit_tree<B>(node: &mut Node<B>, id: &NodeId, t: Option<StateTransition>)
    ensures
        flat(*final(node)) == edit_all(flat(*old(node)), id.view(), t),
    decreases *old(node),
{
    let hit = str_eq(node.id.as_str(), id.as_str());
    match t {
        None => node.state.focused = hit,
        Some(StateTransition::Disabled(v)) => if hit { node.state.disabled = v },
        Some(StateTransition::Selected(v)) => if hit { node.state.selected = v },
        Some(StateTransition::Checked(v)) => if hit { node.state.checked = v },
        Some(StateTransition::Expanded(v)) => if hit { node.state.expanded = v },
    }
    let n = node.children.len();
    let mut i: usize = 0;
    while i < n
        invariant
            n == node.children@.len(),
            n == old(node).children@.len(),
            i <= n,
            entry(*node) == edited(entry(*old(node)), id.view(), t),
            forall|j: int| 0 <= j < i ==> flat(#[trigger] node.children@[j]) == edit_all(flat(old(node).children@[j]), id.view(), t),
            forall|j: int| i <= j < n ==> #[trigger] node.children@[j] == old(node).children@[j],
        decreases n - i,
    {
        proof {
            assert(decreases_to!(*old(node) => old(node).children));
            assert(decreases_to!(old(node).children => old(node).children[i as int]));
        }
        let ghost before = node.children@;
        edit_tree(&mut node.children[i], id, t);
        assert(node.children@ == before.update(i as int, node.children@[i as int]));
        i += 1;
    }
    proof {
        lemma_flat_all_edit(node.children@, old(node).children@, id.view(), t);
        assert(flat(*node) =~= edit_all(flat(*old(node)), id.view(), t));
    }
}

/// The identifiers of a listing, in order.
pub open spec fn ids_of<B>(s: Seq<NodeEntry<B>>) -> Seq<Seq<char>> {
    s.map_values(|e: NodeEntry<B>| e.id)
}

/// Whether the identifier at position `j` already occurred before it.
pub open spec fn repeats_at(ids: Seq<Seq<char>>, j: int) -> bool {
    exists|i: int| 0 <= i < j && ids[i] == ids[j]
}

/// No identifier occurs twice.
pub open spec fn all_distinct(ids: Seq<Seq<char>>) -> bool {
    forall|i: int, j: int| 0 <= i < j < ids.len() ==> ids[i] != ids[j]
}

/// Whether some entry of the listing carries `id`.
pub open spec fn has_id<B>(s: Seq<NodeEntry<B>>, id: Seq<char>) -> bool {
    exists|k: int| 0 <= k < s.len() && #[trigger] s[k].id == id
}

/// Appends the identifiers of a tree, in preorder.
fn push_ids<'a, B>(node: &'a Node<B>, out: &mut Vec<&'a NodeId>)
    ensures
        final(out)@.map_values(|x: &NodeId| x.view()) == old(out)@.map_values(|x: &NodeId| x.view()) + ids_of(flat(*node)),
    decreases *node,
{
    let ghost start = out@.map_values(|x: &NodeId| x.view());
    out.push(&node.id);
    assert(out@.map_values(|x: &NodeId| x.view()) =~= start + seq![node.id@]);
    let n = node.children.len();
    let mut i: usize = 0;
    while i < n
        invariant
            n == node.children@.len(),
            i <= n,
            out@.map_values(|x: &NodeId| x.view()) == start + seq![node.id@] + ids_of(flat_all(node.children@.take(i as int))),
        decreases n - i,
    {
        proof {
            assert(decreases_to!(*node => node.children));
            assert(decreases_to!(node.children => node.children[i as int]));
            lemma_flat_all_take(node.children@, i as int);
        }
        let ghost mid = out@.map_values(|x: &NodeId| x.view());
        push_ids(&node.children[i], out);
        proof {
            let a = flat_all(node.children@.take(i as int));
            let b = flat(node.children@[i as int]);
            assert(ids_of(a + b) =~= ids_of(a) + ids_of(b));
            assert(out@.map_values(|x: &NodeId| x.view()) =~= start + seq![node.id@] + ids_of(flat_all(node.children@.take(i + 1))));
        }
        i += 1;
    }
    proof {
        assert(node.children@.take(n as int) =~= node.children@);
        assert(ids_of(flat(*node)) =~= seq![node.id@] + ids_of(flat_all(node.children@)));
    }
}

/// Position `j` holds the first identifier that repeats an earlier one.
pub open spec fn first_repeat(ids: Seq<Seq<char>>, j: int) -> bool {
    &&& 0 <= j < ids.len()
    &&& repeats_at(ids, j)
    &&& forall|k: int| 0 <= k < j ==> !#[trigger] repeats_at(ids, k)
}

/// Rejects a tree whose identifiers are not unique, naming the first identifier (in preorder)
/// that repeats an earlier one.
fn validate_ids<B>(root: &Node<B>) -> (r: Result<(), SceneError>)
    ensures
        r is Ok <==> all_distinct(ids_of(flat(*root))),
        r matches Err(e) ==> (e matches SceneError::DuplicateNodeId(x)
            && exists|j: int| first_repeat(ids_of(flat(*root)), j) && ids_of(flat(*root))[j] == x.view()),
{
    let mut v: Vec<&NodeId> = Vec::new();
    push_ids(root, &mut v);
    let ghost ids = ids_of(flat(*root));
    assert(v@.map_values(|x: &NodeId| x.view()) =~= ids);
    let n = v.len();
    let mut j: usize = 0;
    while j < n
        invariant
            n == v@.len(),
            n == ids.len(),
            ids == ids_of(flat(*root)),
            forall|q: int| 0 <= q < n ==> #[trigger] v@[q].view() == ids[q],
            j <= n,
            forall|k: int| 0 <= k < j ==> !#[trigger] repeats_at(ids, k),
        decreases n - j,
    {
        let mut i: usize = 0;
        while i < j
            invariant
                n == v@.len(),
                n == ids.len(),
                ids == ids_of(flat(*root)),
                forall|q: int| 0 <= q < n ==> #[trigger] v@[q].view() == ids[q],
                i <= j < n,
                forall|k: int| 0 <= k < j ==> !#[trigger] repeats_at(ids, k),
                forall|k: int| 0 <= k < i ==> ids[k] != ids[j as int],
            decreases j - i,
        {
            if str_eq(v[i].as_str(), v[j].as_str()) {
                assert(v@[i as int].view() == ids[i as int]);
                assert(v@[j as int].view() == ids[j as int]);
                assert(repeats_at(ids, j as int));
                assert(first_repeat(ids, j as int));
                assert(!all_distinct(ids));
                let x = v[j].copy();
                return Err(SceneError::DuplicateNodeId(x));
            }
            i += 1;
        }
        assert(!repeats_at(ids, j as int));
        j += 1;
    }
    assert forall|a: int, b: int| 0 <= a < b < ids.len() implies ids[a] != ids[b] by {
        assert(!repeats_at(ids, b));
    }
    Ok(())
}

/// Position `k` holds the first entry carrying `id`.
pub open spec fn first_at<B>(s: Seq<NodeEntry<B>>, id: Seq<char>, k: int) -> bool {
    &&& 0 <= k < s.len()
    &&& s[k].id == id
    &&& forall|j: int| 0 <= j < k ==> #[trigger] s[j].id != id
}

/// The listing of two runs of trees is the concatenation of their listings.
proof fn lemma_flat_all_concat<B>(a: Seq<Node<B>>, b: Seq<Node<B>>)
    ensures
        flat_all(a + b) == flat_all(a) + flat_all(b),
    decreases b.len(),
{
    if b.len() == 0 {
        assert(a + b =~= a);
        assert(flat_all(a) + flat_all(b) =~= flat_all(a));
    } else {
        lemma_flat_all_concat(a, b.drop_last());
        assert((a + b).drop_last() =~= a + b.drop_last());
        assert((a + b).last() == b.last());
        assert(flat_all(a + b) =~= flat_all(a) + flat_all(b));
    }
}

/// The first node, in preorder, that carries `id`.
fn find<'a, B>(node: &'a Node<B>, id: &NodeId) -> (r: Option<&'a Node<B>>)
    ensures
        r is Some <==> has_id(flat(*node), id.view()),
        r matches Some(n) ==> n.id.view() == id.view() && exists|k: int| first_at(flat(*node), id.view(), k) && flat(*node)[k] == entry(*n),
    decreases *node,
{
    if str_eq(node.id.as_str(), id.as_str()) {
        assert(flat(*node)[0] == entry(*node));
        assert(first_at(flat(*node), id.view(), 0));
        return Some(node);
    }
    let n = node.children.len();
    let mut i: usize = 0;
    while i < n
        invariant
            n == node.children@.len(),
            i <= n,
            node.id.view() != id.view(),
            !has_id(flat_all(node.children@.take(i as int)), id.view()),
        decreases n - i,
    {
        proof {
            assert(decreases_to!(*node => node.children));
            assert(decreases_to!(node.children => node.children[i as int]));
            lemma_flat_all_take(node.children@, i as int);
        }
        let found = find(&node.children[i], id);
        let ghost before = flat_all(node.children@.take(i as int));
        let ghost here = flat(node.children@[i as int]);
        let ghost after = flat_all(node.children@.skip(i + 1));
        proof {
            lemma_flat_all_concat(node.children@.take(i + 1), node.children@.skip(i + 1));
            assert(node.children@.take(i + 1) + node.children@.skip(i + 1) =~= node.children@);
            assert(flat(*node) =~= seq![entry(*node)] + before + here + after);
        }
        match found {
            Some(m) => {
                proof {
                    let kc = choose|kc: int| first_at(here, id.view(), kc) && here[kc] == entry(*m);
                    let k = 1 + before.len() + kc;
                    assert(flat(*node)[k] == here[kc]);
                    assert forall|j: int| 0 <= j < k implies #[trigger] flat(*node)[j].id != id.view() by {
                        if j == 0 {
                        } else if j < 1 + before.len() {
                            assert(flat(*node)[j] == before[j - 1]);
                        } else {
                            assert(flat(*node)[j] == here[j - 1 - before.len()]);
                        }
                    }
                    assert(first_at(flat(*node), id.view(), k));
                }
                return Some(m);
            },
            None => {
                proof {
                    assert(!has_id(flat_all(node.children@.take(i + 1)), id.view())) by {
                        assert(flat_all(node.children@.take(i + 1)) == before + here);
                        assert forall|k: int| 0 <= k < before.len() + here.len() implies #[trigger] (before + here)[k].id != id.view() by {
                            if k < before.len() {
                                assert((before + here)[k] == before[k]);
                            } else {
                                assert((before + here)[k] == here[k - before.len()]);
                            }
                        }
                    }
                }
            },
        }
        i += 1;
    }
    proof {
        assert(node.children@.take(n as int) =~= node.children@);
        assert forall|k: int| 0 <= k < flat(*node).len() implies #[trigger] flat(*node)[k].id != id.view() by {
            if k > 0 {
                assert(flat(*node)[k] == flat_all(node.children@)[k - 1]);
            }
        }
    }
    None
}

/// The focusable entries of a listing, in order.
pub open spec fn focusables<B>(s: Seq<NodeEntry<B>>) -> Seq<NodeEntry<B>> {
    s.filter(|e: NodeEntry<B>| entry_focusable(e))
}

/// The entries of a run of nodes.
pub open spec fn entries_of<B>(v: Seq<&Node<B>>) -> Seq<NodeEntry<B>> {
    v.map_values(|x: &Node<B>| entry(*x))
}

proof fn lemma_focusables_concat<B>(a: Seq<NodeEntry<B>>, b: Seq<NodeEntry<B>>)
    ensures
        focusables(a + b) == focusables(a) + focusables(b),
{
    Seq::filter_distributes_over_add(a, b, |e: NodeEntry<B>| entry_focusable(e));
}

proof fn lemma_focusables_one<B>(e: NodeEntry<B>)
    ensures
        focusables(seq![e]) == if entry_focusable(e) { seq![e] } else { Seq::<NodeEntry<B>>::empty() },
{
    reveal_with_fuel(Seq::filter, 2);
    assert(seq![e].drop_last() =~= Seq::<NodeEntry<B>>::empty());
    assert(focusables(seq![e]) =~= if entry_focusable(e) { seq![e] } else { Seq::<NodeEntry<B>>::empty() });
}

/// Appends the focusable nodes of a tree, in preorder.
fn collect_focusable<'a, B>(node: &'a Node<B>, out: &mut Vec<&'a Node<B>>)
    ensures
        entries_of(final(out)@) == entries_of(old(out)@) + focusables(flat(*node)),
    decreases *node,
{
    let ghost start = entries_of(out@);
    if node.is_focusable() {
        out.push(node);
    }
    proof {
        lemma_focusables_one(entry(*node));
        assert(entries_of(out@) =~= start + focusables(seq![entry(*node)]));
    }
    let n = node.children.len();
    let mut i: usize = 0;
    while i < n
        invariant
            n == node.children@.len(),
            i <= n,
            entries_of(out@) == start + focusables(seq![entry(*node)]) + focusables(flat_all(node.children@.take(i as int))),
        decreases n - i,
    {
        proof {
            assert(decreases_to!(*node => node.children));
            assert(decreases_to!(node.children => node.children[i as int]));
            lemma_flat_all_take(node.children@, i as int);
        }
        let ghost mid = entries_of(out@);
        collect_focusable(&node.children[i], out);
        proof {
            let a = flat_all(node.children@.take(i as int));
            let b = flat(node.children@[i as int]);
            lemma_focusables_concat(a, b);
            assert(entries_of(out@) =~= start + focusables(seq![entry(*node)]) + focusables(flat_all(node.children@.take(i + 1))));
        }
        i += 1;
    }
    proof {
        assert(node.children@.take(n as int) =~= node.children@);
        lemma_focusables_concat(seq![entry(*node)], flat_all(node.children@));
        assert(entries_of(out@) =~= start + focusables(flat(*node)));
    }
}

impl<B> Node<B> {
    /// A leaf with default state and no action.
    pub fn new(id: NodeId, role: Role, accessible_label: &str, bounds: B, style_token: &str) -> (r:
        Self)
        ensures
            r.id == id,
            r.role == role,
            r.accessible_label@ == accessible_label@,
            r.state == rest_state(),
            r.bounds == bounds,
            r.style_token@ == style_token@,
            r.action is None,
            r.children@.len() == 0,
    {
        Node {
            id,
            role,
            accessible_label: string_of(accessible_label),
            state: NodeState { focused: false, disabled: false, selected: false, checked: false, expanded: false },
            bounds,
            style_token: string_of(style_token),
            action: None,
            children: Vec::new(),
        }
    }

    /// The node with an action, which makes it focusable unless disabled.
    pub fn with_action(self, action: NodeAction) -> (r: Self)
        ensures
            entry(r) == (NodeEntry { action: Some(action), ..entry(self) }),
            r.children == self.children,
    {
        let mut node = self;
        node.action = Some(action);
        node
    }

    /// The node with the given children, replacing any it had.
    pub fn with_children(self, children: Vec<Node<B>>) -> (r: Self)
        ensures
            entry(r) == (NodeEntry { arity: children@.len(), ..entry(self) }),
            r.children == children,
    {
        let mut node = self;
        node.children = children;
        node
    }

    /// Whether the node can take focus: it has an action and is not disabled.
    pub fn is_focusable(&self) -> (r: bool)
        ensures
            r == entry_focusable(entry(*self)),
    {
        self.action.is_some() && !self.state.disabled
    }
}


/// Whether the entry carrying `id` can take focus.
pub open spec fn focusable_id<B>(s: Seq<NodeEntry<B>>, id: Seq<char>) -> bool {
    exists|k: int| 0 <= k < s.len() && #[trigger] s[k].id == id && entry_focusable(s[k])
}

/// Edits never change identifiers.
proof fn lemma_edit_keeps_ids<B>(s: Seq<NodeEntry<B>>, id: Seq<char>, t: Option<StateTransition>)
    ensures
        ids_of(edit_all(s, id, t)) == ids_of(s),
        edit_all(s, id, t).len() == s.len(),
        forall|k: int| 0 <= k < s.len() ==> #[trigger] edit_all(s, id, t)[k] == edited(s[k], id, t),
{
    assert(ids_of(edit_all(s, id, t)) =~= ids_of(s));
}

/// A validated scene: unique identifiers, a declared default-focus anchor, and exactly one
/// focused node, which the scene alone moves.
#[derive(Debug)]
pub struct Scene<B> {
    root: Node<B>,
    default_focus: NodeId,
    focused: NodeId,
}

impl<B> Scene<B> {
    /// The preorder listing of the scene's tree.
    pub closed spec fn listing(&self) -> Seq<NodeEntry<B>> {
        flat(self.root)
    }

    /// The declared default-focus anchor.
    pub closed spec fn default_id(&self) -> Seq<char> {
        self.default_focus.view()
    }

    /// The focused node's identifier.
    pub closed spec fn focused_id(&self) -> Seq<char> {
        self.focused.view()
    }

    /// What a scene shows an observer: its listing and both anchors.
    pub open spec fn snapshot(&self) -> (Seq<NodeEntry<B>>, Seq<char>, Seq<char>) {
        (self.listing(), self.default_id(), self.focused_id())
    }

    /// Identifiers are unique, both anchors name nodes of the tree, and a node's focus bit is
    /// set exactly when it is the focused node.
    pub open spec fn wf(&self) -> bool {
        &&& all_distinct(ids_of(self.listing()))
        &&& has_id(self.listing(), self.default_id())
        &&& has_id(self.listing(), self.focused_id())
        &&& forall|k: int| 0 <= k < self.listing().len() ==>
                (#[trigger] self.listing()[k]).state.focused == (self.listing()[k].id == self.focused_id())
    }

    /// Validates identifier uniqueness and focuses the declared default anchor.
    pub fn new(root: Node<B>, default_focus: NodeId) -> (r: Result<Scene<B>, SceneError>)
        ensures
            !all_distinct(ids_of(flat(root))) ==> (r matches Err(SceneError::DuplicateNodeId(x))
                && exists|j: int| first_repeat(ids_of(flat(root)), j) && ids_of(flat(root))[j] == x.view()),
            all_distinct(ids_of(flat(root))) && !has_id(flat(root), default_focus.view()) ==>
                (r matches Err(SceneError::DefaultFocusMissing(x)) && x.view() == default_focus.view()),
            all_distinct(ids_of(flat(root))) && has_id(flat(root), default_focus.view())
                && !focusable_id(flat(root), default_focus.view()) ==>
                (r matches Err(SceneError::DefaultFocusNotFocusable(x)) && x.view() == default_focus.view()),
            all_distinct(ids_of(flat(root))) && focusable_id(flat(root), default_focus.view()) ==>
                (r matches Ok(s) && s.wf() && s.listing() == edit_all(flat(root), default_focus.view(), None)
                    && s.default_id() == default_focus.view() && s.focused_id() == default_focus.view()),
    {
        let mut root = root;
        match validate_ids(&root) {
            Err(e) => return Err(e),
            Ok(()) => {},
        }
        let focusable = match find(&root, &default_focus) {
            None => return Err(SceneError::DefaultFocusMissing(default_focus)),
            Some(anchor) => anchor.is_focusable(),
        };
        let ghost before = flat(root);
        proof {
            let ids = ids_of(before);
            assert forall|k: int| 0 <= k < before.len() && #[trigger] before[k].id == default_focus.view()
                implies entry_focusable(before[k]) == focusable by {
                let k0 = choose|k0: int| first_at(before, default_focus.view(), k0) && before[k0].id == default_focus.view()
                    && entry_focusable(before[k0]) == focusable;
                assert(ids[k] == before[k].id);
                assert(ids[k0] == before[k0].id);
            }
        }
        if !focusable {
            return Err(SceneError::DefaultFocusNotFocusable(default_focus));
        }
        edit_tree(&mut root, &default_focus, None);
        let focused = default_focus.copy();
        let scene = Scene { root, default_focus, focused };
        proof {
            lemma_edit_keeps_ids(before, default_focus.view(), None);
            let k = choose|k: int| 0 <= k < before.len() && #[trigger] before[k].id == default_focus.view();
            assert(scene.listing()[k].id == default_focus.view());
        }
        Ok(scene)
    }

    /// The root of the scene's tree.
    pub fn root(&self) -> (r: &Node<B>)
        ensures
            flat(*r) == self.listing(),
    {
        &self.root
    }

    /// The declared default-focus anchor.
    pub fn default_focus(&self) -> (r: &NodeId)
        ensures
            r.view() == self.default_id(),
    {
        &self.default_focus
    }

    /// The focused node's identifier.
    pub fn focused(&self) -> (r: &NodeId)
        ensures
            r.view() == self.focused_id(),
    {
        &self.focused
    }

    /// The focused node.
    pub fn focused_node(&self) -> (r: &Node<B>)
        requires
            self.wf(),
        ensures
            r.id.view() == self.focused_id(),
            exists|k: int| first_at(self.listing(), self.focused_id(), k) && self.listing()[k] == entry(*r),
    {
        match find(&self.root, &self.focused) {
            Some(n) => n,
            None => {
                proof {
                    assert(false);
                }
                &self.root
            },
        }
    }

    /// The focusable nodes, in preorder: the candidates of a directional focus move.
    pub fn focus_candidates(&self) -> (r: Vec<&Node<B>>)
        ensures
            entries_of(r@) == focusables(self.listing()),
    {
        let mut out: Vec<&Node<B>> = Vec::new();
        collect_focusable(&self.root, &mut out);
        assert(entries_of(out@) =~= entries_of(Seq::<&Node<B>>::empty()) + focusables(self.listing()));
        out
    }

    /// Restores the declared default anchor.
    pub fn reset_focus(&mut self)
        requires
            old(self).wf(),
        ensures
            final(self).wf(),
            final(self).listing() == edit_all(old(self).listing(), old(self).default_id(), None),
            final(self).focused_id() == old(self).default_id(),
            final(self).default_id() == old(self).default_id(),
    {
        let ghost before = self.listing();
        edit_tree(&mut self.root, &self.default_focus, None);
        self.focused = self.default_focus.copy();
        proof {
            lemma_edit_keeps_ids(before, self.default_id(), None);
            let k = choose|k: int| 0 <= k < before.len() && #[trigger] before[k].id == self.default_id();
            assert(self.listing()[k].id == self.default_id());
        }
    }

    /// Moves focus to the node carrying `id` when that node can take focus; otherwise leaves
    /// the scene unchanged. This is the state change of a directional move, whose target is
    /// chosen from the candidates by their geometry.
    pub fn focus_on(&mut self, id: &NodeId) -> (r: bool)
        requires
            old(self).wf(),
        ensures
            final(self).wf(),
            r == focusable_id(old(self).listing(), id.view()),
            r ==> final(self).listing() == edit_all(old(self).listing(), id.view(), None)
                && final(self).focused_id() == id.view()
                && final(self).default_id() == old(self).default_id(),
            !r ==> *final(self) == *old(self),
    {
        let ghost before = self.listing();
        let focusable = match find(&self.root, id) {
            None => false,
            Some(n) => n.is_focusable(),
        };
        proof {
            let ids = ids_of(before);
            if has_id(before, id.view()) {
                assert forall|k: int| 0 <= k < before.len() && #[trigger] before[k].id == id.view()
                    implies entry_focusable(before[k]) == focusable by {
                    let k0 = choose|k0: int| first_at(before, id.view(), k0) && before[k0].id == id.view()
                        && entry_focusable(before[k0]) == focusable;
                    assert(ids[k] == before[k].id);
                    assert(ids[k0] == before[k0].id);
                }
            }
        }
        if !focusable {
            return false;
        }
        edit_tree(&mut self.root, id, None);
        self.focused = id.copy();
        proof {
            lemma_edit_keeps_ids(before, id.view(), None);
            let k = choose|k: int| 0 <= k < before.len() && #[trigger] before[k].id == id.view() && entry_focusable(before[k]);
            assert(self.listing()[k].id == id.view());
            let d = choose|k: int| 0 <= k < before.len() && #[trigger] before[k].id == self.default_id();
            assert(self.listing()[d].id == self.default_id());
        }
        true
    }

    /// Applies a structural-state transition to the node carrying `id`. Focus is never
    /// touched: the focused node cannot be disabled, and the focus bit is not a transition.
    pub fn transition_state(&mut self, id: &NodeId, transition: StateTransition) -> (r: Result<(), SceneError>)
        requires
            old(self).wf(),
        ensures
            final(self).wf(),
            id.view() == old(self).focused_id() && transition == StateTransition::Disabled(true) ==>
                (r matches Err(SceneError::CannotDisableFocused(x)) && x.view() == id.view() && *final(self) == *old(self)),
            !(id.view() == old(self).focused_id() && transition == StateTransition::Disabled(true))
                && !has_id(old(self).listing(), id.view()) ==>
                (r matches Err(SceneError::NodeMissing(x)) && x.view() == id.view() && *final(self) == *old(self)),
            !(id.view() == old(self).focused_id() && transition == StateTransition::Disabled(true))
                && has_id(old(self).listing(), id.view()) ==>
                (r is Ok && final(self).listing() == edit_all(old(self).listing(), id.view(), Some(transition))),
            r is Ok ==> final(self).listing().len() == old(self).listing().len() && forall|k: int|
                0 <= k < old(self).listing().len() && (#[trigger] old(self).listing()[k]).id == id.view() ==> ({
                    let o = old(self).listing()[k].state;
                    let n = final(self).listing()[k].state;
                    &&& n.focused == o.focused
                    &&& n.disabled == (if let StateTransition::Disabled(v) = transition { v } else { o.disabled })
                    &&& n.selected == (if let StateTransition::Selected(v) = transition { v } else { o.selected })
                    &&& n.checked == (if let StateTransition::Checked(v) = transition { v } else { o.checked })
                    &&& n.expanded == (if let StateTransition::Expanded(v) = transition { v } else { o.expanded })
                }),
            final(self).focused_id() == old(self).focused_id(),
            final(self).default_id() == old(self).default_id(),
    {
        if str_eq(id.as_str(), self.focused.as_str()) && transition == StateTransition::Disabled(true) {
            return Err(SceneError::CannotDisableFocused(id.copy()));
        }
        match find(&self.root, id) {
            None => return Err(SceneError::NodeMissing(id.copy())),
            Some(_) => {},
        }
        let ghost before = self.listing();
        edit_tree(&mut self.root, id, Some(transition));
        proof {
            assert forall|k: int| 0 <= k < before.len() && (#[trigger] before[k]).id == id.view() implies ({
                let o = before[k].state;
                let n = self.listing()[k].state;
                &&& n.focused == o.focused
                &&& n.disabled == (if let StateTransition::Disabled(v) = transition { v } else { o.disabled })
                &&& n.selected == (if let StateTransition::Selected(v) = transition { v } else { o.selected })
                &&& n.checked == (if let StateTransition::Checked(v) = transition { v } else { o.checked })
                &&& n.expanded == (if let StateTransition::Expanded(v) = transition { v } else { o.expanded })
            }) by {
                law_transition_sets_exactly(before, id.view(), transition, k);
            }
            lemma_edit_keeps_ids(before, id.view(), Some(transition));
            let f = choose|k: int| 0 <= k < before.len() && #[trigger] before[k].id == self.focused_id();
            assert(self.listing()[f].id == self.focused_id());
            let d = choose|k: int| 0 <= k < before.len() && #[trigger] before[k].id == self.default_id();
            assert(self.listing()[d].id == self.default_id());
        }
        Ok(())
    }
}

/// Runs of trees with equal listings, tree by tree, have equal listings.
proof fn lemma_flat_all_same<B>(a: Seq<Node<B>>, b: Seq<Node<B>>)
    requires
        a.len() == b.len(),
        forall|j: int| 0 <= j < a.len() ==> flat(#[trigger] a[j]) == flat(b[j]),
    ensures
        flat_all(a) == flat_all(b),
    decreases a.len(),
{
    if a.len() > 0 {
        lemma_flat_all_same(a.drop_last(), b.drop_last());
        assert(flat(a.last()) == flat(b.last()));
    }
}

impl<B: Copy> Clone for Node<B> {
    /// A deep copy with the same listing.
    fn clone(&self) -> (r: Self)
        ensures
            flat(r) == flat(*self),
        decreases *self,
    {
        let action = match &self.action {
            Some(a) => Some(a.copy()),
            None => None,
        };
        let mut children: Vec<Node<B>> = Vec::new();
        let n = self.children.len();
        let mut i: usize = 0;
        while i < n
            invariant
                n == self.children@.len(),
                i <= n,
                children@.len() == i,
                forall|j: int| 0 <= j < i ==> flat(#[trigger] children@[j]) == flat(self.children@[j]),
            decreases n - i,
        {
            proof {
                assert(decreases_to!(*self => self.children));
                assert(decreases_to!(self.children => self.children[i as int]));
            }
            let c = self.children[i].clone();
            children.push(c);
            i += 1;
        }
        let r = Node {
            id: self.id.copy(),
            role: self.role,
            accessible_label: self.accessible_label.clone(),
            state: self.state,
            bounds: self.bounds,
            style_token: self.style_token.clone(),
            action,
            children,
        };
        proof {
            lemma_flat_all_same(r.children@, self.children@);
            assert(flat(r) =~= flat(*self));
        }
        r
    }
}

impl<B: Copy> Clone for Scene<B> {
    /// A deep copy with the same listing and anchors.
    fn clone(&self) -> (r: Self)
        ensures
            r.listing() == self.listing(),
            r.default_id() == self.default_id(),
            r.focused_id() == self.focused_id(),
    {
        Scene { root: self.root.clone(), default_focus: self.default_focus.copy(), focused: self.focused.copy() }
    }
}

/// A valid scene has exactly one focused node, and it is the one the scene names as focused.
pub proof fn law_exactly_one_focused<B>(scene: Scene<B>)
    requires
        scene.wf(),
    ensures
        exists|k: int| 0 <= k < scene.listing().len() && (#[trigger] scene.listing()[k]).state.focused
            && scene.listing()[k].id == scene.focused_id()
            && forall|j: int| 0 <= j < scene.listing().len() && (#[trigger] scene.listing()[j]).state.focused ==> j == k,
{
    let s = scene.listing();
    let k = choose|k: int| 0 <= k < s.len() && #[trigger] s[k].id == scene.focused_id();
    assert(s[k].state.focused);
    assert forall|j: int| 0 <= j < s.len() && (#[trigger] s[j]).state.focused implies j == k by {
        let ids = ids_of(s);
        assert(ids[j] == s[j].id);
        assert(ids[k] == s[k].id);
    }
}


/// A state transition sets the flag it names on the node carrying `id` to exactly the value
/// given, leaves that node's other flags (focus included) as they were, and leaves every other
/// node as it was. (On success, `transition_state` leaves the scene's listing so edited.)
pub proof fn law_transition_sets_exactly<B>(before: Seq<NodeEntry<B>>, id: Seq<char>, t: StateTransition, k: int)
    requires
        0 <= k < before.len(),
    ensures
        ({
            let o = before[k];
            let n = edit_all(before, id, Some(t))[k];
            &&& edit_all(before, id, Some(t)).len() == before.len()
            &&& o.id != id ==> n == o
            &&& o.id == id ==> {
                &&& n.id == o.id && n.role == o.role && n.label == o.label && n.bounds == o.bounds
                    && n.style == o.style && n.action == o.action && n.arity == o.arity
                &&& n.state.focused == o.state.focused
                &&& n.state.disabled == (if let StateTransition::Disabled(v) = t { v } else { o.state.disabled })
                &&& n.state.selected == (if let StateTransition::Selected(v) = t { v } else { o.state.selected })
                &&& n.state.checked == (if let StateTransition::Checked(v) = t { v } else { o.state.checked })
                &&& n.state.expanded == (if let StateTransition::Expanded(v) = t { v } else { o.state.expanded })
            }
        }),
{
}

} // verus!
