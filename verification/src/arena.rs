use vstd::prelude::*;
use crate::tree::BulletMLNode;

verus! {

#[verifier::external_type_specification]
#[verifier::external_body]
#[verifier::reject_recursive_types(T)]
pub struct ExArena<T>(indextree::Arena<T>);

#[verifier::external_type_specification]
#[verifier::external_body]
pub struct ExNodeId(indextree::NodeId);

/// The payload each live identifier of the arena maps to.
pub uninterp spec fn arena_nodes(a: indextree::Arena<BulletMLNode>) -> Map<
    indextree::NodeId,
    BulletMLNode,
>;

/// The ordered children of each live identifier of the arena.
pub uninterp spec fn arena_kids(a: indextree::Arena<BulletMLNode>) -> Map<
    indextree::NodeId,
    Seq<indextree::NodeId>,
>;

/// The arena shape the parser maintains: the two views cover the same
/// identifiers, finitely many, and every recorded child is itself live.
pub open spec fn arena_wf(a: indextree::Arena<BulletMLNode>) -> bool {
    &&& arena_nodes(a).dom() == arena_kids(a).dom()
    &&& arena_nodes(a).dom().finite()
    &&& forall|p: indextree::NodeId, i: int|
        arena_kids(a).dom().contains(p) && 0 <= i < arena_kids(a)[p].len()
            ==> arena_nodes(a).dom().contains(#[trigger] arena_kids(a)[p][i])
}

/// An empty node map, for stating that a fresh arena holds nothing.
pub open spec fn empty_nodes() -> Map<indextree::NodeId, BulletMLNode> {
    Map::empty()
}

/// An empty children map, for stating that a fresh arena holds nothing.
pub open spec fn empty_kids() -> Map<indextree::NodeId, Seq<indextree::NodeId>> {
    Map::empty()
}

/// Relies on `indextree::Arena::new`: a new arena holds no nodes.
#[verifier::external_body]
pub(crate) fn arena_new() -> (res: indextree::Arena<BulletMLNode>)
    ensures
        arena_nodes(res) == empty_nodes(),
        arena_kids(res) == empty_kids(),
{
    indextree::Arena::new()
}

/// Relies on `indextree::Arena::new_node`: allocates a fresh, detached,
/// childless node holding `data` and returns its identifier; identifiers are
/// never reused while their node is live. It panics only once the arena has
/// `usize::MAX` slots, which the precondition rules out.
#[verifier::external_body]
pub(crate) fn arena_new_node(a: &mut indextree::Arena<BulletMLNode>, data: BulletMLNode) -> (id:
    indextree::NodeId)
    requires
        arena_nodes(*old(a)).dom().finite(),
        arena_nodes(*old(a)).dom().len() < usize::MAX,
    ensures
        !arena_nodes(*old(a)).dom().contains(id),
        arena_nodes(*final(a)) == arena_nodes(*old(a)).insert(id, data),
        arena_kids(*final(a)) == arena_kids(*old(a)).insert(id, Seq::<indextree::NodeId>::empty()),
{
    a.new_node(data)
}

/// Relies on `indextree::NodeId::append`: links `child` after the existing
/// children of `parent`. Append panics only when the new child is the node
/// itself, an ancestor of it, or removed; the preconditions rule those out,
/// since `child` is detached and childless and this arena never removes.
#[verifier::external_body]
pub(crate) fn arena_append(
    a: &mut indextree::Arena<BulletMLNode>,
    parent: indextree::NodeId,
    child: indextree::NodeId,
)
    requires
        arena_nodes(*old(a)).dom().contains(parent),
        arena_nodes(*old(a)).dom().contains(child),
        parent != child,
        arena_kids(*old(a)).dom().contains(child),
        arena_kids(*old(a))[child].len() == 0,
        forall|p: indextree::NodeId, i: int|
            arena_kids(*old(a)).dom().contains(p) && 0 <= i < arena_kids(*old(a))[p].len()
                ==> (#[trigger] arena_kids(*old(a))[p][i]) != child,
        arena_kids(*old(a)).dom().contains(parent),
    ensures
        arena_nodes(*final(a)) == arena_nodes(*old(a)),
        arena_kids(*final(a)) == arena_kids(*old(a)).insert(
            parent,
            arena_kids(*old(a))[parent].push(child),
        ),
{
    parent.append(child, a);
}

} // verus!
