use vstd::prelude::*;
use crate::docspec::{def_label, ref_label};
use crate::elem::{attr_spec, Element};
use crate::lit::{is_lit, lit_bits_of};
use crate::table::RefTable;
use crate::tags::{tag_kind, Tag};

verus! {

/// Global orientation of a pattern document.
#[derive(Clone, Copy, PartialEq, Eq, Structural, Debug)]
pub enum BulletMLType {
    Vertical,
    Horizontal,
}

/// How a direction value is interpreted.
#[derive(Clone, Copy, PartialEq, Eq, Structural, Debug)]
pub enum DirectionType {
    Aim,
    Absolute,
    Relative,
    Sequence,
}

/// How a speed value is interpreted.
#[derive(Clone, Copy, PartialEq, Eq, Structural, Debug)]
pub enum SpeedType {
    Absolute,
    Relative,
    Sequence,
}

/// How an acceleration component is interpreted.
#[derive(Clone, Copy, PartialEq, Eq, Structural, Debug)]
pub enum AccelDirType {
    Absolute,
    Relative,
    Sequence,
}

/// A compiled numeric field: either the bit pattern of a plain decimal
/// literal, taken on the fast path, or a handle into the expression pool.
#[derive(Clone, Copy, PartialEq, Eq, Structural, Debug)]
pub enum BulletMLExpression {
    Const(u64),
    Expr(usize),
}

/// One directive or structural element of the compiled tree.
#[derive(PartialEq, Debug)]
pub enum BulletMLNode {
    BulletML { bml_type: Option<BulletMLType> },
    Bullet { label: Option<String> },
    Action { label: Option<String> },
    Fire { label: Option<String> },
    ChangeDirection,
    ChangeSpeed,
    Accel,
    Wait { wait: BulletMLExpression },
    Vanish,
    Repeat,
    Direction { dir_type: DirectionType, dir: BulletMLExpression },
    Speed { spd_type: SpeedType, spd: BulletMLExpression },
    Horizontal { h_type: AccelDirType, h: BulletMLExpression },
    Vertical { v_type: AccelDirType, v: BulletMLExpression },
    Term { term: BulletMLExpression },
    Times { times: BulletMLExpression },
    BulletRef { label: String },
    ActionRef { label: String },
    FireRef { label: String },
    Param { expr: BulletMLExpression },
}

/// The node is a template definition registering label `l` in namespace
/// `ns`: a bullet for namespace 0, an action for 1, a fire for 2.
pub open spec fn node_defines(n: BulletMLNode, ns: int, l: Seq<char>) -> bool {
    if ns == 0 {
        (n matches BulletMLNode::Bullet { label: Some(s) } && s@ == l)
    } else if ns == 1 {
        (n matches BulletMLNode::Action { label: Some(s) } && s@ == l)
    } else if ns == 2 {
        (n matches BulletMLNode::Fire { label: Some(s) } && s@ == l)
    } else {
        false
    }
}

/// The orientation the root element's `type` attribute denotes.
pub open spec fn bml_type_spec(e: Element) -> Option<BulletMLType> {
    match attr_spec(e.attrs@, "type"@) {
        Some(v) => if v == "vertical"@ {
            Some(BulletMLType::Vertical)
        } else if v == "horizontal"@ {
            Some(BulletMLType::Horizontal)
        } else {
            None
        },
        None => None,
    }
}

/// The direction kind the element's `type` attribute denotes, `aim` by
/// default.
pub open spec fn dir_type_spec(e: Element) -> DirectionType {
    match attr_spec(e.attrs@, "type"@) {
        Some(v) => if v == "absolute"@ {
            DirectionType::Absolute
        } else if v == "relative"@ {
            DirectionType::Relative
        } else if v == "sequence"@ {
            DirectionType::Sequence
        } else {
            DirectionType::Aim
        },
        None => DirectionType::Aim,
    }
}

/// The speed kind the element's `type` attribute denotes, `absolute` by
/// default.
pub open spec fn speed_type_spec(e: Element) -> SpeedType {
    match attr_spec(e.attrs@, "type"@) {
        Some(v) => if v == "relative"@ {
            SpeedType::Relative
        } else if v == "sequence"@ {
            SpeedType::Sequence
        } else {
            SpeedType::Absolute
        },
        None => SpeedType::Absolute,
    }
}

/// The acceleration kind the element's `type` attribute denotes, `absolute`
/// by default.
pub open spec fn accel_type_spec(e: Element) -> AccelDirType {
    match attr_spec(e.attrs@, "type"@) {
        Some(v) => if v == "relative"@ {
            AccelDirType::Relative
        } else if v == "sequence"@ {
            AccelDirType::Sequence
        } else {
            AccelDirType::Absolute
        },
        None => AccelDirType::Absolute,
    }
}

/// The compiled field a numeric text denotes: the literal's bit pattern on
/// the fast path, a pool handle otherwise.
pub open spec fn expr_matches(x: BulletMLExpression, text: Seq<char>) -> bool {
    if is_lit(text) {
        x == BulletMLExpression::Const(lit_bits_of(text))
    } else {
        x is Expr
    }
}

/// The stored optional label is exactly the element's `label` attribute.
pub open spec fn opt_label_matches(o: Option<String>, e: Element) -> bool {
    match o {
        Some(s) => def_label(e) == Some(s@),
        None => def_label(e) is None,
    }
}

/// The node is exactly the one the element denotes: right kind, label, type
/// attribute and compiled numeric field.
pub open spec fn payload_matches(n: BulletMLNode, e: Element) -> bool {
    match tag_kind(e.tag@) {
        Tag::Bullet => (n matches BulletMLNode::Bullet { label } && opt_label_matches(label, e)),
        Tag::Action => (n matches BulletMLNode::Action { label } && opt_label_matches(label, e)),
        Tag::Fire => (n matches BulletMLNode::Fire { label } && opt_label_matches(label, e)),
        Tag::BulletRef => (n matches BulletMLNode::BulletRef { label } && label@ == ref_label(e)),
        Tag::ActionRef => (n matches BulletMLNode::ActionRef { label } && label@ == ref_label(e)),
        Tag::FireRef => (n matches BulletMLNode::FireRef { label } && label@ == ref_label(e)),
        Tag::Direction => (n matches BulletMLNode::Direction { dir_type, dir } && dir_type
            == dir_type_spec(e) && expr_matches(dir, e.text@)),
        Tag::Speed => (n matches BulletMLNode::Speed { spd_type, spd } && spd_type
            == speed_type_spec(e) && expr_matches(spd, e.text@)),
        Tag::Horizontal => (n matches BulletMLNode::Horizontal { h_type, h } && h_type
            == accel_type_spec(e) && expr_matches(h, e.text@)),
        Tag::Vertical => (n matches BulletMLNode::Vertical { v_type, v } && v_type
            == accel_type_spec(e) && expr_matches(v, e.text@)),
        Tag::Term => (n matches BulletMLNode::Term { term } && expr_matches(term, e.text@)),
        Tag::Times => (n matches BulletMLNode::Times { times } && expr_matches(times, e.text@)),
        Tag::Param => (n matches BulletMLNode::Param { expr } && expr_matches(expr, e.text@)),
        Tag::Wait => (n matches BulletMLNode::Wait { wait } && expr_matches(wait, e.text@)),
        Tag::ChangeDirection => n is ChangeDirection,
        Tag::ChangeSpeed => n is ChangeSpeed,
        Tag::Accel => n is Accel,
        Tag::Vanish => n is Vanish,
        Tag::Repeat => n is Repeat,
        Tag::Bulletml => false,
        Tag::Unknown => false,
    }
}

/// The node at `id` compiles the element `e`: its payload matches and its
/// children compile `e`'s children in order. The subtree keeps clear of the
/// `forb` identifiers — the nodes that were live before it was built.
pub open spec fn subtree_at(
    nodes: Map<indextree::NodeId, BulletMLNode>,
    kids: Map<indextree::NodeId, Seq<indextree::NodeId>>,
    forb: Set<indextree::NodeId>,
    id: indextree::NodeId,
    e: Element,
) -> bool
    decreases e, 1int,
{
    &&& nodes.dom().contains(id)
    &&& kids.dom().contains(id)
    &&& !forb.contains(id)
    &&& payload_matches(nodes[id], e)
    &&& subtree_list(nodes, kids, forb, kids[id], e.children@)
}

/// [`subtree_at`] for a sequence of siblings and their node identifiers, in
/// order.
pub open spec fn subtree_list(
    nodes: Map<indextree::NodeId, BulletMLNode>,
    kids: Map<indextree::NodeId, Seq<indextree::NodeId>>,
    forb: Set<indextree::NodeId>,
    ids: Seq<indextree::NodeId>,
    s: Seq<Element>,
) -> bool
    decreases s, 0int,
{
    if s.len() == 0 {
        ids.len() == 0
    } else {
        &&& ids.len() == s.len()
        &&& subtree_list(nodes, kids, forb, ids.drop_last(), s.drop_last())
        &&& subtree_at(nodes, kids, forb, ids.last(), s.last())
    }
}

/// A built subtree survives later work that preserves live payloads and
/// changes child lists only at `ex`, a node the subtree keeps clear of.
pub proof fn lemma_subtree_preserved(
    nodes1: Map<indextree::NodeId, BulletMLNode>,
    kids1: Map<indextree::NodeId, Seq<indextree::NodeId>>,
    nodes2: Map<indextree::NodeId, BulletMLNode>,
    kids2: Map<indextree::NodeId, Seq<indextree::NodeId>>,
    forb: Set<indextree::NodeId>,
    ex: indextree::NodeId,
    id: indextree::NodeId,
    e: Element,
)
    requires
        subtree_at(nodes1, kids1, forb, id, e),
        forb.contains(ex),
        forall|x: indextree::NodeId|
            #[trigger] nodes1.dom().contains(x) ==> nodes2.dom().contains(x) && nodes2[x]
                == nodes1[x],
        forall|x: indextree::NodeId|
            #[trigger] kids1.dom().contains(x) && x != ex ==> kids2.dom().contains(x) && kids2[x]
                == kids1[x],
    ensures
        subtree_at(nodes2, kids2, forb, id, e),
    decreases e, 1int,
{
    lemma_subtree_list_preserved(nodes1, kids1, nodes2, kids2, forb, ex, kids1[id], e.children@);
}

/// [`lemma_subtree_preserved`] over a sequence of siblings.
pub proof fn lemma_subtree_list_preserved(
    nodes1: Map<indextree::NodeId, BulletMLNode>,
    kids1: Map<indextree::NodeId, Seq<indextree::NodeId>>,
    nodes2: Map<indextree::NodeId, BulletMLNode>,
    kids2: Map<indextree::NodeId, Seq<indextree::NodeId>>,
    forb: Set<indextree::NodeId>,
    ex: indextree::NodeId,
    ids: Seq<indextree::NodeId>,
    s: Seq<Element>,
)
    requires
        subtree_list(nodes1, kids1, forb, ids, s),
        forb.contains(ex),
        forall|x: indextree::NodeId|
            #[trigger] nodes1.dom().contains(x) ==> nodes2.dom().contains(x) && nodes2[x]
                == nodes1[x],
        forall|x: indextree::NodeId|
            #[trigger] kids1.dom().contains(x) && x != ex ==> kids2.dom().contains(x) && kids2[x]
                == kids1[x],
    ensures
        subtree_list(nodes2, kids2, forb, ids, s),
    decreases s, 0int,
{
    if s.len() > 0 {
        lemma_subtree_list_preserved(nodes1, kids1, nodes2, kids2, forb, ex, ids.drop_last(),
            s.drop_last());
        lemma_subtree_preserved(nodes1, kids1, nodes2, kids2, forb, ex, ids.last(), s.last());
    }
}

/// A subtree clear of a larger forbidden set is clear of a smaller one.
pub proof fn lemma_subtree_shrink(
    nodes: Map<indextree::NodeId, BulletMLNode>,
    kids: Map<indextree::NodeId, Seq<indextree::NodeId>>,
    forb1: Set<indextree::NodeId>,
    forb2: Set<indextree::NodeId>,
    id: indextree::NodeId,
    e: Element,
)
    requires
        subtree_at(nodes, kids, forb1, id, e),
        forall|x: indextree::NodeId| #[trigger] forb2.contains(x) ==> forb1.contains(x),
    ensures
        subtree_at(nodes, kids, forb2, id, e),
    decreases e, 1int,
{
    lemma_subtree_list_shrink(nodes, kids, forb1, forb2, kids[id], e.children@);
}

/// [`lemma_subtree_shrink`] over a sequence of siblings.
pub proof fn lemma_subtree_list_shrink(
    nodes: Map<indextree::NodeId, BulletMLNode>,
    kids: Map<indextree::NodeId, Seq<indextree::NodeId>>,
    forb1: Set<indextree::NodeId>,
    forb2: Set<indextree::NodeId>,
    ids: Seq<indextree::NodeId>,
    s: Seq<Element>,
)
    requires
        subtree_list(nodes, kids, forb1, ids, s),
        forall|x: indextree::NodeId| #[trigger] forb2.contains(x) ==> forb1.contains(x),
    ensures
        subtree_list(nodes, kids, forb2, ids, s),
    decreases s, 0int,
{
    if s.len() > 0 {
        lemma_subtree_list_shrink(nodes, kids, forb1, forb2, ids.drop_last(), s.drop_last());
        lemma_subtree_shrink(nodes, kids, forb1, forb2, ids.last(), s.last());
    }
}

/// The immutable bundle a successful parse produces: the arena, the root
/// node's identifier, one label table per template namespace, and the pool of
/// compiled expressions. It is only ever read by the execution engine.
pub struct BulletML {
    pub arena: indextree::Arena<BulletMLNode>,
    pub root: indextree::NodeId,
    pub bullet_refs: RefTable,
    pub action_refs: RefTable,
    pub fire_refs: RefTable,
    pub expr_slab: fasteval::Slab,
}

} // verus!
