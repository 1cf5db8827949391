use vstd::prelude::*;
use vstd::multiset::Multiset;
use crate::arena::{
    arena_append, arena_kids, arena_new, arena_new_node, arena_nodes, arena_wf, empty_kids,
    empty_nodes,
};
use crate::docspec::{
    all_lits, all_lits_list, count_list, def_label, defs_of, defs_of_list, dup_free, labels_in,
    node_count, refs_of, refs_of_list, elem_ok, list_ok, root_ok, refs_sub_defs, ref_label,
    lemma_ok_take_step, lemma_defs_take_step, lemma_refs_take_step,
    lemma_count_take_step, lemma_count_take_le, lemma_defs_take_le, lemma_dup_free_add,
    lemma_labels_in_add, lemma_defs_ns_range, lemma_defs_ns_range_list, lemma_list_ok_index,
    lemma_lits_index, field_ok, fields_ok, fields_ok_list, need_of, need_list, label_duplicated,
    lemma_fields_take_step, lemma_need_take_step, lemma_need_take_le, lemma_fields_index,
    field_rejected, rejected_field_at,
    rejected_field_at_list, general_field_at, general_field_at_list, lemma_rejected_at_index,
    lemma_general_at_index, def_elem_at, def_elem_at_list, lemma_def_at_index, ref_elem_at,
    ref_elem_at_list, lemma_ref_at_index,
};
use crate::elem::Element;
use crate::errors::ParseError;
use crate::lit::{check_literal, is_lit, lit_bits_of, parse_literal_bits};
use crate::pool::{
    expr_ok, expr_slots, parse_expr, parser_new, slab_cap, slab_fill, slab_new,
    slab_with_capacity, ExprFail, DEFAULT_EXPR_CAPACITY,
};
use crate::strutil::str_eq;
use crate::table::RefTable;
use crate::tags::{child_allowed, child_allowed_spec, classify, def_ns, ref_ns, tag_kind, Tag};
use crate::tree::{
    accel_type_spec, bml_type_spec, dir_type_spec, lemma_subtree_list_preserved,
    lemma_subtree_list_shrink, lemma_subtree_shrink, node_defines, payload_matches,
    speed_type_spec, subtree_at, subtree_list, AccelDirType, BulletML, BulletMLExpression,
    BulletMLNode, BulletMLType, DirectionType, SpeedType,
};

verus! {

broadcast use vstd::multiset::group_multiset_axioms;

/// One reference recorded during the walk, to be checked against the tables
/// once the whole tree is built.
pub struct RefRecord {
    pub kind: Tag,
    pub label: String,
    pub pos: u32,
}

/// The namespace-and-label key a recorded reference resolves.
pub open spec fn rec_key(r: RefRecord) -> (int, Seq<char>) {
    (
        match ref_ns(r.kind) {
            Some(n) => n,
            None => -1,
        },
        r.label@,
    )
}

/// The set of keys a record list holds.
pub open spec fn keys_of(s: Seq<RefRecord>) -> Set<(int, Seq<char>)>
    decreases s.len(),
{
    if s.len() == 0 {
        Set::empty()
    } else {
        keys_of(s.drop_last()).insert(rec_key(s.last()))
    }
}

/// Every recorded entry is of a reference kind.
pub open spec fn recs_wf(s: Seq<RefRecord>) -> bool {
    forall|i: int| 0 <= i < s.len() ==> ref_ns((#[trigger] s[i]).kind) is Some
}

proof fn lemma_keys_of_mem(s: Seq<RefRecord>, x: (int, Seq<char>))
    ensures
        keys_of(s).contains(x) <==> exists|i: int|
            0 <= i < s.len() && rec_key(#[trigger] s[i]) == x,
    decreases s.len(),
{
    if s.len() > 0 {
        lemma_keys_of_mem(s.drop_last(), x);
        assert(forall|i: int| 0 <= i < s.len() - 1 ==> (#[trigger] s.drop_last()[i]) == s[i]);
        assert(s.last() == s[s.len() - 1]);
        if keys_of(s).contains(x) {
            if rec_key(s.last()) != x {
                let i = choose|i: int|
                    0 <= i < s.drop_last().len() && rec_key(#[trigger] s.drop_last()[i]) == x;
                assert(rec_key(s[i]) == x);
            }
        }
        if exists|i: int| 0 <= i < s.len() && rec_key(#[trigger] s[i]) == x {
            let i = choose|i: int| 0 <= i < s.len() && rec_key(#[trigger] s[i]) == x;
            if i < s.len() - 1 {
                assert(rec_key(s.drop_last()[i]) == x);
            }
        }
    }
}

/// The recorded reference stands in the subtree of `e`: an element of its
/// kind, label and position is there.
spec fn rec_elem_ok(rec: RefRecord, e: Element) -> bool {
    match ref_ns(rec.kind) {
        Some(ns) => ref_elem_at(e, rec.pos, ns, rec.label@),
        None => false,
    }
}

/// [`rec_elem_ok`] against a sequence of sibling elements.
spec fn rec_elem_ok_list(rec: RefRecord, s: Seq<Element>) -> bool {
    match ref_ns(rec.kind) {
        Some(ns) => ref_elem_at_list(s, rec.pos, ns, rec.label@),
        None => false,
    }
}

/// The record carries the failing label and position, its namespace's table
/// missing the label.
spec fn dangling_rec(me: BulletYAMLParser, rec: RefRecord, l: Seq<char>, q: u32) -> bool {
    &&& rec.label@ == l
    &&& rec.pos == q
    &&& match ref_ns(rec.kind) {
        Some(ns) => !me.ns_dom(ns).contains(l),
        None => false,
    }
}

/// The reference key the element itself contributes, if it is a reference.
pub open spec fn own_refs(e: Element) -> Set<(int, Seq<char>)> {
    match ref_ns(tag_kind(e.tag@)) {
        Some(ns) => Set::empty().insert((ns, ref_label(e))),
        None => Set::empty(),
    }
}

/// The document-to-tree compiler. Each instance owns its arena, its three
/// reference tables and its expression pool, and is consumed by one parse.
pub struct BulletYAMLParser {
    arena: indextree::Arena<BulletMLNode>,
    bullet_refs: RefTable,
    action_refs: RefTable,
    fire_refs: RefTable,
    expr_parser: fasteval::Parser,
    expr_slab: fasteval::Slab,
    recorded: Vec<RefRecord>,
}

impl BulletYAMLParser {
    /// The label table of one namespace: bullets, actions, fires.
    pub closed spec fn ns_map(&self, ns: int) -> Map<Seq<char>, indextree::NodeId> {
        if ns == 0 {
            self.bullet_refs.spec_map()
        } else if ns == 1 {
            self.action_refs.spec_map()
        } else if ns == 2 {
            self.fire_refs.spec_map()
        } else {
            Map::empty()
        }
    }

    /// The labels registered in one namespace: bullets, actions, fires.
    pub closed spec fn ns_dom(&self, ns: int) -> Set<Seq<char>> {
        self.ns_map(ns).dom()
    }

    /// Whether a namespace-and-label key is registered.
    pub closed spec fn holds_key(&self, x: (int, Seq<char>)) -> bool {
        self.ns_dom(x.0).contains(x.1)
    }

    /// The keys of all references recorded so far.
    pub closed spec fn rec_keys(&self) -> Set<(int, Seq<char>)> {
        keys_of(self.recorded@)
    }

    /// The grammar configuration expressions are parsed with.
    pub closed spec fn grammar(&self) -> fasteval::Parser {
        self.expr_parser
    }

    /// The expression pool's fixed slot bound.
    pub closed spec fn pool_cap(&self) -> nat {
        slab_cap(self.expr_slab)
    }

    /// The number of pool slots in use.
    pub closed spec fn pool_fill(&self) -> nat {
        slab_fill(self.expr_slab)
    }

    spec fn st_wf(&self) -> bool {
        &&& arena_wf(self.arena)
        &&& recs_wf(self.recorded@)
    }

    /// A freshly constructed compiler: empty arena, empty tables, nothing
    /// recorded.
    pub closed spec fn ready(&self) -> bool {
        &&& arena_nodes(self.arena) == empty_nodes()
        &&& arena_kids(self.arena) == empty_kids()
        &&& self.bullet_refs.spec_map().dom() =~= Set::<Seq<char>>::empty()
        &&& self.action_refs.spec_map().dom() =~= Set::<Seq<char>>::empty()
        &&& self.fire_refs.spec_map().dom() =~= Set::<Seq<char>>::empty()
        &&& self.recorded@.len() == 0
    }

    /// Everything but the expression pool is unchanged between two states of
    /// the compiler.
    pub closed spec fn same_but_pool(pre: Self, post: Self) -> bool {
        &&& post.arena == pre.arena
        &&& post.bullet_refs == pre.bullet_refs
        &&& post.action_refs == pre.action_refs
        &&& post.fire_refs == pre.fire_refs
        &&& post.recorded == pre.recorded
        &&& post.expr_parser == pre.expr_parser
    }

    /// Creates a new parser with default capacities.
    ///
    /// The capacity of the expression pool cannot grow afterwards; for a
    /// larger pool, use [`BulletYAMLParser::with_capacities`].
    pub fn new() -> (p: BulletYAMLParser)
        ensures
            p.ready(),
            p.pool_cap() == DEFAULT_EXPR_CAPACITY,
            p.pool_fill() == 0,
    {
        BulletYAMLParser {
            arena: arena_new(),
            bullet_refs: RefTable::new(),
            action_refs: RefTable::new(),
            fire_refs: RefTable::new(),
            expr_parser: parser_new(),
            expr_slab: slab_new(),
            recorded: Vec::new(),
        }
    }

    /// Creates a new parser with custom capacities.
    ///
    /// `refs_capacity` is the initial capacity of the reference tables, which
    /// grow on demand. `expr_capacity` is the fixed capacity of the
    /// expression pool, which cannot grow; literal numeric fields are handled
    /// without the pool to mitigate that limit.
    pub fn with_capacities(refs_capacity: usize, expr_capacity: usize) -> (p: BulletYAMLParser)
        ensures
            p.ready(),
            p.pool_cap() == expr_capacity,
            p.pool_fill() == 0,
    {
        BulletYAMLParser {
            arena: arena_new(),
            bullet_refs: RefTable::with_capacity(refs_capacity),
            action_refs: RefTable::with_capacity(refs_capacity),
            fire_refs: RefTable::with_capacity(refs_capacity),
            expr_parser: parser_new(),
            expr_slab: slab_with_capacity(expr_capacity),
            recorded: Vec::new(),
        }
    }

    /// Compiles one numeric field. A plain decimal literal becomes a
    /// [`BulletMLExpression::Const`] holding the literal's bit pattern, on a
    /// fast path that never touches the expression pool; anything else goes
    /// through the general expression grammar. An empty text is an
    /// [`ParseError::InvalidNumericField`], never zero.
    pub fn compile_expression(&mut self, text: &str, pos: u32) -> (r: Result<
        BulletMLExpression,
        ParseError,
    >)
        ensures
            Self::same_but_pool(*old(self), *final(self)),
            final(self).pool_cap() == old(self).pool_cap(),
            final(self).pool_fill() >= old(self).pool_fill(),
            text@.len() == 0 || is_lit(text@) ==> *final(self) == *old(self),
            text@.len() == 0 ==> (r matches Err(e2) && e2 == ParseError::InvalidNumericField(
                pos,
            )),
            is_lit(text@) ==> (r matches Ok(x) && x == BulletMLExpression::Const(
                lit_bits_of(text@),
            )),
            r matches Err(err) ==> !is_lit(text@) && (err == ParseError::InvalidNumericField(pos)
                || err == ParseError::ExpressionCapacityExceeded(pos)),
            r matches Err(e2) ==> match e2 {
                ParseError::InvalidNumericField(_) => text@.len() == 0 || !expr_ok(
                    old(self).grammar(),
                    text@,
                ),
                ParseError::ExpressionCapacityExceeded(_) => final(self).pool_fill() >= old(
                    self,
                ).pool_cap(),
                _ => true,
            },
            text@.len() > 0 && !is_lit(text@) && expr_ok(old(self).grammar(), text@) && old(
                self,
            ).pool_fill() + expr_slots(old(self).grammar(), text@) <= old(self).pool_cap()
                ==> r is Ok,
            !is_lit(text@) && r is Ok ==> expr_ok(old(self).grammar(), text@),
            !is_lit(text@) && r is Ok ==> final(self).pool_fill() <= old(self).pool_fill()
                + expr_slots(old(self).grammar(), text@),
            !is_lit(text@) ==> (r matches Ok(x) ==> x is Expr),
    {
        if text.is_empty() {
            return Err(ParseError::InvalidNumericField(pos));
        }
        if check_literal(text) {
            let bits = parse_literal_bits(text);
            Ok(BulletMLExpression::Const(bits))
        } else {
            match parse_expr(&self.expr_parser, &mut self.expr_slab, text) {
                Ok(i) => Ok(BulletMLExpression::Expr(i)),
                Err(ExprFail::Capacity) => Err(ParseError::ExpressionCapacityExceeded(pos)),
                Err(ExprFail::Syntax) => Err(ParseError::InvalidNumericField(pos)),
            }
        }
    }

    /// Allocates a node and appends it as the last child of `parent`.
    fn alloc_child(&mut self, node: BulletMLNode, parent: indextree::NodeId) -> (id:
        indextree::NodeId)
        requires
            arena_wf(old(self).arena),
            arena_nodes(old(self).arena).dom().contains(parent),
            arena_nodes(old(self).arena).dom().len() < usize::MAX,
        ensures
            arena_wf(final(self).arena),
            !arena_nodes(old(self).arena).dom().contains(id),
            arena_nodes(final(self).arena).dom().contains(id),
            arena_nodes(final(self).arena)[id] == node,
            arena_nodes(final(self).arena).dom().contains(parent),
            forall|x: indextree::NodeId|
                arena_nodes(old(self).arena).dom().contains(x) ==> arena_nodes(
                    final(self).arena,
                ).dom().contains(x),
            arena_nodes(final(self).arena).dom().len() == arena_nodes(old(self).arena).dom().len()
                + 1,
            forall|x: indextree::NodeId|
                arena_nodes(old(self).arena).dom().contains(x) ==> arena_nodes(
                    final(self).arena,
                )[x] == arena_nodes(old(self).arena)[x],
            arena_kids(final(self).arena).dom().contains(parent),
            arena_kids(final(self).arena).dom().contains(id),
            arena_kids(final(self).arena)[id].len() == 0,
            arena_kids(final(self).arena)[parent] == arena_kids(old(self).arena)[parent].push(id),
            forall|x: indextree::NodeId|
                #[trigger] arena_kids(old(self).arena).dom().contains(x) && x != parent
                    ==> arena_kids(final(self).arena).dom().contains(x) && arena_kids(
                    final(self).arena,
                )[x] == arena_kids(old(self).arena)[x],
            final(self).bullet_refs == old(self).bullet_refs,
            final(self).action_refs == old(self).action_refs,
            final(self).fire_refs == old(self).fire_refs,
            final(self).recorded == old(self).recorded,
            final(self).expr_parser == old(self).expr_parser,
            final(self).expr_slab == old(self).expr_slab,
    {
        broadcast use vstd::set::group_set_axioms;

        let ghost nodes0 = arena_nodes(self.arena);
        let ghost kids0 = arena_kids(self.arena);
        let id = arena_new_node(&mut self.arena, node);
        proof {
            assert(arena_nodes(self.arena).dom() =~= nodes0.dom().insert(id));
            assert(arena_kids(self.arena).dom() =~= kids0.dom().insert(id));
        }
        arena_append(&mut self.arena, parent, id);
        proof {
            assert(arena_nodes(self.arena).dom() =~= nodes0.dom().insert(id));
            assert(arena_kids(self.arena).dom() =~= kids0.dom().insert(id).insert(parent));
            assert(arena_kids(self.arena).dom() =~= nodes0.dom().insert(id));
            assert forall|p: indextree::NodeId, i: int|
                arena_kids(self.arena).dom().contains(p) && 0 <= i < arena_kids(self.arena)[p].len()
                    implies arena_nodes(self.arena).dom().contains(
                #[trigger] arena_kids(self.arena)[p][i],
            ) by {
                let ks = arena_kids(self.arena)[p];
                if p == parent {
                    if i < ks.len() - 1 {
                        assert(ks[i] == kids0[parent][i]);
                    } else {
                        assert(ks[i] == id);
                    }
                } else if p == id {
                } else {
                    assert(ks == kids0[p]);
                }
            }
        }
        id
    }
}

/// Copies an optional label.
fn clone_opt_string(o: &Option<String>) -> (r: Option<String>)
    ensures
        r is Some <==> o is Some,
        r matches Some(x) ==> ((*o) matches Some(y) && x@ == y@),
{
    match o {
        Some(s) => Some(s.clone()),
        None => None,
    }
}

/// The direction kind named by the `type` attribute, `aim` by default.
fn direction_type_of(e: &Element) -> (r: DirectionType)
    ensures
        r == dir_type_spec(*e),
{
    match e.attr("type") {
        Some(v) => {
            if str_eq(v.as_str(), "absolute") {
                DirectionType::Absolute
            } else if str_eq(v.as_str(), "relative") {
                DirectionType::Relative
            } else if str_eq(v.as_str(), "sequence") {
                DirectionType::Sequence
            } else {
                DirectionType::Aim
            }
        },
        None => DirectionType::Aim,
    }
}

/// The speed kind named by the `type` attribute, `absolute` by default.
fn speed_type_of(e: &Element) -> (r: SpeedType)
    ensures
        r == speed_type_spec(*e),
{
    match e.attr("type") {
        Some(v) => {
            if str_eq(v.as_str(), "relative") {
                SpeedType::Relative
            } else if str_eq(v.as_str(), "sequence") {
                SpeedType::Sequence
            } else {
                SpeedType::Absolute
            }
        },
        None => SpeedType::Absolute,
    }
}

/// The acceleration kind named by the `type` attribute, `absolute` by
/// default.
fn accel_type_of(e: &Element) -> (r: AccelDirType)
    ensures
        r == accel_type_spec(*e),
{
    match e.attr("type") {
        Some(v) => {
            if str_eq(v.as_str(), "relative") {
                AccelDirType::Relative
            } else if str_eq(v.as_str(), "sequence") {
                AccelDirType::Sequence
            } else {
                AccelDirType::Absolute
            }
        },
        None => AccelDirType::Absolute,
    }
}

/// What one step of the walk guarantees, relating the compiler state before
/// (`pre`) and after (`post`) compiling a subtree with definition multiset
/// `defs`, reference set `refs`, `cnt` elements, structural validity `sok`
/// and all-literal numeric fields `lits`.
/// The duplicate-label error names a label that is genuinely taken twice:
/// some namespace defines it at least twice in the subtree, or the subtree
/// defines it in a namespace that had already registered it.
spec fn dup_witness(
    pre: BulletYAMLParser,
    defs: Multiset<(int, Seq<char>)>,
    l: Seq<char>,
) -> bool {
    ||| label_duplicated(defs, l)
    ||| (defs.contains((0int, l)) && pre.holds_key((0int, l)))
    ||| (defs.contains((1int, l)) && pre.holds_key((1int, l)))
    ||| (defs.contains((2int, l)) && pre.holds_key((2int, l)))
}

spec fn walk_post(
    pre: BulletYAMLParser,
    post: BulletYAMLParser,
    defs: Multiset<(int, Seq<char>)>,
    refs: Set<(int, Seq<char>)>,
    cnt: nat,
    sok: bool,
    lits: bool,
    fok: bool,
    need: nat,
    r: Result<(), ParseError>,
) -> bool {
    &&& post.st_wf()
    &&& post.expr_parser == pre.expr_parser
    &&& post.pool_cap() == pre.pool_cap()
    &&& post.pool_fill() >= pre.pool_fill()
    &&& (forall|x: indextree::NodeId|
        arena_nodes(pre.arena).dom().contains(x) ==> arena_nodes(post.arena).dom().contains(x))
    &&& (forall|x: indextree::NodeId|
        arena_nodes(pre.arena).dom().contains(x) ==> arena_nodes(post.arena)[x] == arena_nodes(
            pre.arena,
        )[x])
    &&& arena_nodes(post.arena).dom().len() <= arena_nodes(pre.arena).dom().len() + cnt
    &&& (r matches Ok(_) ==> {
        &&& sok
        &&& fok
        &&& dup_free(defs)
        &&& (forall|x: (int, Seq<char>)| defs.contains(x) ==> !pre.holds_key(x))
        &&& (forall|ns: int|
            0 <= ns < 3 ==> post.ns_dom(ns) =~= pre.ns_dom(ns).union(labels_in(defs, ns)))
        &&& post.rec_keys() =~= pre.rec_keys().union(refs)
        &&& post.pool_fill() <= pre.pool_fill() + need
        &&& (forall|ns: int, l: Seq<char>|
            0 <= ns < 3 && pre.ns_map(ns).dom().contains(l) ==> #[trigger] post.ns_map(ns)[l]
                == pre.ns_map(ns)[l])
        &&& (forall|ns: int, l: Seq<char>|
            0 <= ns < 3 && post.ns_map(ns).dom().contains(l) && !pre.ns_map(ns).dom().contains(l)
                ==> arena_nodes(post.arena).dom().contains(#[trigger] post.ns_map(ns)[l])
                && node_defines(arena_nodes(post.arena)[post.ns_map(ns)[l]], ns, l))
    })
    &&& (r matches Err(err) ==> match err {
        ParseError::UnexpectedElement(_, _) => !sok,
        ParseError::InvalidNumericField(_) => !lits && !fok,
        ParseError::ExpressionCapacityExceeded(_) => !lits && (!fok || pre.pool_fill() + need
            > pre.pool_cap()),
        ParseError::DuplicateLabel(l, _) => !(dup_free(defs) && (forall|x: (int, Seq<char>)|
            defs.contains(x) ==> !pre.holds_key(x))) && dup_witness(pre, defs, l@),
        ParseError::UnresolvedReference(_, _) => false,
        ParseError::MalformedDocument(_) => false,
    })
}

/// Lifts the walk guarantee of an element's children to the element itself,
/// for elements that define no label of their own; `own_need` bounds the
/// pool slots the element's own field consumed before its children ran.
proof fn lemma_compose(
    pre: BulletYAMLParser,
    mid: BulletYAMLParser,
    post: BulletYAMLParser,
    e: Element,
    own_need: nat,
    r: Result<(), ParseError>,
)
    requires
        match def_ns(tag_kind(e.tag@)) {
            Some(_) => def_label(e) is None,
            None => true,
        },
        mid.bullet_refs == pre.bullet_refs,
        mid.action_refs == pre.action_refs,
        mid.fire_refs == pre.fire_refs,
        mid.expr_parser == pre.expr_parser,
        mid.rec_keys() =~= pre.rec_keys().union(own_refs(e)),
        mid.pool_cap() == pre.pool_cap(),
        mid.pool_fill() >= pre.pool_fill(),
        mid.pool_fill() <= pre.pool_fill() + own_need,
        own_need + need_list(e.children@, pre.grammar()) <= need_of(e, pre.grammar()),
        r is Ok ==> field_ok(e, pre.grammar()),
        forall|x: indextree::NodeId|
            arena_nodes(pre.arena).dom().contains(x) ==> arena_nodes(mid.arena).dom().contains(x),
        forall|x: indextree::NodeId|
            arena_nodes(pre.arena).dom().contains(x) ==> arena_nodes(mid.arena)[x] == arena_nodes(
                pre.arena,
            )[x],
        arena_nodes(mid.arena).dom().len() <= arena_nodes(pre.arena).dom().len() + 1,
        walk_post(
            mid,
            post,
            defs_of_list(e.children@),
            refs_of_list(e.children@),
            count_list(e.children@),
            list_ok(e.children@, tag_kind(e.tag@)),
            all_lits_list(e.children@),
            fields_ok_list(e.children@, pre.grammar()),
            need_list(e.children@, pre.grammar()),
            r,
        ),
    ensures
        walk_post(
            pre,
            post,
            defs_of(e),
            refs_of(e),
            node_count(e),
            list_ok(e.children@, tag_kind(e.tag@)),
            all_lits(e),
            fields_ok(e, pre.grammar()),
            need_of(e, pre.grammar()),
            r,
        ),
{
    let dl = defs_of_list(e.children@);
    assert(forall|x: (int, Seq<char>)| #[trigger] defs_of(e).count(x) == dl.count(x));
    assert(defs_of(e) =~= dl);
    assert(refs_of(e) =~= own_refs(e).union(refs_of_list(e.children@)));
    assert(forall|ns: int| pre.ns_dom(ns) == mid.ns_dom(ns));
    assert forall|x: indextree::NodeId| arena_nodes(pre.arena).dom().contains(x)
        implies arena_nodes(post.arena)[x] == arena_nodes(pre.arena)[x] by {
        assert(arena_nodes(mid.arena).dom().contains(x));
        assert(arena_nodes(mid.arena)[x] == arena_nodes(pre.arena)[x]);
    }
    match r {
        Ok(_) => {
            assert forall|x: (int, Seq<char>)| defs_of(e).contains(x) implies !pre.holds_key(
                x,
            ) by {
                assert(dl.contains(x));
                assert(!mid.holds_key(x));
            }
            assert forall|ns: int| 0 <= ns < 3 implies post.ns_dom(ns) =~= pre.ns_dom(ns).union(
                labels_in(defs_of(e), ns),
            ) by {
                assert(post.ns_dom(ns) =~= mid.ns_dom(ns).union(labels_in(dl, ns)));
            }
            assert(post.rec_keys() =~= pre.rec_keys().union(refs_of(e)));
            assert(forall|ns: int| 0 <= ns < 3 ==> pre.ns_map(ns) == mid.ns_map(ns));
            assert forall|ns: int, l: Seq<char>|
                0 <= ns < 3 && pre.ns_map(ns).dom().contains(l) implies #[trigger] post.ns_map(
                ns,
            )[l] == pre.ns_map(ns)[l] by {
                assert(mid.ns_map(ns).dom().contains(l));
            }
            assert forall|ns: int, l: Seq<char>|
                0 <= ns < 3 && post.ns_map(ns).dom().contains(l) && !pre.ns_map(
                ns,
            ).dom().contains(l) implies arena_nodes(post.arena).dom().contains(
                #[trigger] post.ns_map(ns)[l],
            ) && node_defines(arena_nodes(post.arena)[post.ns_map(ns)[l]], ns, l) by {
                assert(!mid.ns_map(ns).dom().contains(l));
            }
        },
        Err(err) => {
            match err {
                ParseError::DuplicateLabel(l, _) => {
                    assert(!(dup_free(dl) && (forall|x: (int, Seq<char>)|
                        dl.contains(x) ==> !mid.holds_key(x))));
                    if dup_free(defs_of(e)) && (forall|x: (int, Seq<char>)|
                        defs_of(e).contains(x) ==> !pre.holds_key(x)) {
                        assert(dup_free(dl));
                        assert forall|x: (int, Seq<char>)| dl.contains(x) implies !mid.holds_key(
                            x,
                        ) by {
                            assert(defs_of(e).contains(x));
                            assert(!pre.holds_key(x));
                            assert(mid.ns_dom(x.0) == pre.ns_dom(x.0));
                        }
                        assert(false);
                    }
                    assert(dup_witness(mid, dl, l@));
                    assert(dup_witness(pre, defs_of(e), l@));
                },
                ParseError::ExpressionCapacityExceeded(_) => {
                    if fields_ok(e, pre.grammar()) && pre.pool_fill() + need_of(e, pre.grammar())
                        <= pre.pool_cap() {
                        assert(fields_ok_list(e.children@, pre.grammar()));
                        assert(mid.pool_fill() + need_list(e.children@, pre.grammar())
                            <= mid.pool_cap());
                        assert(false);
                    }
                },
                _ => {},
            }
        },
    }
}

impl BulletYAMLParser {
    /// Compiles one element under parent kind `ctx`, appending its subtree
    /// under `parent`.
    fn compile_elem(&mut self, e: &Element, ctx: Tag, parent: indextree::NodeId) -> (r: Result<
        (),
        ParseError,
    >)
        requires
            old(self).st_wf(),
            arena_nodes(old(self).arena).dom().contains(parent),
            arena_nodes(old(self).arena).dom().len() + node_count(*e) <= usize::MAX,
        ensures
            walk_post(
                *old(self),
                *final(self),
                defs_of(*e),
                refs_of(*e),
                node_count(*e),
                elem_ok(*e, ctx),
                all_lits(*e),
                fields_ok(*e, old(self).grammar()),
                need_of(*e, old(self).grammar()),
                r,
            ),
            r matches Err(ParseError::InvalidNumericField(p2)) ==> rejected_field_at(
                *e,
                old(self).grammar(),
                p2,
            ),
            r matches Err(ParseError::ExpressionCapacityExceeded(p2)) ==> general_field_at(
                *e,
                p2,
            ),
            r matches Err(ParseError::DuplicateLabel(l2, p2)) ==> def_elem_at(*e, p2, l2@),
            r is Ok ==> final(self).recorded@.len() >= old(self).recorded@.len(),
            r is Ok ==> forall|j: int|
                0 <= j < old(self).recorded@.len() ==> final(self).recorded@[j] == old(
                    self,
                ).recorded@[j],
            r is Ok ==> forall|j: int|
                old(self).recorded@.len() <= j < final(self).recorded@.len() ==> rec_elem_ok(
                    #[trigger] final(self).recorded@[j],
                    *e,
                ),
            arena_kids(final(self).arena).dom().contains(parent),
            forall|x: indextree::NodeId|
                #[trigger] arena_kids(old(self).arena).dom().contains(x) && x != parent
                    ==> arena_kids(final(self).arena).dom().contains(x) && arena_kids(
                    final(self).arena,
                )[x] == arena_kids(old(self).arena)[x],
            r is Ok ==> arena_kids(final(self).arena)[parent] == arena_kids(
                old(self).arena,
            )[parent].push(arena_kids(final(self).arena)[parent].last()),
            r is Ok ==> subtree_at(
                arena_nodes(final(self).arena),
                arena_kids(final(self).arena),
                arena_nodes(old(self).arena).dom(),
                arena_kids(final(self).arena)[parent].last(),
                *e,
            ),
        decreases *e, 2int,
    {
        let kind = classify(e.tag.as_str());
        if !child_allowed(ctx, kind) {
            return Err(ParseError::UnexpectedElement(e.tag.clone(), e.pos));
        }
        proof {
            assert(elem_ok(*e, ctx) == list_ok(e.children@, tag_kind(e.tag@)));
        }
        match kind {
            Tag::Bullet | Tag::Action | Tag::Fire => self.compile_def(e, kind, parent),
            Tag::BulletRef | Tag::ActionRef | Tag::FireRef => self.compile_ref(e, kind, parent),
            Tag::Direction | Tag::Speed | Tag::Horizontal | Tag::Vertical | Tag::Term | Tag::Times
                | Tag::Param | Tag::Wait => self.compile_numeric(e, kind, parent),
            Tag::ChangeDirection | Tag::ChangeSpeed | Tag::Accel | Tag::Vanish | Tag::Repeat => self
                .compile_plain(e, kind, parent),
            Tag::Bulletml | Tag::Unknown => {
                // No parent kind admits these, so the guard above already
                // returned.
                proof {
                    assert(false);
                }
                Err(ParseError::UnexpectedElement(e.tag.clone(), e.pos))
            },
        }
    }

    /// Compiles a template definition: allocates its node, registers its
    /// label as soon as the opening is seen (which is what makes forward and
    /// self references work), then compiles its body.
    fn compile_def(&mut self, e: &Element, kind: Tag, parent: indextree::NodeId) -> (r: Result<
        (),
        ParseError,
    >)
        requires
            old(self).st_wf(),
            kind == tag_kind(e.tag@),
            def_ns(kind) is Some,
            arena_nodes(old(self).arena).dom().contains(parent),
            arena_nodes(old(self).arena).dom().len() + node_count(*e) <= usize::MAX,
        ensures
            walk_post(
                *old(self),
                *final(self),
                defs_of(*e),
                refs_of(*e),
                node_count(*e),
                list_ok(e.children@, tag_kind(e.tag@)),
                all_lits(*e),
                fields_ok(*e, old(self).grammar()),
                need_of(*e, old(self).grammar()),
                r,
            ),
            r matches Err(ParseError::InvalidNumericField(p2)) ==> rejected_field_at(
                *e,
                old(self).grammar(),
                p2,
            ),
            r matches Err(ParseError::ExpressionCapacityExceeded(p2)) ==> general_field_at(
                *e,
                p2,
            ),
            r matches Err(ParseError::DuplicateLabel(l2, p2)) ==> def_elem_at(*e, p2, l2@),
            r is Ok ==> final(self).recorded@.len() >= old(self).recorded@.len(),
            r is Ok ==> forall|j: int|
                0 <= j < old(self).recorded@.len() ==> final(self).recorded@[j] == old(
                    self,
                ).recorded@[j],
            r is Ok ==> forall|j: int|
                old(self).recorded@.len() <= j < final(self).recorded@.len() ==> rec_elem_ok(
                    #[trigger] final(self).recorded@[j],
                    *e,
                ),
            arena_kids(final(self).arena).dom().contains(parent),
            forall|x: indextree::NodeId|
                #[trigger] arena_kids(old(self).arena).dom().contains(x) && x != parent
                    ==> arena_kids(final(self).arena).dom().contains(x) && arena_kids(
                    final(self).arena,
                )[x] == arena_kids(old(self).arena)[x],
            r is Ok ==> arena_kids(final(self).arena)[parent] == arena_kids(
                old(self).arena,
            )[parent].push(arena_kids(final(self).arena)[parent].last()),
            r is Ok ==> subtree_at(
                arena_nodes(final(self).arena),
                arena_kids(final(self).arena),
                arena_nodes(old(self).arena).dom(),
                arena_kids(final(self).arena)[parent].last(),
                *e,
            ),
        decreases *e, 1int,
    {
        let ghost pre = *self;
        let mut label_opt: Option<String> = None;
        match e.attr("label") {
            Some(v) => {
                label_opt = Some(v.clone());
            },
            None => {},
        }
        let node = match kind {
            Tag::Bullet => BulletMLNode::Bullet { label: clone_opt_string(&label_opt) },
            Tag::Action => BulletMLNode::Action { label: clone_opt_string(&label_opt) },
            _ => BulletMLNode::Fire { label: clone_opt_string(&label_opt) },
        };
        proof {
            assert(payload_matches(node, *e));
        }
        let id = self.alloc_child(node, parent);
        match label_opt {
            None => {
                let ghost mid = *self;
                let res = self.compile_children(&e.children, kind, id);
                proof {
                    assert(mid.rec_keys() =~= pre.rec_keys().union(own_refs(*e)));
                    assert(mid.expr_slab == pre.expr_slab);
                    assert(mid.grammar() == pre.grammar());
                    lemma_compose(pre, mid, *self, *e, 0nat, res);
                    match &res {
                        Err(err2) => {
                            match err2 {
                                ParseError::InvalidNumericField(p2) => {
                                    assert(rejected_field_at(*e, pre.grammar(), *p2));
                                },
                                ParseError::ExpressionCapacityExceeded(p2) => {
                                    assert(general_field_at(*e, *p2));
                                },
                                ParseError::DuplicateLabel(l2, p2) => {
                                    assert(def_elem_at(*e, *p2, l2@));
                                },
                                _ => {},
                            }
                        },
                        Ok(_) => {
                            assert forall|j: int|
                                0 <= j < pre.recorded@.len() implies self.recorded@[j]
                                == pre.recorded@[j] by {
                                assert(self.recorded@[j] == mid.recorded@[j]);
                            }
                            assert forall|j: int|
                                pre.recorded@.len() <= j < self.recorded@.len()
                                implies rec_elem_ok(#[trigger] self.recorded@[j], *e) by {
                                assert(rec_elem_ok_list(self.recorded@[j], e.children@));
                            }
        
                    assert(arena_nodes(pre.arena).dom().contains(parent));
                    assert(!arena_nodes(pre.arena).dom().contains(id));
                    assert(parent != id);
                    assert(arena_nodes(self.arena).dom().contains(id));
                    assert(arena_kids(self.arena).dom() == arena_nodes(self.arena).dom());
                    assert(arena_kids(mid.arena)[id].len() == 0);
                    assert(arena_kids(self.arena)[id].skip(0) =~= arena_kids(self.arena)[id]);
                    assert(subtree_list(
                        arena_nodes(self.arena),
                        arena_kids(self.arena),
                        arena_nodes(mid.arena).dom(),
                        arena_kids(self.arena)[id],
                        e.children@,
                    ));
                    lemma_subtree_list_shrink(
                        arena_nodes(self.arena),
                        arena_kids(self.arena),
                        arena_nodes(mid.arena).dom(),
                        arena_nodes(pre.arena).dom(),
                        arena_kids(self.arena)[id],
                        e.children@,
                    );
                    assert(arena_nodes(self.arena)[id] == arena_nodes(mid.arena)[id]);
                    assert(payload_matches(arena_nodes(self.arena)[id], *e));
                    assert(arena_kids(self.arena)[parent] == arena_kids(mid.arena)[parent]);
                    assert(arena_kids(self.arena)[parent] == arena_kids(pre.arena)[parent].push(
                        id,
                    ));
                    assert(arena_kids(self.arena)[parent].last() == id);
                    assert(subtree_at(
                        arena_nodes(self.arena),
                        arena_kids(self.arena),
                        arena_nodes(pre.arena).dom(),
                        id,
                        *e,
                    ));
                        },
                    }
            assert(arena_kids(self.arena).dom().contains(parent));
            assert(!arena_nodes(pre.arena).dom().contains(id));
            assert forall|x: indextree::NodeId|
                #[trigger] arena_kids(pre.arena).dom().contains(x) && x != parent
                implies arena_kids(self.arena).dom().contains(x) && arena_kids(self.arena)[x]
                == arena_kids(pre.arena)[x] by {
                assert(arena_nodes(pre.arena).dom().contains(x));
                assert(x != id);
                assert(arena_kids(mid.arena).dom().contains(x));
                assert(arena_kids(mid.arena)[x] == arena_kids(pre.arena)[x]);
            }
                }
                res
            },
            Some(l) => {
                let ghost lv = l@;
                let ghost ns0: int = match def_ns(kind) {
                    Some(n) => n,
                    None => 0,
                };
                let ghost own = Multiset::singleton((ns0, lv));
                let ghost dl = defs_of_list(e.children@);
                proof {
                    assert(defs_of(*e) == own.add(dl));
                    lemma_dup_free_add(own, dl);
                }
                let defined = match kind {
                    Tag::Bullet => self.bullet_refs.define(l, id),
                    Tag::Action => self.action_refs.define(l, id),
                    _ => self.fire_refs.define(l, id),
                };
                if !defined {
                    let lbl = match e.attr("label") {
                        Some(v) => v.clone(),
                        None => String::new(),
                    };
                    proof {
                        assert(defs_of(*e).count((ns0, lv)) >= 1);
                        assert(pre.holds_key((ns0, lv)));
                        assert(lbl@ == lv);
                        if ns0 == 0 {
                            assert(defs_of(*e).contains((0int, lv)) && pre.holds_key((0int, lv)));
                        } else if ns0 == 1 {
                            assert(defs_of(*e).contains((1int, lv)) && pre.holds_key((1int, lv)));
                        } else {
                            assert(defs_of(*e).contains((2int, lv)) && pre.holds_key((2int, lv)));
                        }
                        assert(dup_witness(pre, defs_of(*e), lv));
                        assert(def_label(*e) == Some(lv));
                        assert(def_elem_at(*e, e.pos, lv));
                    }
                    return Err(ParseError::DuplicateLabel(lbl, e.pos));
                }
                let ghost mid = *self;
                proof {
                    assert(mid.ns_dom(ns0) =~= pre.ns_dom(ns0).insert(lv));
                    assert(forall|ns: int| ns != ns0 ==> pre.ns_dom(ns) == mid.ns_dom(ns));
                    assert(!pre.ns_dom(ns0).contains(lv));
                }
                let res = self.compile_children(&e.children, kind, id);
                proof {
                    assert(mid.expr_slab == pre.expr_slab);
                    assert(mid.grammar() == pre.grammar());
                    assert(need_of(*e, pre.grammar()) == need_list(e.children@, pre.grammar()));
                    assert(labels_in(own, ns0) =~= Set::<Seq<char>>::empty().insert(lv)) by {
                        assert forall|x: Seq<char>|
                            labels_in(own, ns0).contains(x) == Set::<Seq<char>>::empty().insert(
                                lv,
                            ).contains(x) by {
                            if x != lv {
                                assert(own.count((ns0, x)) == 0);
                            }
                        }
                    }
                    assert forall|ns: int| ns != ns0 implies labels_in(own, ns)
                        =~= Set::<Seq<char>>::empty() by {
                        assert forall|x: Seq<char>| !labels_in(own, ns).contains(x) by {
                            assert(own.count((ns, x)) == 0);
                        }
                    }
                    lemma_labels_in_add(own, dl, 0);
                    lemma_labels_in_add(own, dl, 1);
                    lemma_labels_in_add(own, dl, 2);
                    match &res {
                        Ok(_) => {
                            assert(mid.holds_key((ns0, lv)));
                            assert(!dl.contains((ns0, lv)));
                            assert(dup_free(own));
                            assert(dup_free(defs_of(*e)));
                            assert forall|x: (int, Seq<char>)| defs_of(*e).contains(x)
                                implies !pre.holds_key(x) by {
                                if own.contains(x) {
                                    assert(x == (ns0, lv));
                                } else {
                                    assert(dl.contains(x));
                                    assert(!mid.holds_key(x));
                                }
                            }
                            assert forall|ns: int| 0 <= ns < 3 implies self.ns_dom(ns)
                                =~= pre.ns_dom(ns).union(labels_in(defs_of(*e), ns)) by {
                                assert(self.ns_dom(ns) =~= mid.ns_dom(ns).union(
                                    labels_in(dl, ns),
                                ));
                                if ns == ns0 {
                                    assert(labels_in(defs_of(*e), ns) =~= labels_in(
                                        own,
                                        ns,
                                    ).union(labels_in(dl, ns)));
                                } else {
                                    assert(labels_in(defs_of(*e), ns) =~= labels_in(
                                        own,
                                        ns,
                                    ).union(labels_in(dl, ns)));
                                }
                            }
                            assert(refs_of(*e) =~= refs_of_list(e.children@));
                            assert(self.rec_keys() =~= pre.rec_keys().union(refs_of(*e)));
                            assert forall|x: indextree::NodeId|
                                arena_nodes(pre.arena).dom().contains(x) implies arena_nodes(
                                self.arena,
                            )[x] == arena_nodes(pre.arena)[x] by {
                                assert(arena_nodes(mid.arena).dom().contains(x));
                                assert(arena_nodes(mid.arena)[x] == arena_nodes(pre.arena)[x]);
                            }
                            assert(field_ok(*e, pre.grammar()));
                            assert(fields_ok(*e, pre.grammar()));
                            assert(node_defines(arena_nodes(mid.arena)[id], ns0, lv));
                            assert(mid.ns_map(ns0) == pre.ns_map(ns0).insert(lv, id));
                            assert(forall|ns: int|
                                ns != ns0 ==> pre.ns_map(ns) == mid.ns_map(ns));
                            assert forall|ns: int, l: Seq<char>|
                                0 <= ns < 3 && pre.ns_map(ns).dom().contains(l)
                                implies #[trigger] self.ns_map(ns)[l] == pre.ns_map(ns)[l] by {
                                assert(mid.ns_map(ns).dom().contains(l));
                                if ns == ns0 {
                                    assert(l != lv);
                                }
                                assert(mid.ns_map(ns)[l] == pre.ns_map(ns)[l]);
                            }
                            assert forall|ns: int, l: Seq<char>|
                                0 <= ns < 3 && self.ns_map(ns).dom().contains(l) && !pre.ns_map(
                                ns,
                            ).dom().contains(l) implies arena_nodes(self.arena).dom().contains(
                                #[trigger] self.ns_map(ns)[l],
                            ) && node_defines(
                                arena_nodes(self.arena)[self.ns_map(ns)[l]],
                                ns,
                                l,
                            ) by {
                                if mid.ns_map(ns).dom().contains(l) {
                                    assert(ns == ns0 && l == lv);
                                    assert(mid.ns_map(ns)[l] == id);
                                    assert(self.ns_map(ns)[l] == id);
                                    assert(arena_nodes(mid.arena).dom().contains(id));
                                    assert(arena_nodes(self.arena)[id] == arena_nodes(
                                        mid.arena,
                                    )[id]);
                                }
                            }
                        },
                        Err(err) => {
                            match err {
                                ParseError::ExpressionCapacityExceeded(_) => {
                                    if fields_ok(*e, pre.grammar()) && pre.pool_fill() + need_of(
                                        *e,
                                        pre.grammar(),
                                    ) <= pre.pool_cap() {
                                        assert(fields_ok_list(e.children@, pre.grammar()));
                                        assert(mid.pool_fill() + need_list(
                                            e.children@,
                                            mid.grammar(),
                                        ) <= mid.pool_cap());
                                        assert(false);
                                    }
                                },
                                ParseError::DuplicateLabel(l2, _) => {
                                    assert(dup_witness(mid, dl, l2@));
                                    if label_duplicated(dl, l2@) {
                                        assert(forall|x: (int, Seq<char>)| #[trigger] defs_of(
                                            *e,
                                        ).count(x) >= dl.count(x));
                                        assert(label_duplicated(defs_of(*e), l2@));
                                    } else {
                                        assert forall|k: int|
                                            0 <= k < 3 && dl.contains((k, l2@)) && mid.holds_key(
                                                (k, l2@),
                                            ) implies (defs_of(*e).contains((k, l2@))
                                            && pre.holds_key((k, l2@))) || label_duplicated(
                                            defs_of(*e),
                                            l2@,
                                        ) by {
                                            assert(defs_of(*e).count((k, l2@)) == own.count(
                                                (k, l2@),
                                            ) + dl.count((k, l2@)));
                                            if !pre.holds_key((k, l2@)) {
                                                assert(k == ns0 && l2@ == lv);
                                                assert(own.count((ns0, lv)) == 1);
                                                assert(defs_of(*e).count((k, l2@)) >= 2);
                                            }
                                        }
                                        assert(dup_witness(pre, defs_of(*e), l2@));
                                    }
                                    if dup_free(defs_of(*e)) && (forall|x: (int, Seq<char>)|
                                        defs_of(*e).contains(x) ==> !pre.holds_key(x)) {
                                        assert(dup_free(dl));
                                        assert forall|x: (int, Seq<char>)| dl.contains(x)
                                            implies !mid.holds_key(x) by {
                                            assert(defs_of(*e).count(x) == own.count(x)
                                                + dl.count(x));
                                            assert(defs_of(*e).contains(x));
                                            assert(!pre.holds_key(x));
                                            if x == (ns0, lv) {
                                                assert(own.count(x) == 1);
                                                assert(defs_of(*e).count(x) >= 2);
                                                assert(false);
                                            }
                                            if x.0 == ns0 {
                                                assert(x.1 != lv);
                                                assert(mid.ns_dom(ns0) =~= pre.ns_dom(
                                                    ns0,
                                                ).insert(lv));
                                                assert(!mid.ns_dom(ns0).contains(x.1));
                                            } else {
                                                assert(mid.ns_dom(x.0) == pre.ns_dom(x.0));
                                            }
                                        }
                                        assert(false);
                                    }
                                },
                                _ => {},
                            }
                            assert(refs_of(*e) =~= refs_of_list(e.children@));
                            assert forall|x: indextree::NodeId|
                                arena_nodes(pre.arena).dom().contains(x) implies arena_nodes(
                                self.arena,
                            )[x] == arena_nodes(pre.arena)[x] by {
                                assert(arena_nodes(mid.arena).dom().contains(x));
                                assert(arena_nodes(mid.arena)[x] == arena_nodes(pre.arena)[x]);
                            }
                            match err {
                                ParseError::InvalidNumericField(p2) => {
                                    assert(rejected_field_at(*e, pre.grammar(), *p2));
                                },
                                ParseError::ExpressionCapacityExceeded(p2) => {
                                    assert(general_field_at(*e, *p2));
                                },
                                ParseError::DuplicateLabel(l3, p3) => {
                                    assert(def_elem_at(*e, *p3, l3@));
                                },
                                _ => {},
                            }
                        },
                    }
                    match &res {
                        Ok(_) => {
                            assert forall|j: int|
                                0 <= j < pre.recorded@.len() implies self.recorded@[j]
                                == pre.recorded@[j] by {
                                assert(self.recorded@[j] == mid.recorded@[j]);
                            }
                            assert forall|j: int|
                                pre.recorded@.len() <= j < self.recorded@.len()
                                implies rec_elem_ok(#[trigger] self.recorded@[j], *e) by {
                                assert(rec_elem_ok_list(self.recorded@[j], e.children@));
                            }
        
                    assert(arena_nodes(pre.arena).dom().contains(parent));
                    assert(!arena_nodes(pre.arena).dom().contains(id));
                    assert(parent != id);
                    assert(arena_nodes(self.arena).dom().contains(id));
                    assert(arena_kids(self.arena).dom() == arena_nodes(self.arena).dom());
                    assert(arena_kids(mid.arena)[id].len() == 0);
                    assert(arena_kids(self.arena)[id].skip(0) =~= arena_kids(self.arena)[id]);
                    assert(subtree_list(
                        arena_nodes(self.arena),
                        arena_kids(self.arena),
                        arena_nodes(mid.arena).dom(),
                        arena_kids(self.arena)[id],
                        e.children@,
                    ));
                    lemma_subtree_list_shrink(
                        arena_nodes(self.arena),
                        arena_kids(self.arena),
                        arena_nodes(mid.arena).dom(),
                        arena_nodes(pre.arena).dom(),
                        arena_kids(self.arena)[id],
                        e.children@,
                    );
                    assert(arena_nodes(self.arena)[id] == arena_nodes(mid.arena)[id]);
                    assert(payload_matches(arena_nodes(self.arena)[id], *e));
                    assert(arena_kids(self.arena)[parent] == arena_kids(mid.arena)[parent]);
                    assert(arena_kids(self.arena)[parent] == arena_kids(pre.arena)[parent].push(
                        id,
                    ));
                    assert(arena_kids(self.arena)[parent].last() == id);
                    assert(subtree_at(
                        arena_nodes(self.arena),
                        arena_kids(self.arena),
                        arena_nodes(pre.arena).dom(),
                        id,
                        *e,
                    ));
                        },
                        Err(_) => {},
                    }
            assert(arena_kids(self.arena).dom().contains(parent));
            assert(!arena_nodes(pre.arena).dom().contains(id));
            assert forall|x: indextree::NodeId|
                #[trigger] arena_kids(pre.arena).dom().contains(x) && x != parent
                implies arena_kids(self.arena).dom().contains(x) && arena_kids(self.arena)[x]
                == arena_kids(pre.arena)[x] by {
                assert(arena_nodes(pre.arena).dom().contains(x));
                assert(x != id);
                assert(arena_kids(mid.arena).dom().contains(x));
                assert(arena_kids(mid.arena)[x] == arena_kids(pre.arena)[x]);
            }
                }
                res
            },
        }
    }

    /// Compiles a template reference: allocates its node, records the label
    /// to be validated once the whole tree is built, then compiles its
    /// parameters.
    fn compile_ref(&mut self, e: &Element, kind: Tag, parent: indextree::NodeId) -> (r: Result<
        (),
        ParseError,
    >)
        requires
            old(self).st_wf(),
            kind == tag_kind(e.tag@),
            ref_ns(kind) is Some,
            arena_nodes(old(self).arena).dom().contains(parent),
            arena_nodes(old(self).arena).dom().len() + node_count(*e) <= usize::MAX,
        ensures
            walk_post(
                *old(self),
                *final(self),
                defs_of(*e),
                refs_of(*e),
                node_count(*e),
                list_ok(e.children@, tag_kind(e.tag@)),
                all_lits(*e),
                fields_ok(*e, old(self).grammar()),
                need_of(*e, old(self).grammar()),
                r,
            ),
            r matches Err(ParseError::InvalidNumericField(p2)) ==> rejected_field_at(
                *e,
                old(self).grammar(),
                p2,
            ),
            r matches Err(ParseError::ExpressionCapacityExceeded(p2)) ==> general_field_at(
                *e,
                p2,
            ),
            r matches Err(ParseError::DuplicateLabel(l2, p2)) ==> def_elem_at(*e, p2, l2@),
            r is Ok ==> final(self).recorded@.len() >= old(self).recorded@.len(),
            r is Ok ==> forall|j: int|
                0 <= j < old(self).recorded@.len() ==> final(self).recorded@[j] == old(
                    self,
                ).recorded@[j],
            r is Ok ==> forall|j: int|
                old(self).recorded@.len() <= j < final(self).recorded@.len() ==> rec_elem_ok(
                    #[trigger] final(self).recorded@[j],
                    *e,
                ),
            arena_kids(final(self).arena).dom().contains(parent),
            forall|x: indextree::NodeId|
                #[trigger] arena_kids(old(self).arena).dom().contains(x) && x != parent
                    ==> arena_kids(final(self).arena).dom().contains(x) && arena_kids(
                    final(self).arena,
                )[x] == arena_kids(old(self).arena)[x],
            r is Ok ==> arena_kids(final(self).arena)[parent] == arena_kids(
                old(self).arena,
            )[parent].push(arena_kids(final(self).arena)[parent].last()),
            r is Ok ==> subtree_at(
                arena_nodes(final(self).arena),
                arena_kids(final(self).arena),
                arena_nodes(old(self).arena).dom(),
                arena_kids(final(self).arena)[parent].last(),
                *e,
            ),
        decreases *e, 1int,
    {
        let ghost pre = *self;
        let label: String = match e.attr("label") {
            Some(v) => v.clone(),
            None => String::new(),
        };
        let node = match kind {
            Tag::BulletRef => BulletMLNode::BulletRef { label: label.clone() },
            Tag::ActionRef => BulletMLNode::ActionRef { label: label.clone() },
            _ => BulletMLNode::FireRef { label: label.clone() },
        };
        proof {
            assert(payload_matches(node, *e));
        }
        let id = self.alloc_child(node, parent);
        let ghost rec0 = self.recorded@;
        self.recorded.push(RefRecord { kind, label, pos: e.pos });
        proof {
            assert(self.recorded@.drop_last() =~= rec0);
            assert(rec_key(self.recorded@.last()) == (
                match ref_ns(kind) {
                    Some(n) => n,
                    None => -1,
                },
                ref_label(*e),
            ));
            assert(self.rec_keys() =~= pre.rec_keys().union(own_refs(*e)));
            assert(forall|i: int| 0 <= i < rec0.len() ==> (#[trigger] self.recorded@[i]) == rec0[i]);
            assert(recs_wf(self.recorded@));
            assert(self.recorded@.last().pos == e.pos);
            assert(self.recorded@.last().kind == kind);
            assert(self.recorded@.last().label@ == ref_label(*e));
            assert(rec_elem_ok(self.recorded@.last(), *e));
            assert(forall|j: int|
                rec0.len() <= j < self.recorded@.len() ==> #[trigger] self.recorded@[j]
                    == self.recorded@.last());
        }
        let ghost mid = *self;
        let res = self.compile_children(&e.children, kind, id);
        proof {
            assert(mid.expr_slab == pre.expr_slab);
            assert(mid.grammar() == pre.grammar());
            lemma_compose(pre, mid, *self, *e, 0nat, res);
            match &res {
                Err(err2) => {
                    match err2 {
                        ParseError::InvalidNumericField(p2) => {
                            assert(rejected_field_at(*e, pre.grammar(), *p2));
                        },
                        ParseError::ExpressionCapacityExceeded(p2) => {
                            assert(general_field_at(*e, *p2));
                        },
                        ParseError::DuplicateLabel(l2, p2) => {
                            assert(def_elem_at(*e, *p2, l2@));
                        },
                        _ => {},
                    }
                },
                Ok(_) => {
                    assert forall|j: int|
                        0 <= j < pre.recorded@.len() implies self.recorded@[j] == pre.recorded@[j]
                        by {
                        assert(self.recorded@[j] == mid.recorded@[j]);
                    }
                    assert forall|j: int|
                        pre.recorded@.len() <= j < self.recorded@.len() implies rec_elem_ok(
                        #[trigger] self.recorded@[j],
                        *e,
                    ) by {
                        if j < mid.recorded@.len() {
                            assert(self.recorded@[j] == mid.recorded@[j]);
                            assert(rec_elem_ok(mid.recorded@[j], *e));
                        } else {
                            assert(rec_elem_ok_list(self.recorded@[j], e.children@));
                        }
                    }

                    assert(arena_nodes(pre.arena).dom().contains(parent));
                    assert(!arena_nodes(pre.arena).dom().contains(id));
                    assert(parent != id);
                    assert(arena_nodes(self.arena).dom().contains(id));
                    assert(arena_kids(self.arena).dom() == arena_nodes(self.arena).dom());
                    assert(arena_kids(mid.arena)[id].len() == 0);
                    assert(arena_kids(self.arena)[id].skip(0) =~= arena_kids(self.arena)[id]);
                    assert(subtree_list(
                        arena_nodes(self.arena),
                        arena_kids(self.arena),
                        arena_nodes(mid.arena).dom(),
                        arena_kids(self.arena)[id],
                        e.children@,
                    ));
                    lemma_subtree_list_shrink(
                        arena_nodes(self.arena),
                        arena_kids(self.arena),
                        arena_nodes(mid.arena).dom(),
                        arena_nodes(pre.arena).dom(),
                        arena_kids(self.arena)[id],
                        e.children@,
                    );
                    assert(arena_nodes(self.arena)[id] == arena_nodes(mid.arena)[id]);
                    assert(payload_matches(arena_nodes(self.arena)[id], *e));
                    assert(arena_kids(self.arena)[parent] == arena_kids(mid.arena)[parent]);
                    assert(arena_kids(self.arena)[parent] == arena_kids(pre.arena)[parent].push(
                        id,
                    ));
                    assert(arena_kids(self.arena)[parent].last() == id);
                    assert(subtree_at(
                        arena_nodes(self.arena),
                        arena_kids(self.arena),
                        arena_nodes(pre.arena).dom(),
                        id,
                        *e,
                    ));
                },
            }
            assert(arena_kids(self.arena).dom().contains(parent));
            assert(!arena_nodes(pre.arena).dom().contains(id));
            assert forall|x: indextree::NodeId|
                #[trigger] arena_kids(pre.arena).dom().contains(x) && x != parent
                implies arena_kids(self.arena).dom().contains(x) && arena_kids(self.arena)[x]
                == arena_kids(pre.arena)[x] by {
                assert(arena_nodes(pre.arena).dom().contains(x));
                assert(x != id);
                assert(arena_kids(mid.arena).dom().contains(x));
                assert(arena_kids(mid.arena)[x] == arena_kids(pre.arena)[x]);
            }
        }
        res
    }

    /// Compiles a numeric-field directive: its text goes through the
    /// expression compiler, then the node is allocated.
    fn compile_numeric(&mut self, e: &Element, kind: Tag, parent: indextree::NodeId) -> (r: Result<
        (),
        ParseError,
    >)
        requires
            old(self).st_wf(),
            kind == tag_kind(e.tag@),
            crate::tags::is_numeric_kind(kind),
            arena_nodes(old(self).arena).dom().contains(parent),
            arena_nodes(old(self).arena).dom().len() + node_count(*e) <= usize::MAX,
        ensures
            walk_post(
                *old(self),
                *final(self),
                defs_of(*e),
                refs_of(*e),
                node_count(*e),
                list_ok(e.children@, tag_kind(e.tag@)),
                all_lits(*e),
                fields_ok(*e, old(self).grammar()),
                need_of(*e, old(self).grammar()),
                r,
            ),
            r matches Err(ParseError::InvalidNumericField(p2)) ==> rejected_field_at(
                *e,
                old(self).grammar(),
                p2,
            ),
            r matches Err(ParseError::ExpressionCapacityExceeded(p2)) ==> general_field_at(
                *e,
                p2,
            ),
            r matches Err(ParseError::DuplicateLabel(l2, p2)) ==> def_elem_at(*e, p2, l2@),
            r is Ok ==> final(self).recorded@.len() >= old(self).recorded@.len(),
            r is Ok ==> forall|j: int|
                0 <= j < old(self).recorded@.len() ==> final(self).recorded@[j] == old(
                    self,
                ).recorded@[j],
            r is Ok ==> forall|j: int|
                old(self).recorded@.len() <= j < final(self).recorded@.len() ==> rec_elem_ok(
                    #[trigger] final(self).recorded@[j],
                    *e,
                ),
            arena_kids(final(self).arena).dom().contains(parent),
            forall|x: indextree::NodeId|
                #[trigger] arena_kids(old(self).arena).dom().contains(x) && x != parent
                    ==> arena_kids(final(self).arena).dom().contains(x) && arena_kids(
                    final(self).arena,
                )[x] == arena_kids(old(self).arena)[x],
            r is Ok ==> arena_kids(final(self).arena)[parent] == arena_kids(
                old(self).arena,
            )[parent].push(arena_kids(final(self).arena)[parent].last()),
            r is Ok ==> subtree_at(
                arena_nodes(final(self).arena),
                arena_kids(final(self).arena),
                arena_nodes(old(self).arena).dom(),
                arena_kids(final(self).arena)[parent].last(),
                *e,
            ),
        decreases *e, 1int,
    {
        let ghost pre = *self;
        let ghost g = pre.grammar();
        let ghost own_need: nat = if is_lit(e.text@) {
            0
        } else {
            expr_slots(g, e.text@)
        };
        let expr = match self.compile_expression(e.text.as_str(), e.pos) {
            Ok(x) => x,
            Err(err) => {
                proof {
                    assert(!is_lit(e.text@));
                    assert(!all_lits(*e));
                    match &err {
                        ParseError::InvalidNumericField(_) => {
                            assert(e.text@.len() == 0 || !expr_ok(g, e.text@));
                            assert(!field_ok(*e, g));
                            assert(field_rejected(*e, g));
                            assert(rejected_field_at(*e, g, e.pos));
                        },
                        ParseError::ExpressionCapacityExceeded(_) => {
                            assert(e.text@.len() > 0);
                            assert(general_field_at(*e, e.pos));
                            if fields_ok(*e, g) && pre.pool_fill() + need_of(*e, g)
                                <= pre.pool_cap() {
                                assert(e.text@.len() > 0 && expr_ok(g, e.text@));
                                assert(need_of(*e, g) >= expr_slots(g, e.text@));
                                assert(pre.pool_fill() + expr_slots(g, e.text@)
                                    <= pre.pool_cap());
                                assert(false);
                            }
                        },
                        _ => {},
                    }
                }
                return Err(err);
            },
        };
        let node = match kind {
            Tag::Direction => BulletMLNode::Direction {
                dir_type: direction_type_of(e),
                dir: expr,
            },
            Tag::Speed => BulletMLNode::Speed { spd_type: speed_type_of(e), spd: expr },
            Tag::Horizontal => BulletMLNode::Horizontal { h_type: accel_type_of(e), h: expr },
            Tag::Vertical => BulletMLNode::Vertical { v_type: accel_type_of(e), v: expr },
            Tag::Term => BulletMLNode::Term { term: expr },
            Tag::Times => BulletMLNode::Times { times: expr },
            Tag::Param => BulletMLNode::Param { expr },
            _ => BulletMLNode::Wait { wait: expr },
        };
        proof {
            assert(payload_matches(node, *e));
        }
        let id = self.alloc_child(node, parent);
        let ghost mid = *self;
        let res = self.compile_children(&e.children, kind, id);
        proof {
            assert(mid.rec_keys() =~= pre.rec_keys().union(own_refs(*e)));
            assert(mid.grammar() == pre.grammar());
            assert(mid.pool_cap() == pre.pool_cap());
            assert(mid.pool_fill() <= pre.pool_fill() + own_need);
            assert(own_need + need_list(e.children@, g) <= need_of(*e, g));
            assert(field_ok(*e, g));
            lemma_compose(pre, mid, *self, *e, own_need, res);
            match &res {
                Err(err2) => {
                    match err2 {
                        ParseError::InvalidNumericField(p2) => {
                            assert(rejected_field_at(*e, pre.grammar(), *p2));
                        },
                        ParseError::ExpressionCapacityExceeded(p2) => {
                            assert(general_field_at(*e, *p2));
                        },
                        ParseError::DuplicateLabel(l2, p2) => {
                            assert(def_elem_at(*e, *p2, l2@));
                        },
                        _ => {},
                    }
                },
                Ok(_) => {
                    assert forall|j: int|
                        0 <= j < pre.recorded@.len() implies self.recorded@[j] == pre.recorded@[j]
                        by {
                        assert(self.recorded@[j] == mid.recorded@[j]);
                    }
                    assert forall|j: int|
                        pre.recorded@.len() <= j < self.recorded@.len() implies rec_elem_ok(
                        #[trigger] self.recorded@[j],
                        *e,
                    ) by {
                        if j < mid.recorded@.len() {
                            assert(self.recorded@[j] == mid.recorded@[j]);
                            assert(rec_elem_ok(mid.recorded@[j], *e));
                        } else {
                            assert(rec_elem_ok_list(self.recorded@[j], e.children@));
                        }
                    }

                    assert(arena_nodes(pre.arena).dom().contains(parent));
                    assert(!arena_nodes(pre.arena).dom().contains(id));
                    assert(parent != id);
                    assert(arena_nodes(self.arena).dom().contains(id));
                    assert(arena_kids(self.arena).dom() == arena_nodes(self.arena).dom());
                    assert(arena_kids(mid.arena)[id].len() == 0);
                    assert(arena_kids(self.arena)[id].skip(0) =~= arena_kids(self.arena)[id]);
                    assert(subtree_list(
                        arena_nodes(self.arena),
                        arena_kids(self.arena),
                        arena_nodes(mid.arena).dom(),
                        arena_kids(self.arena)[id],
                        e.children@,
                    ));
                    lemma_subtree_list_shrink(
                        arena_nodes(self.arena),
                        arena_kids(self.arena),
                        arena_nodes(mid.arena).dom(),
                        arena_nodes(pre.arena).dom(),
                        arena_kids(self.arena)[id],
                        e.children@,
                    );
                    assert(arena_nodes(self.arena)[id] == arena_nodes(mid.arena)[id]);
                    assert(payload_matches(arena_nodes(self.arena)[id], *e));
                    assert(arena_kids(self.arena)[parent] == arena_kids(mid.arena)[parent]);
                    assert(arena_kids(self.arena)[parent] == arena_kids(pre.arena)[parent].push(
                        id,
                    ));
                    assert(arena_kids(self.arena)[parent].last() == id);
                    assert(subtree_at(
                        arena_nodes(self.arena),
                        arena_kids(self.arena),
                        arena_nodes(pre.arena).dom(),
                        id,
                        *e,
                    ));
                },
            }
            assert(arena_kids(self.arena).dom().contains(parent));
            assert(!arena_nodes(pre.arena).dom().contains(id));
            assert forall|x: indextree::NodeId|
                #[trigger] arena_kids(pre.arena).dom().contains(x) && x != parent
                implies arena_kids(self.arena).dom().contains(x) && arena_kids(self.arena)[x]
                == arena_kids(pre.arena)[x] by {
                assert(arena_nodes(pre.arena).dom().contains(x));
                assert(x != id);
                assert(arena_kids(mid.arena).dom().contains(x));
                assert(arena_kids(mid.arena)[x] == arena_kids(pre.arena)[x]);
            }
        }
        res
    }

    /// Compiles a directive with neither a label nor a numeric field of its
    /// own: only its node and its children.
    fn compile_plain(&mut self, e: &Element, kind: Tag, parent: indextree::NodeId) -> (r: Result<
        (),
        ParseError,
    >)
        requires
            old(self).st_wf(),
            kind == tag_kind(e.tag@),
            kind == Tag::ChangeDirection || kind == Tag::ChangeSpeed || kind == Tag::Accel
                || kind == Tag::Vanish || kind == Tag::Repeat,
            def_ns(kind) is None,
            ref_ns(kind) is None,
            !crate::tags::is_numeric_kind(kind),
            arena_nodes(old(self).arena).dom().contains(parent),
            arena_nodes(old(self).arena).dom().len() + node_count(*e) <= usize::MAX,
        ensures
            walk_post(
                *old(self),
                *final(self),
                defs_of(*e),
                refs_of(*e),
                node_count(*e),
                list_ok(e.children@, tag_kind(e.tag@)),
                all_lits(*e),
                fields_ok(*e, old(self).grammar()),
                need_of(*e, old(self).grammar()),
                r,
            ),
            r matches Err(ParseError::InvalidNumericField(p2)) ==> rejected_field_at(
                *e,
                old(self).grammar(),
                p2,
            ),
            r matches Err(ParseError::ExpressionCapacityExceeded(p2)) ==> general_field_at(
                *e,
                p2,
            ),
            r matches Err(ParseError::DuplicateLabel(l2, p2)) ==> def_elem_at(*e, p2, l2@),
            r is Ok ==> final(self).recorded@.len() >= old(self).recorded@.len(),
            r is Ok ==> forall|j: int|
                0 <= j < old(self).recorded@.len() ==> final(self).recorded@[j] == old(
                    self,
                ).recorded@[j],
            r is Ok ==> forall|j: int|
                old(self).recorded@.len() <= j < final(self).recorded@.len() ==> rec_elem_ok(
                    #[trigger] final(self).recorded@[j],
                    *e,
                ),
            arena_kids(final(self).arena).dom().contains(parent),
            forall|x: indextree::NodeId|
                #[trigger] arena_kids(old(self).arena).dom().contains(x) && x != parent
                    ==> arena_kids(final(self).arena).dom().contains(x) && arena_kids(
                    final(self).arena,
                )[x] == arena_kids(old(self).arena)[x],
            r is Ok ==> arena_kids(final(self).arena)[parent] == arena_kids(
                old(self).arena,
            )[parent].push(arena_kids(final(self).arena)[parent].last()),
            r is Ok ==> subtree_at(
                arena_nodes(final(self).arena),
                arena_kids(final(self).arena),
                arena_nodes(old(self).arena).dom(),
                arena_kids(final(self).arena)[parent].last(),
                *e,
            ),
        decreases *e, 1int,
    {
        let ghost pre = *self;
        let node = match kind {
            Tag::ChangeDirection => BulletMLNode::ChangeDirection,
            Tag::ChangeSpeed => BulletMLNode::ChangeSpeed,
            Tag::Accel => BulletMLNode::Accel,
            Tag::Vanish => BulletMLNode::Vanish,
            _ => BulletMLNode::Repeat,
        };
        proof {
            assert(payload_matches(node, *e));
        }
        let id = self.alloc_child(node, parent);
        let ghost mid = *self;
        let res = self.compile_children(&e.children, kind, id);
        proof {
            assert(mid.rec_keys() =~= pre.rec_keys().union(own_refs(*e)));
            assert(mid.expr_slab == pre.expr_slab);
            assert(mid.grammar() == pre.grammar());
            lemma_compose(pre, mid, *self, *e, 0nat, res);
            match &res {
                Err(err2) => {
                    match err2 {
                        ParseError::InvalidNumericField(p2) => {
                            assert(rejected_field_at(*e, pre.grammar(), *p2));
                        },
                        ParseError::ExpressionCapacityExceeded(p2) => {
                            assert(general_field_at(*e, *p2));
                        },
                        ParseError::DuplicateLabel(l2, p2) => {
                            assert(def_elem_at(*e, *p2, l2@));
                        },
                        _ => {},
                    }
                },
                Ok(_) => {
                    assert forall|j: int|
                        0 <= j < pre.recorded@.len() implies self.recorded@[j] == pre.recorded@[j]
                        by {
                        assert(self.recorded@[j] == mid.recorded@[j]);
                    }
                    assert forall|j: int|
                        pre.recorded@.len() <= j < self.recorded@.len() implies rec_elem_ok(
                        #[trigger] self.recorded@[j],
                        *e,
                    ) by {
                        if j < mid.recorded@.len() {
                            assert(self.recorded@[j] == mid.recorded@[j]);
                            assert(rec_elem_ok(mid.recorded@[j], *e));
                        } else {
                            assert(rec_elem_ok_list(self.recorded@[j], e.children@));
                        }
                    }

                    assert(arena_nodes(pre.arena).dom().contains(parent));
                    assert(!arena_nodes(pre.arena).dom().contains(id));
                    assert(parent != id);
                    assert(arena_nodes(self.arena).dom().contains(id));
                    assert(arena_kids(self.arena).dom() == arena_nodes(self.arena).dom());
                    assert(arena_kids(mid.arena)[id].len() == 0);
                    assert(arena_kids(self.arena)[id].skip(0) =~= arena_kids(self.arena)[id]);
                    assert(subtree_list(
                        arena_nodes(self.arena),
                        arena_kids(self.arena),
                        arena_nodes(mid.arena).dom(),
                        arena_kids(self.arena)[id],
                        e.children@,
                    ));
                    lemma_subtree_list_shrink(
                        arena_nodes(self.arena),
                        arena_kids(self.arena),
                        arena_nodes(mid.arena).dom(),
                        arena_nodes(pre.arena).dom(),
                        arena_kids(self.arena)[id],
                        e.children@,
                    );
                    assert(arena_nodes(self.arena)[id] == arena_nodes(mid.arena)[id]);
                    assert(payload_matches(arena_nodes(self.arena)[id], *e));
                    assert(arena_kids(self.arena)[parent] == arena_kids(mid.arena)[parent]);
                    assert(arena_kids(self.arena)[parent] == arena_kids(pre.arena)[parent].push(
                        id,
                    ));
                    assert(arena_kids(self.arena)[parent].last() == id);
                    assert(subtree_at(
                        arena_nodes(self.arena),
                        arena_kids(self.arena),
                        arena_nodes(pre.arena).dom(),
                        id,
                        *e,
                    ));
                },
            }
            assert(arena_kids(self.arena).dom().contains(parent));
            assert(!arena_nodes(pre.arena).dom().contains(id));
            assert forall|x: indextree::NodeId|
                #[trigger] arena_kids(pre.arena).dom().contains(x) && x != parent
                implies arena_kids(self.arena).dom().contains(x) && arena_kids(self.arena)[x]
                == arena_kids(pre.arena)[x] by {
                assert(arena_nodes(pre.arena).dom().contains(x));
                assert(x != id);
                assert(arena_kids(mid.arena).dom().contains(x));
                assert(arena_kids(mid.arena)[x] == arena_kids(pre.arena)[x]);
            }
        }
        res
    }

    /// Compiles a sequence of sibling elements under `parent`.
    fn compile_children(&mut self, children: &Vec<Element>, ctx: Tag, parent: indextree::NodeId)
        -> (r: Result<(), ParseError>)
        requires
            old(self).st_wf(),
            arena_nodes(old(self).arena).dom().contains(parent),
            arena_nodes(old(self).arena).dom().len() + count_list(children@) <= usize::MAX,
        ensures
            walk_post(
                *old(self),
                *final(self),
                defs_of_list(children@),
                refs_of_list(children@),
                count_list(children@),
                list_ok(children@, ctx),
                all_lits_list(children@),
                fields_ok_list(children@, old(self).grammar()),
                need_list(children@, old(self).grammar()),
                r,
            ),
            r matches Err(ParseError::InvalidNumericField(p2)) ==> rejected_field_at_list(
                children@,
                old(self).grammar(),
                p2,
            ),
            r matches Err(ParseError::ExpressionCapacityExceeded(p2)) ==> general_field_at_list(
                children@,
                p2,
            ),
            r matches Err(ParseError::DuplicateLabel(l2, p2)) ==> def_elem_at_list(
                children@,
                p2,
                l2@,
            ),
            r is Ok ==> final(self).recorded@.len() >= old(self).recorded@.len(),
            r is Ok ==> forall|j: int|
                0 <= j < old(self).recorded@.len() ==> final(self).recorded@[j] == old(
                    self,
                ).recorded@[j],
            r is Ok ==> forall|j: int|
                old(self).recorded@.len() <= j < final(self).recorded@.len() ==> rec_elem_ok_list(
                    #[trigger] final(self).recorded@[j],
                    children@,
                ),
            arena_kids(final(self).arena).dom().contains(parent),
            forall|x: indextree::NodeId|
                #[trigger] arena_kids(old(self).arena).dom().contains(x) && x != parent
                    ==> arena_kids(final(self).arena).dom().contains(x) && arena_kids(
                    final(self).arena,
                )[x] == arena_kids(old(self).arena)[x],
            r is Ok ==> arena_kids(final(self).arena)[parent].len() == arena_kids(
                old(self).arena,
            )[parent].len() + children@.len(),
            r is Ok ==> arena_kids(final(self).arena)[parent].take(
                arena_kids(old(self).arena)[parent].len() as int,
            ) == arena_kids(old(self).arena)[parent],
            r is Ok ==> subtree_list(
                arena_nodes(final(self).arena),
                arena_kids(final(self).arena),
                arena_nodes(old(self).arena).dom(),
                arena_kids(final(self).arena)[parent].skip(
                    arena_kids(old(self).arena)[parent].len() as int,
                ),
                children@,
            ),
        decreases *children, 0int,
    {
        let ghost pre = *self;
        let ghost cs = children@;
        let n = children.len();
        let mut i: usize = 0;
        proof {
            assert(cs.take(0) =~= Seq::<Element>::empty());
            assert(arena_kids(pre.arena).dom() == arena_nodes(pre.arena).dom());
            assert(arena_kids(pre.arena).dom().contains(parent));
            assert(arena_kids(pre.arena)[parent].take(
                arena_kids(pre.arena)[parent].len() as int,
            ) =~= arena_kids(pre.arena)[parent]);
            assert(arena_kids(pre.arena)[parent].skip(
                arena_kids(pre.arena)[parent].len() as int,
            ) =~= Seq::<indextree::NodeId>::empty());
        }
        while i < n
            invariant
                n == cs.len(),
                cs == children@,
                pre == *old(self),
                0 <= i <= n,
                pre.st_wf(),
                self.st_wf(),
                self.expr_parser == pre.expr_parser,
                arena_nodes(pre.arena).dom().contains(parent),
                arena_nodes(self.arena).dom().contains(parent),
                arena_nodes(pre.arena).dom().len() + count_list(cs) <= usize::MAX,
                forall|x: indextree::NodeId|
                    arena_nodes(pre.arena).dom().contains(x) ==> arena_nodes(
                        self.arena,
                    ).dom().contains(x),
                forall|x: indextree::NodeId|
                    arena_nodes(pre.arena).dom().contains(x) ==> arena_nodes(self.arena)[x]
                        == arena_nodes(pre.arena)[x],
                arena_nodes(self.arena).dom().len() <= arena_nodes(pre.arena).dom().len()
                    + count_list(cs.take(i as int)),
                list_ok(cs.take(i as int), ctx),
                fields_ok_list(cs.take(i as int), pre.grammar()),
                dup_free(defs_of_list(cs.take(i as int))),
                forall|x: (int, Seq<char>)|
                    defs_of_list(cs.take(i as int)).contains(x) ==> !pre.holds_key(x),
                forall|ns: int|
                    0 <= ns < 3 ==> self.ns_dom(ns) =~= pre.ns_dom(ns).union(
                        labels_in(defs_of_list(cs.take(i as int)), ns),
                    ),
                self.rec_keys() =~= pre.rec_keys().union(refs_of_list(cs.take(i as int))),
                self.pool_cap() == pre.pool_cap(),
                self.pool_fill() >= pre.pool_fill(),
                self.pool_fill() <= pre.pool_fill() + need_list(cs.take(i as int), pre.grammar()),
                forall|ns: int, l: Seq<char>|
                    0 <= ns < 3 && pre.ns_map(ns).dom().contains(l) ==> #[trigger] self.ns_map(
                        ns,
                    )[l] == pre.ns_map(ns)[l],
                forall|ns: int, l: Seq<char>|
                    0 <= ns < 3 && self.ns_map(ns).dom().contains(l) && !pre.ns_map(
                        ns,
                    ).dom().contains(l) ==> arena_nodes(self.arena).dom().contains(
                        #[trigger] self.ns_map(ns)[l],
                    ) && node_defines(arena_nodes(self.arena)[self.ns_map(ns)[l]], ns, l),
                self.recorded@.len() >= pre.recorded@.len(),
                forall|j: int|
                    0 <= j < pre.recorded@.len() ==> self.recorded@[j] == pre.recorded@[j],
                forall|j: int|
                    pre.recorded@.len() <= j < self.recorded@.len() ==> rec_elem_ok_list(
                        #[trigger] self.recorded@[j],
                        cs.take(i as int),
                    ),
                arena_kids(self.arena).dom().contains(parent),
                arena_kids(pre.arena).dom().contains(parent),
                arena_kids(self.arena)[parent].len() == arena_kids(pre.arena)[parent].len() + i,
                arena_kids(self.arena)[parent].take(arena_kids(pre.arena)[parent].len() as int)
                    == arena_kids(pre.arena)[parent],
                subtree_list(
                    arena_nodes(self.arena),
                    arena_kids(self.arena),
                    arena_nodes(pre.arena).dom(),
                    arena_kids(self.arena)[parent].skip(
                        arena_kids(pre.arena)[parent].len() as int,
                    ),
                    cs.take(i as int),
                ),
                forall|x: indextree::NodeId|
                    #[trigger] arena_kids(pre.arena).dom().contains(x) && x != parent
                        ==> arena_kids(self.arena).dom().contains(x) && arena_kids(self.arena)[x]
                        == arena_kids(pre.arena)[x],
            decreases n - i,
        {
            proof {
                lemma_count_take_step(cs, i as int);
                lemma_count_take_le(cs, i as int + 1);
                lemma_need_take_step(cs, pre.grammar(), i as int);
                lemma_need_take_le(cs, pre.grammar(), i as int + 1);
            }
            let ghost st0 = *self;
            let res = self.compile_elem(&children[i], ctx, parent);
            proof {
                let ei = cs[i as int];
                lemma_defs_take_step(cs, i as int);
                lemma_refs_take_step(cs, i as int);
                lemma_dup_free_add(defs_of_list(cs.take(i as int)), defs_of(ei));
                lemma_defs_ns_range(ei);
                lemma_defs_ns_range_list(cs.take(i as int));
            }
            match res {
                Err(err) => {
                    proof {
                        let ei = cs[i as int];
                        match &err {
                            ParseError::UnexpectedElement(_, _) => {
                                if list_ok(cs, ctx) {
                                    lemma_list_ok_index(cs, ctx, i as int);
                                    assert(false);
                                }
                            },
                            ParseError::InvalidNumericField(p2) => {
                                if all_lits_list(cs) {
                                    lemma_lits_index(cs, i as int);
                                    assert(false);
                                }
                                assert(st0.grammar() == pre.grammar());
                                if fields_ok_list(cs, pre.grammar()) {
                                    lemma_fields_index(cs, pre.grammar(), i as int);
                                    assert(false);
                                }
                                assert(rejected_field_at(ei, pre.grammar(), *p2));
                                lemma_rejected_at_index(cs, pre.grammar(), *p2, i as int);
                            },
                            ParseError::ExpressionCapacityExceeded(p2) => {
                                if all_lits_list(cs) {
                                    lemma_lits_index(cs, i as int);
                                    assert(false);
                                }
                                assert(general_field_at(ei, *p2));
                                lemma_general_at_index(cs, *p2, i as int);
                                assert(st0.grammar() == pre.grammar());
                                if fields_ok_list(cs, pre.grammar()) && pre.pool_fill()
                                    + need_list(cs, pre.grammar()) <= pre.pool_cap() {
                                    lemma_fields_index(cs, pre.grammar(), i as int);
                                    assert(st0.pool_fill() + need_of(ei, pre.grammar())
                                        > st0.pool_cap());
                                    assert(st0.pool_fill() <= pre.pool_fill() + need_list(
                                        cs.take(i as int),
                                        pre.grammar(),
                                    ));
                                    assert(need_list(cs.take(i as int), pre.grammar()) + need_of(
                                        ei,
                                        pre.grammar(),
                                    ) == need_list(cs.take(i as int + 1), pre.grammar()));
                                    assert(need_list(cs.take(i as int + 1), pre.grammar())
                                        <= need_list(cs, pre.grammar()));
                                    assert(false);
                                }
                            },
                            ParseError::DuplicateLabel(l2, p3) => {
                                assert(def_elem_at(ei, *p3, l2@));
                                lemma_def_at_index(cs, *p3, l2@, i as int);
                                lemma_defs_take_le(cs, i as int + 1);
                                assert(dup_witness(st0, defs_of(ei), l2@));
                                assert(forall|x: (int, Seq<char>)| #[trigger] defs_of_list(
                                    cs,
                                ).count(x) >= defs_of_list(cs.take(i as int + 1)).count(x));
                                assert(forall|x: (int, Seq<char>)| #[trigger] defs_of_list(
                                    cs.take(i as int + 1),
                                ).count(x) == defs_of_list(cs.take(i as int)).count(x) + defs_of(
                                    ei,
                                ).count(x));
                                if label_duplicated(defs_of(ei), l2@) {
                                    assert(label_duplicated(defs_of_list(cs), l2@));
                                } else {
                                    assert forall|k: int|
                                        0 <= k < 3 && defs_of(ei).contains((k, l2@))
                                            && st0.holds_key((k, l2@)) implies (defs_of_list(
                                        cs,
                                    ).contains((k, l2@)) && pre.holds_key((k, l2@)))
                                        || label_duplicated(defs_of_list(cs), l2@) by {
                                        assert(defs_of_list(cs).count((k, l2@)) >= defs_of_list(
                                            cs.take(i as int),
                                        ).count((k, l2@)) + defs_of(ei).count((k, l2@)));
                                        if !pre.holds_key((k, l2@)) {
                                            assert(st0.ns_dom(k) =~= pre.ns_dom(k).union(
                                                labels_in(defs_of_list(cs.take(i as int)), k),
                                            ));
                                            assert(labels_in(
                                                defs_of_list(cs.take(i as int)),
                                                k,
                                            ).contains(l2@));
                                            assert(defs_of_list(cs.take(i as int)).contains(
                                                (k, l2@),
                                            ));
                                            assert(defs_of_list(cs).count((k, l2@)) >= 2);
                                        }
                                    }
                                    assert(dup_witness(pre, defs_of_list(cs), l2@));
                                }
                                if dup_free(defs_of_list(cs)) && (forall|x: (int, Seq<char>)|
                                    defs_of_list(cs).contains(x) ==> !pre.holds_key(x)) {
                                    lemma_defs_take_le(cs, i as int + 1);
                                    assert forall|x: (int, Seq<char>)| #[trigger] defs_of_list(
                                        cs.take(i as int + 1),
                                    ).count(x) <= 1 by {
                                        assert(defs_of_list(cs.take(i as int + 1)).count(x)
                                            <= defs_of_list(cs).count(x));
                                    }
                                    assert(dup_free(defs_of_list(cs.take(i as int + 1))));
                                    assert(dup_free(defs_of(ei)));
                                    assert forall|x: (int, Seq<char>)| defs_of(ei).contains(x)
                                        implies !st0.holds_key(x) by {
                                        assert(defs_of_list(cs.take(i as int + 1)).count(x)
                                            == defs_of_list(cs.take(i as int)).count(x) + defs_of(
                                            ei,
                                        ).count(x));
                                        assert(defs_of_list(cs.take(i as int + 1)).contains(x));
                                        assert(defs_of_list(cs).count(x) >= defs_of_list(
                                            cs.take(i as int + 1),
                                        ).count(x));
                                        assert(defs_of_list(cs).contains(x));
                                        assert(!pre.holds_key(x));
                                        assert(!(defs_of_list(cs.take(i as int)).contains(x)
                                            && defs_of(ei).contains(x)));
                                        assert(!defs_of_list(cs.take(i as int)).contains(x));
                                        assert(0 <= x.0 < 3);
                                        assert(!labels_in(
                                            defs_of_list(cs.take(i as int)),
                                            x.0,
                                        ).contains(x.1));
                                    }
                                    assert(false);
                                }
                            },
                            _ => {},
                        }
                        assert forall|x: indextree::NodeId|
                            arena_nodes(pre.arena).dom().contains(x) implies arena_nodes(
                            self.arena,
                        ).dom().contains(x) by {
                            assert(arena_nodes(st0.arena).dom().contains(x));
                        }
                        assert forall|x: indextree::NodeId|
                            arena_nodes(pre.arena).dom().contains(x) implies arena_nodes(
                            self.arena,
                        )[x] == arena_nodes(pre.arena)[x] by {
                            assert(arena_nodes(st0.arena).dom().contains(x));
                            assert(arena_nodes(st0.arena)[x] == arena_nodes(pre.arena)[x]);
                        }
                        assert(arena_nodes(self.arena).dom().len() <= arena_nodes(
                            pre.arena,
                        ).dom().len() + count_list(cs));
                        assert(self.pool_cap() == pre.pool_cap());
                        assert(self.pool_fill() >= pre.pool_fill());
                        assert(arena_kids(self.arena).dom().contains(parent));
                        assert forall|x: indextree::NodeId|
                            #[trigger] arena_kids(pre.arena).dom().contains(x) && x != parent
                            implies arena_kids(self.arena).dom().contains(x) && arena_kids(
                            self.arena,
                        )[x] == arena_kids(pre.arena)[x] by {
                            assert(arena_kids(st0.arena).dom().contains(x));
                            assert(arena_kids(st0.arena)[x] == arena_kids(pre.arena)[x]);
                        }
                    }
                    return Err(err);
                },
                Ok(()) => {
                    proof {
                        let ei = cs[i as int];
                        lemma_ok_take_step(cs, ctx, i as int);
                        assert(st0.grammar() == pre.grammar());
                        lemma_fields_take_step(cs, pre.grammar(), i as int);
                        assert(fields_ok(ei, pre.grammar()));
                        lemma_labels_in_add(defs_of_list(cs.take(i as int)), defs_of(ei), 0);
                        lemma_labels_in_add(defs_of_list(cs.take(i as int)), defs_of(ei), 1);
                        lemma_labels_in_add(defs_of_list(cs.take(i as int)), defs_of(ei), 2);
                        assert forall|x: (int, Seq<char>)|
                            !(defs_of_list(cs.take(i as int)).contains(x) && defs_of(
                                ei,
                            ).contains(x)) by {
                            if defs_of_list(cs.take(i as int)).contains(x) && defs_of(
                                ei,
                            ).contains(x) {
                                assert(0 <= x.0 < 3);
                                assert(labels_in(defs_of_list(cs.take(i as int)), x.0).contains(
                                    x.1,
                                ));
                                assert(st0.holds_key(x));
                                assert(!st0.holds_key(x));
                            }
                        }
                        assert(dup_free(defs_of_list(cs.take(i as int + 1))));
                        assert forall|x: (int, Seq<char>)| defs_of_list(
                            cs.take(i as int + 1),
                        ).contains(x) implies !pre.holds_key(x) by {
                            assert(defs_of_list(cs.take(i as int + 1)).count(x) == defs_of_list(
                                cs.take(i as int),
                            ).count(x) + defs_of(ei).count(x));
                            if defs_of_list(cs.take(i as int)).contains(x) {
                            } else {
                                assert(defs_of(ei).contains(x));
                                assert(!st0.holds_key(x));
                                if pre.holds_key(x) {
                                    assert(0 <= x.0 < 3);
                                    assert(st0.ns_dom(x.0) =~= pre.ns_dom(x.0).union(
                                        labels_in(defs_of_list(cs.take(i as int)), x.0),
                                    ));
                                    assert(st0.holds_key(x));
                                }
                            }
                        }
                        assert forall|ns: int| 0 <= ns < 3 implies self.ns_dom(ns)
                            =~= pre.ns_dom(ns).union(
                            labels_in(defs_of_list(cs.take(i as int + 1)), ns),
                        ) by {
                            assert(self.ns_dom(ns) =~= st0.ns_dom(ns).union(
                                labels_in(defs_of(ei), ns),
                            ));
                            assert(st0.ns_dom(ns) =~= pre.ns_dom(ns).union(
                                labels_in(defs_of_list(cs.take(i as int)), ns),
                            ));
                            assert(labels_in(defs_of_list(cs.take(i as int + 1)), ns)
                                =~= labels_in(defs_of_list(cs.take(i as int)), ns).union(
                                labels_in(defs_of(ei), ns),
                            ));
                        }
                        assert(self.rec_keys() =~= pre.rec_keys().union(
                            refs_of_list(cs.take(i as int + 1)),
                        ));
                        assert forall|x: indextree::NodeId|
                            arena_nodes(pre.arena).dom().contains(x) implies arena_nodes(
                            self.arena,
                        ).dom().contains(x) by {
                            assert(arena_nodes(st0.arena).dom().contains(x));
                        }
                        assert forall|x: indextree::NodeId|
                            arena_nodes(pre.arena).dom().contains(x) implies arena_nodes(
                            self.arena,
                        )[x] == arena_nodes(pre.arena)[x] by {
                            assert(arena_nodes(st0.arena).dom().contains(x));
                            assert(arena_nodes(st0.arena)[x] == arena_nodes(pre.arena)[x]);
                        }
                        assert(st0.grammar() == pre.grammar());
                        assert(self.pool_cap() == pre.pool_cap());
                        assert(self.pool_fill() <= st0.pool_fill() + need_of(ei, pre.grammar()));
                        assert(self.pool_fill() <= pre.pool_fill() + need_list(
                            cs.take(i as int + 1),
                            pre.grammar(),
                        ));
                        assert forall|ns: int, l: Seq<char>|
                            0 <= ns < 3 && pre.ns_map(ns).dom().contains(l)
                            implies #[trigger] self.ns_map(ns)[l] == pre.ns_map(ns)[l] by {
                            assert(st0.ns_dom(ns).contains(l));
                            assert(st0.ns_map(ns)[l] == pre.ns_map(ns)[l]);
                            assert(self.ns_map(ns)[l] == st0.ns_map(ns)[l]);
                        }
                        assert forall|ns: int, l: Seq<char>|
                            0 <= ns < 3 && self.ns_map(ns).dom().contains(l) && !pre.ns_map(
                            ns,
                        ).dom().contains(l) implies arena_nodes(self.arena).dom().contains(
                            #[trigger] self.ns_map(ns)[l],
                        ) && node_defines(
                            arena_nodes(self.arena)[self.ns_map(ns)[l]],
                            ns,
                            l,
                        ) by {
                            if st0.ns_map(ns).dom().contains(l) {
                                let id2 = st0.ns_map(ns)[l];
                                assert(arena_nodes(st0.arena).dom().contains(id2));
                                assert(node_defines(arena_nodes(st0.arena)[id2], ns, l));
                                assert(self.ns_map(ns)[l] == id2);
                                assert(arena_nodes(self.arena)[id2] == arena_nodes(
                                    st0.arena,
                                )[id2]);
                            }
                        }
                        assert(cs.take(i as int + 1).drop_last() =~= cs.take(i as int));
                        assert(cs.take(i as int + 1).last() == ei);
                        assert forall|j: int|
                            pre.recorded@.len() <= j < self.recorded@.len()
                            implies rec_elem_ok_list(#[trigger] self.recorded@[j], cs.take(
                            i as int + 1,
                        )) by {
                            let rec = self.recorded@[j];
                            if j < st0.recorded@.len() {
                                assert(rec == st0.recorded@[j]);
                                assert(rec_elem_ok_list(rec, cs.take(i as int)));
                            } else {
                                assert(rec_elem_ok(rec, ei));
                                match ref_ns(rec.kind) {
                                    Some(ns2) => {
                                        assert(cs.take(i as int + 1)[i as int] == ei);
                                        lemma_ref_at_index(
                                            cs.take(i as int + 1),
                                            rec.pos,
                                            ns2,
                                            rec.label@,
                                            i as int,
                                        );
                                    },
                                    None => {},
                                }
                            }
                        }
                        let klen = arena_kids(pre.arena)[parent].len() as int;
                        let kids0 = arena_kids(st0.arena);
                        let nodes0 = arena_nodes(st0.arena);
                        let idn = arena_kids(self.arena)[parent].last();
                        assert(arena_kids(self.arena)[parent] == kids0[parent].push(idn));
                        assert(kids0[parent].len() == klen + i);
                        assert(arena_kids(self.arena)[parent].take(klen) =~= arena_kids(
                            pre.arena,
                        )[parent]) by {
                            assert(kids0[parent].take(klen) == arena_kids(pre.arena)[parent]);
                            assert(forall|m: int|
                                0 <= m < klen ==> arena_kids(self.arena)[parent][m]
                                    == kids0[parent][m]);
                            assert(forall|m: int|
                                0 <= m < klen ==> kids0[parent][m] == kids0[parent].take(klen)[m]);
                        }
                        assert(arena_kids(self.arena)[parent].skip(klen) =~= kids0[parent].skip(
                            klen,
                        ).push(idn));
                        lemma_subtree_list_preserved(
                            nodes0,
                            kids0,
                            arena_nodes(self.arena),
                            arena_kids(self.arena),
                            arena_nodes(pre.arena).dom(),
                            parent,
                            kids0[parent].skip(klen),
                            cs.take(i as int),
                        );
                        lemma_subtree_shrink(
                            arena_nodes(self.arena),
                            arena_kids(self.arena),
                            arena_nodes(st0.arena).dom(),
                            arena_nodes(pre.arena).dom(),
                            idn,
                            ei,
                        );
                        assert(subtree_list(
                            arena_nodes(self.arena),
                            arena_kids(self.arena),
                            arena_nodes(pre.arena).dom(),
                            arena_kids(self.arena)[parent].skip(klen),
                            cs.take(i as int + 1),
                        )) by {
                            assert(arena_kids(self.arena)[parent].skip(klen).drop_last()
                                =~= kids0[parent].skip(klen));
                            assert(arena_kids(self.arena)[parent].skip(klen).last() == idn);
                        }
                        assert forall|x: indextree::NodeId|
                            #[trigger] arena_kids(pre.arena).dom().contains(x) && x != parent
                            implies arena_kids(self.arena).dom().contains(x) && arena_kids(
                            self.arena,
                        )[x] == arena_kids(pre.arena)[x] by {
                            assert(kids0.dom().contains(x));
                            assert(kids0[x] == arena_kids(pre.arena)[x]);
                        }
                    }
                },
            }
            i += 1;
        }
        proof {
            assert(cs.take(n as int) =~= cs);
        }
        Ok(())
    }
}

/// What [`BulletYAMLParser::parse`] guarantees about its result on a given
/// document: the recognized root tag is required, success is owed exactly to
/// structurally valid, duplicate-free, fully resolved documents (up to
/// expression texts the grammar decides), and each error kind names a real
/// flaw of the document.
pub open spec fn parse_post(root: Element, r: Result<BulletML, ParseError>) -> bool {
    &&& (tag_kind(root.tag@) != Tag::Bulletml ==> (r matches Err(
        ParseError::UnexpectedElement(name, p),
    ) && name@ == root.tag@ && p == root.pos))
    &&& (r matches Ok(b) ==> {
        &&& root_ok(root)
        &&& dup_free(defs_of(root))
        &&& refs_sub_defs(root)
        &&& b.bullet_refs.spec_map().dom() =~= labels_in(defs_of(root), 0)
        &&& b.action_refs.spec_map().dom() =~= labels_in(defs_of(root), 1)
        &&& b.fire_refs.spec_map().dom() =~= labels_in(defs_of(root), 2)
        &&& arena_nodes(b.arena).dom().contains(b.root)
        &&& arena_nodes(b.arena)[b.root] is BulletML
        &&& arena_wf(b.arena)
        &&& arena_kids(b.arena).dom().contains(b.root)
        &&& (forall|l: Seq<char>|
            b.bullet_refs.spec_map().dom().contains(l) ==> arena_nodes(b.arena).dom().contains(
                #[trigger] b.bullet_refs.spec_map()[l],
            ) && node_defines(arena_nodes(b.arena)[b.bullet_refs.spec_map()[l]], 0, l))
        &&& (forall|l: Seq<char>|
            b.action_refs.spec_map().dom().contains(l) ==> arena_nodes(b.arena).dom().contains(
                #[trigger] b.action_refs.spec_map()[l],
            ) && node_defines(arena_nodes(b.arena)[b.action_refs.spec_map()[l]], 1, l))
        &&& (forall|l: Seq<char>|
            b.fire_refs.spec_map().dom().contains(l) ==> arena_nodes(b.arena).dom().contains(
                #[trigger] b.fire_refs.spec_map()[l],
            ) && node_defines(arena_nodes(b.arena)[b.fire_refs.spec_map()[l]], 2, l))
        &&& (arena_nodes(b.arena)[b.root] matches BulletMLNode::BulletML { bml_type } && bml_type
            == bml_type_spec(root))
        &&& arena_kids(b.arena)[b.root].len() == root.children@.len()
        &&& subtree_list(
            arena_nodes(b.arena),
            arena_kids(b.arena),
            Set::<indextree::NodeId>::empty().insert(b.root),
            arena_kids(b.arena)[b.root],
            root.children@,
        )
    })
    &&& (root_ok(root) && all_lits(root) && dup_free(defs_of(root)) && refs_sub_defs(root)
        ==> r is Ok)
    &&& (r matches Err(err) ==> match err {
        ParseError::UnexpectedElement(_, _) => !root_ok(root),
        ParseError::InvalidNumericField(_) => !all_lits(root),
        ParseError::ExpressionCapacityExceeded(_) => !all_lits(root),
        ParseError::DuplicateLabel(l, p) => !dup_free(defs_of(root)) && label_duplicated(
            defs_of(root),
            l@,
        ) && def_elem_at(root, p, l@),
        ParseError::UnresolvedReference(l, p) => ((refs_of(root).contains((0int, l@))
            && !defs_of(root).contains((0int, l@)) && ref_elem_at(root, p, 0int, l@)) || (
        refs_of(root).contains((1int, l@)) && !defs_of(root).contains((1int, l@)) && ref_elem_at(
            root,
            p,
            1int,
            l@,
        )) || (refs_of(root).contains((2int, l@)) && !defs_of(root).contains((2int, l@))
            && ref_elem_at(root, p, 2int, l@))),
        ParseError::MalformedDocument(_) => false,
    })
}

/// What `parse` guarantees about expression compilation, stated over the
/// grammar `gp`, the pool bound `cap` and the pool fill `fill` the compiler
/// entered the parse with: success is owed to every structurally valid,
/// duplicate-free, fully resolved document whose numeric fields the grammar
/// accepts, as long as their slots fit in the pool; a rejected or empty
/// field is the only source of `InvalidNumericField`; and the capacity error
/// can only mean a field was rejected or the pool genuinely lacked room.
pub open spec fn parse_pool_post(
    root: Element,
    gp: fasteval::Parser,
    cap: nat,
    fill: nat,
    r: Result<BulletML, ParseError>,
) -> bool {
    &&& (root_ok(root) && fields_ok(root, gp) && fill + need_of(root, gp) <= cap && dup_free(
        defs_of(root),
    ) && refs_sub_defs(root) ==> r is Ok)
    &&& (r is Ok ==> fields_ok(root, gp))
    &&& (r matches Err(err) ==> match err {
        ParseError::InvalidNumericField(p) => !fields_ok(root, gp) && rejected_field_at(
            root,
            gp,
            p,
        ),
        ParseError::ExpressionCapacityExceeded(p) => (!fields_ok(root, gp) || fill + need_of(
            root,
            gp,
        ) > cap) && general_field_at(root, p),
        _ => true,
    })
}

impl BulletYAMLParser {
    /// The expression pool, for evaluating compiled handles: the very pool
    /// the compiler fills, with its bound and fill.
    pub fn expression_slab(&self) -> (r: &fasteval::Slab)
        ensures
            slab_cap(*r) == self.pool_cap(),
            slab_fill(*r) == self.pool_fill(),
    {
        &self.expr_slab
    }

    /// Checks every recorded reference against its namespace's table; the
    /// first label absent from its table is reported.
    #[verifier::rlimit(60)]
    fn validate_refs(&self) -> (r: Result<(), ParseError>)
        requires
            recs_wf(self.recorded@),
        ensures
            r is Ok ==> forall|x: (int, Seq<char>)|
                self.rec_keys().contains(x) ==> self.holds_key(x),
            r matches Err(err) ==> err is UnresolvedReference,
            r matches Err(ParseError::UnresolvedReference(l, p)) ==> ((self.rec_keys().contains(
                (0int, l@),
            ) && !self.ns_dom(0).contains(l@)) || (self.rec_keys().contains((1int, l@))
                && !self.ns_dom(1).contains(l@)) || (self.rec_keys().contains((2int, l@))
                && !self.ns_dom(2).contains(l@))),
            r matches Err(ParseError::UnresolvedReference(l, p)) ==> exists|j: int|
                0 <= j < self.recorded@.len() && dangling_rec(
                    *self,
                    #[trigger] self.recorded@[j],
                    l@,
                    p,
                ),
    {
        let n = self.recorded.len();
        let mut i: usize = 0;
        while i < n
            invariant
                n == self.recorded@.len(),
                0 <= i <= n,
                recs_wf(self.recorded@),
                forall|j: int| 0 <= j < i ==> self.holds_key(rec_key(#[trigger] self.recorded@[j])),
            decreases n - i,
        {
            let rec = &self.recorded[i];
            let found = match rec.kind {
                Tag::BulletRef => self.bullet_refs.contains(rec.label.as_str()),
                Tag::ActionRef => self.action_refs.contains(rec.label.as_str()),
                Tag::FireRef => self.fire_refs.contains(rec.label.as_str()),
                _ => {
                    // Only reference kinds are ever recorded.
                    proof {
                        assert(ref_ns(self.recorded@[i as int].kind) is Some);
                        assert(false);
                    }
                    true
                },
            };
            if !found {
                proof {
                    let k = rec_key(self.recorded@[i as int]);
                    lemma_keys_of_mem(self.recorded@, k);
                    assert(self.rec_keys().contains(k));
                    assert(k.1 == self.recorded@[i as int].label@);
                    if rec.kind == Tag::BulletRef {
                        assert(k.0 == 0);
                        assert(!self.ns_dom(0).contains(k.1));
                    } else if rec.kind == Tag::ActionRef {
                        assert(k.0 == 1);
                        assert(!self.ns_dom(1).contains(k.1));
                    } else {
                        assert(k.0 == 2);
                        assert(!self.ns_dom(2).contains(k.1));
                    }
                    assert(0 <= k.0 < 3 && self.rec_keys().contains((k.0, k.1)) && !self.ns_dom(
                        k.0,
                    ).contains(k.1));
                }
                let lbl = rec.label.clone();
                proof {
                    let k = rec_key(self.recorded@[i as int]);
                    assert(lbl@ == k.1);
                    assert(self.rec_keys().contains((k.0, lbl@)));
                    assert(!self.ns_dom(k.0).contains(lbl@));
                    assert(dangling_rec(
                        *self,
                        self.recorded@[i as int],
                        lbl@,
                        self.recorded@[i as int].pos,
                    ));
                }
                return Err(ParseError::UnresolvedReference(lbl, rec.pos));
            }
            i += 1;
        }
        proof {
            assert forall|x: (int, Seq<char>)| self.rec_keys().contains(x) implies self.holds_key(
                x,
            ) by {
                lemma_keys_of_mem(self.recorded@, x);
                let j = choose|j: int|
                    0 <= j < self.recorded@.len() && rec_key(#[trigger] self.recorded@[j]) == x;
                assert(self.holds_key(rec_key(self.recorded@[j])));
            }
        }
        Ok(())
    }

    /// Parses an input document tree into a [`BulletML`] bundle. The walk is
    /// a single top-to-bottom pass: it builds arena nodes, registers labels
    /// as definitions open, records references, and compiles numeric fields;
    /// afterwards every recorded reference is validated against its table.
    /// Parsing is fail-fast: the first flaw aborts the whole parse.
    pub fn parse(self, root: &Element) -> (r: Result<BulletML, ParseError>)
        requires
            self.ready(),
            node_count(*root) <= usize::MAX,
        ensures
            parse_post(*root, r),
            parse_pool_post(*root, self.grammar(), self.pool_cap(), self.pool_fill(), r),
    {
        broadcast use vstd::set::group_set_axioms;

        let mut this = self;
        let ghost init = this;
        let kind = classify(root.tag.as_str());
        if !(kind == Tag::Bulletml) {
            return Err(ParseError::UnexpectedElement(root.tag.clone(), root.pos));
        }
        let bml_type: Option<BulletMLType> = match root.attr("type") {
            Some(v) => {
                if str_eq(v.as_str(), "vertical") {
                    Some(BulletMLType::Vertical)
                } else if str_eq(v.as_str(), "horizontal") {
                    Some(BulletMLType::Horizontal)
                } else {
                    None
                }
            },
            None => None,
        };
        proof {
            assert(arena_nodes(this.arena).dom() =~= Set::<indextree::NodeId>::empty());
            assert(arena_kids(this.arena).dom() =~= Set::<indextree::NodeId>::empty());
            assert(arena_wf(this.arena));
        }
        let root_id = arena_new_node(&mut this.arena, BulletMLNode::BulletML { bml_type });
        proof {
            assert(arena_nodes(this.arena).dom() =~= Set::<indextree::NodeId>::empty().insert(
                root_id,
            ));
            assert(arena_kids(this.arena).dom() =~= Set::<indextree::NodeId>::empty().insert(
                root_id,
            ));
            assert(arena_nodes(this.arena).dom() =~= arena_kids(this.arena).dom());
            assert forall|p: indextree::NodeId, i: int|
                arena_kids(this.arena).dom().contains(p) && 0 <= i < arena_kids(
                    this.arena,
                )[p].len() implies arena_nodes(this.arena).dom().contains(
                #[trigger] arena_kids(this.arena)[p][i],
            ) by {
                assert(arena_kids(this.arena)[p].len() == 0);
            }
            assert(arena_nodes(this.arena).dom().len() == 1);
            assert(forall|x: (int, Seq<char>)| !this.holds_key(x));
            assert(this.rec_keys() =~= Set::<(int, Seq<char>)>::empty());
        }
        let ghost st1 = this;
        let res = this.compile_children(&root.children, Tag::Bulletml, root_id);
        proof {
            assert(forall|x: (int, Seq<char>)| #[trigger] defs_of(*root).count(x) == defs_of_list(
                root.children@,
            ).count(x));
            assert(defs_of(*root) =~= defs_of_list(root.children@));
            assert(refs_of(*root) =~= refs_of_list(root.children@));
            assert(forall|x: (int, Seq<char>)| st1.holds_key(x) == init.holds_key(x));
        }
        match res {
            Err(err) => {
                proof {
                    match &err {
                        ParseError::DuplicateLabel(l2, p3) => {
                            assert(!(dup_free(defs_of_list(root.children@)) && (forall|
                                x: (int, Seq<char>),
                            |
                                defs_of_list(root.children@).contains(x) ==> !st1.holds_key(x))));
                            assert(def_elem_at_list(root.children@, *p3, l2@));
                            assert(def_elem_at(*root, *p3, l2@));
                        },
                        _ => {},
                    }
                }
                Err(err)
            },
            Ok(()) => {
                let vres = this.validate_refs();
                match vres {
                    Err(err) => {
                        proof {
                            assert(this.rec_keys() =~= refs_of(*root));
                            match &err {
                                ParseError::UnresolvedReference(l, _) => {
                                    assert(this.ns_dom(0) =~= st1.ns_dom(0).union(
                                        labels_in(defs_of_list(root.children@), 0),
                                    ));
                                    assert(this.ns_dom(1) =~= st1.ns_dom(1).union(
                                        labels_in(defs_of_list(root.children@), 1),
                                    ));
                                    assert(this.ns_dom(2) =~= st1.ns_dom(2).union(
                                        labels_in(defs_of_list(root.children@), 2),
                                    ));
                                    assert(!this.ns_dom(0).contains(l@) ==> !defs_of(
                                        *root,
                                    ).contains((0int, l@)));
                                    assert(!this.ns_dom(1).contains(l@) ==> !defs_of(
                                        *root,
                                    ).contains((1int, l@)));
                                    assert(!this.ns_dom(2).contains(l@) ==> !defs_of(
                                        *root,
                                    ).contains((2int, l@)));
                                },
                                _ => {},
                            }
                            match &err {
                                ParseError::UnresolvedReference(l, p3) => {
                                    let j = choose|j: int|
                                        0 <= j < this.recorded@.len() && dangling_rec(
                                            this,
                                            #[trigger] this.recorded@[j],
                                            l@,
                                            *p3,
                                        );
                                    let rec = this.recorded@[j];
                                    assert(ref_ns(rec.kind) is Some);
                                    let nsj: int = match ref_ns(rec.kind) {
                                        Some(n) => n,
                                        None => -1,
                                    };
                                    assert(0 <= nsj < 3);
                                    assert(st1.recorded@.len() == 0);
                                    assert(rec_elem_ok_list(rec, root.children@));
                                    assert(ref_elem_at_list(root.children@, *p3, nsj, l@));
                                    assert(ref_elem_at(*root, *p3, nsj, l@));
                                    assert(rec_key(rec) == (nsj, l@));
                                    lemma_keys_of_mem(this.recorded@, rec_key(rec));
                                    assert(this.rec_keys().contains((nsj, l@)));
                                    assert(refs_of(*root).contains((nsj, l@)));
                                    assert(!this.ns_dom(nsj).contains(l@));
                                    assert(!defs_of(*root).contains((nsj, l@)));
                                    if nsj == 0 {
                                        assert(refs_of(*root).contains((0int, l@)) && !defs_of(
                                            *root,
                                        ).contains((0int, l@)) && ref_elem_at(
                                            *root,
                                            *p3,
                                            0int,
                                            l@,
                                        ));
                                    } else if nsj == 1 {
                                        assert(refs_of(*root).contains((1int, l@)) && !defs_of(
                                            *root,
                                        ).contains((1int, l@)) && ref_elem_at(
                                            *root,
                                            *p3,
                                            1int,
                                            l@,
                                        ));
                                    } else {
                                        assert(refs_of(*root).contains((2int, l@)) && !defs_of(
                                            *root,
                                        ).contains((2int, l@)) && ref_elem_at(
                                            *root,
                                            *p3,
                                            2int,
                                            l@,
                                        ));
                                    }
                                },
                                _ => {},
                            }
                        }
                        Err(err)
                    },
                    Ok(()) => {
                        proof {
                            assert forall|x: (int, Seq<char>)| refs_of(*root).contains(x)
                                implies defs_of(*root).contains(x) by {
                                assert(this.rec_keys().contains(x));
                                assert(this.holds_key(x));
                                if !(0 <= x.0 < 3) {
                                    assert(this.ns_dom(x.0) =~= Set::<Seq<char>>::empty());
                                    assert(false);
                                }
                                assert(this.ns_dom(x.0) =~= st1.ns_dom(x.0).union(
                                    labels_in(defs_of_list(root.children@), x.0),
                                ));
                                assert(labels_in(defs_of(*root), x.0).contains(x.1));
                            }
                            assert(this.ns_dom(0) =~= labels_in(defs_of(*root), 0));
                            assert(this.ns_dom(1) =~= labels_in(defs_of(*root), 1));
                            assert(this.ns_dom(2) =~= labels_in(defs_of(*root), 2));
                            assert(arena_nodes(st1.arena).dom().contains(root_id));
                            assert(arena_nodes(this.arena)[root_id] == arena_nodes(
                                st1.arena,
                            )[root_id]);
                            assert(arena_nodes(this.arena)[root_id] is BulletML);
                            assert forall|ns: int, l: Seq<char>|
                                0 <= ns < 3 && this.ns_map(ns).dom().contains(l)
                                implies arena_nodes(this.arena).dom().contains(
                                #[trigger] this.ns_map(ns)[l],
                            ) && node_defines(
                                arena_nodes(this.arena)[this.ns_map(ns)[l]],
                                ns,
                                l,
                            ) by {
                                assert(!st1.ns_map(ns).dom().contains(l));
                            }
                            assert(this.ns_map(0) == this.bullet_refs.spec_map());
                            assert(this.ns_map(1) == this.action_refs.spec_map());
                            assert(this.ns_map(2) == this.fire_refs.spec_map());
                            assert(arena_nodes(st1.arena)[root_id] == (BulletMLNode::BulletML {
                                bml_type,
                            }));
                            assert(bml_type == bml_type_spec(*root));
                            assert(arena_kids(st1.arena)[root_id].len() == 0);
                            assert(arena_kids(this.arena)[root_id].len() == root.children@.len());
                            assert(arena_kids(this.arena)[root_id].skip(0) =~= arena_kids(
                                this.arena,
                            )[root_id]);
                            assert(subtree_list(
                                arena_nodes(this.arena),
                                arena_kids(this.arena),
                                arena_nodes(st1.arena).dom(),
                                arena_kids(this.arena)[root_id],
                                root.children@,
                            ));
                            assert(arena_nodes(st1.arena).dom()
                                =~= Set::<indextree::NodeId>::empty().insert(root_id));
                            assert(subtree_list(
                                arena_nodes(this.arena),
                                arena_kids(this.arena),
                                Set::<indextree::NodeId>::empty().insert(root_id),
                                arena_kids(this.arena)[root_id],
                                root.children@,
                            ));
                        }
                        Ok(
                            BulletML {
                                arena: this.arena,
                                root: root_id,
                                bullet_refs: this.bullet_refs,
                                action_refs: this.action_refs,
                                fire_refs: this.fire_refs,
                                expr_slab: this.expr_slab,
                            },
                        )
                    },
                }
            },
        }
    }
}

} // verus!
