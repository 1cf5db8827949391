use vstd::prelude::*;
use vstd::multiset::Multiset;
use crate::elem::{Element, attr_spec};
use crate::tags::{Tag, tag_kind, child_allowed_spec, is_numeric_kind, def_ns, ref_ns};
use crate::lit::is_lit;
use crate::pool::{expr_ok, expr_slots};

verus! {

broadcast use vstd::multiset::group_multiset_axioms;

/// The label a template definition registers, if it carries one.
pub open spec fn def_label(e: Element) -> Option<Seq<char>> {
    attr_spec(e.attrs@, "label"@)
}

/// The label a reference resolves; an absent attribute reads as the empty
/// label.
pub open spec fn ref_label(e: Element) -> Seq<char> {
    match attr_spec(e.attrs@, "label"@) {
        Some(l) => l,
        None => Seq::empty(),
    }
}

/// Structural validity of one element under its parent kind: its tag is
/// admitted there, and so on recursively for its children under its own kind.
pub open spec fn elem_ok(e: Element, ctx: Tag) -> bool
    decreases e, 1int,
{
    &&& child_allowed_spec(ctx, tag_kind(e.tag@))
    &&& list_ok(e.children@, tag_kind(e.tag@))
}

/// Structural validity of a sequence of sibling elements.
pub open spec fn list_ok(s: Seq<Element>, ctx: Tag) -> bool
    decreases s, 0int,
{
    if s.len() == 0 {
        true
    } else {
        list_ok(s.drop_last(), ctx) && elem_ok(s.last(), ctx)
    }
}

/// Every numeric field in the subtree is a plain decimal literal, so no field
/// needs the general expression grammar.
pub open spec fn all_lits(e: Element) -> bool
    decreases e, 1int,
{
    &&& (is_numeric_kind(tag_kind(e.tag@)) ==> is_lit(e.text@))
    &&& all_lits_list(e.children@)
}

/// [`all_lits`] over a sequence of siblings.
pub open spec fn all_lits_list(s: Seq<Element>) -> bool
    decreases s, 0int,
{
    if s.len() == 0 {
        true
    } else {
        all_lits_list(s.drop_last()) && all_lits(s.last())
    }
}

/// The labels a subtree defines, with their namespaces, counted with
/// multiplicity; a duplicate definition shows up as a count of two.
pub open spec fn defs_of(e: Element) -> Multiset<(int, Seq<char>)>
    decreases e, 1int,
{
    let own: Multiset<(int, Seq<char>)> = match def_ns(tag_kind(e.tag@)) {
        Some(ns) => match def_label(e) {
            Some(l) => Multiset::singleton((ns, l)),
            None => Multiset::empty(),
        },
        None => Multiset::empty(),
    };
    own.add(defs_of_list(e.children@))
}

/// [`defs_of`] over a sequence of siblings.
pub open spec fn defs_of_list(s: Seq<Element>) -> Multiset<(int, Seq<char>)>
    decreases s, 0int,
{
    if s.len() == 0 {
        Multiset::empty()
    } else {
        defs_of_list(s.drop_last()).add(defs_of(s.last()))
    }
}

/// The labels a subtree references, with their namespaces.
pub open spec fn refs_of(e: Element) -> Set<(int, Seq<char>)>
    decreases e, 1int,
{
    let own: Set<(int, Seq<char>)> = match ref_ns(tag_kind(e.tag@)) {
        Some(ns) => Set::empty().insert((ns, ref_label(e))),
        None => Set::empty(),
    };
    own.union(refs_of_list(e.children@))
}

/// [`refs_of`] over a sequence of siblings.
pub open spec fn refs_of_list(s: Seq<Element>) -> Set<(int, Seq<char>)>
    decreases s, 0int,
{
    if s.len() == 0 {
        Set::empty()
    } else {
        refs_of_list(s.drop_last()).union(refs_of(s.last()))
    }
}

/// The number of elements in the subtree, each of which becomes one arena
/// node.
pub open spec fn node_count(e: Element) -> nat
    decreases e, 1int,
{
    1 + count_list(e.children@)
}

/// [`node_count`] over a sequence of siblings.
pub open spec fn count_list(s: Seq<Element>) -> nat
    decreases s, 0int,
{
    if s.len() == 0 {
        0
    } else {
        count_list(s.drop_last()) + node_count(s.last())
    }
}

/// No namespace defines any label twice.
pub open spec fn dup_free(m: Multiset<(int, Seq<char>)>) -> bool {
    forall|x: (int, Seq<char>)| #[trigger] m.count(x) <= 1
}

/// The labels a definition multiset puts into one namespace.
pub open spec fn labels_in(m: Multiset<(int, Seq<char>)>, ns: int) -> Set<Seq<char>> {
    Set::new(|l: Seq<char>| m.contains((ns, l)))
}

/// Every referenced label is defined in its namespace.
pub open spec fn refs_sub_defs(e: Element) -> bool {
    forall|x: (int, Seq<char>)| refs_of(e).contains(x) ==> defs_of(e).contains(x)
}

/// One element's own numeric field, if it has one, is nonempty and either a
/// plain literal or accepted by the general grammar of parser `p`.
pub open spec fn field_ok(e: Element, p: fasteval::Parser) -> bool {
    is_numeric_kind(tag_kind(e.tag@)) ==> e.text@.len() > 0 && (is_lit(e.text@) || expr_ok(
        p,
        e.text@,
    ))
}

/// Every numeric field in the subtree is nonempty and either a plain
/// literal or accepted by the general grammar of parser `p`.
pub open spec fn fields_ok(e: Element, p: fasteval::Parser) -> bool
    decreases e, 1int,
{
    &&& field_ok(e, p)
    &&& fields_ok_list(e.children@, p)
}

/// [`fields_ok`] over a sequence of siblings.
pub open spec fn fields_ok_list(s: Seq<Element>, p: fasteval::Parser) -> bool
    decreases s, 0int,
{
    if s.len() == 0 {
        true
    } else {
        fields_ok_list(s.drop_last(), p) && fields_ok(s.last(), p)
    }
}

/// The pool slots the subtree's non-literal numeric fields consume under
/// parser `p`; literal fields take the fast path and consume none.
pub open spec fn need_of(e: Element, p: fasteval::Parser) -> nat
    decreases e, 1int,
{
    (if is_numeric_kind(tag_kind(e.tag@)) && !is_lit(e.text@) {
        expr_slots(p, e.text@)
    } else {
        0
    }) + need_list(e.children@, p)
}

/// [`need_of`] over a sequence of siblings.
pub open spec fn need_list(s: Seq<Element>, p: fasteval::Parser) -> nat
    decreases s, 0int,
{
    if s.len() == 0 {
        0
    } else {
        need_list(s.drop_last(), p) + need_of(s.last(), p)
    }
}

/// The element's own numeric field is empty or rejected by the grammar of
/// parser `p`, the two sources of `InvalidNumericField`.
pub open spec fn field_rejected(e: Element, p: fasteval::Parser) -> bool {
    is_numeric_kind(tag_kind(e.tag@)) && (e.text@.len() == 0 || (!is_lit(e.text@) && !expr_ok(
        p,
        e.text@,
    )))
}

/// Somewhere in the subtree, a numeric field at position `q` is empty or
/// rejected by the grammar of parser `p`.
pub open spec fn rejected_field_at(e: Element, p: fasteval::Parser, q: u32) -> bool
    decreases e, 1int,
{
    ||| (field_rejected(e, p) && e.pos == q)
    ||| rejected_field_at_list(e.children@, p, q)
}

/// [`rejected_field_at`] over a sequence of siblings.
pub open spec fn rejected_field_at_list(s: Seq<Element>, p: fasteval::Parser, q: u32) -> bool
    decreases s, 0int,
{
    if s.len() == 0 {
        false
    } else {
        rejected_field_at_list(s.drop_last(), p, q) || rejected_field_at(s.last(), p, q)
    }
}

/// Somewhere in the subtree, a nonempty non-literal numeric field stands at
/// position `q`: one the general grammar is asked to compile.
pub open spec fn general_field_at(e: Element, q: u32) -> bool
    decreases e, 1int,
{
    ||| (is_numeric_kind(tag_kind(e.tag@)) && e.text@.len() > 0 && !is_lit(e.text@) && e.pos == q)
    ||| general_field_at_list(e.children@, q)
}

/// [`general_field_at`] over a sequence of siblings.
pub open spec fn general_field_at_list(s: Seq<Element>, q: u32) -> bool
    decreases s, 0int,
{
    if s.len() == 0 {
        false
    } else {
        general_field_at_list(s.drop_last(), q) || general_field_at(s.last(), q)
    }
}

/// A member's rejected field is the sequence's rejected field.
pub proof fn lemma_rejected_at_index(s: Seq<Element>, p: fasteval::Parser, q: u32, i: int)
    requires
        0 <= i < s.len(),
        rejected_field_at(s[i], p, q),
    ensures
        rejected_field_at_list(s, p, q),
    decreases s.len(),
{
    assert(s.last() == s[s.len() - 1]);
    if i < s.len() - 1 {
        assert(forall|j: int| 0 <= j < s.len() - 1 ==> (#[trigger] s.drop_last()[j]) == s[j]);
        lemma_rejected_at_index(s.drop_last(), p, q, i);
    }
}

/// A member's general field is the sequence's general field.
pub proof fn lemma_general_at_index(s: Seq<Element>, q: u32, i: int)
    requires
        0 <= i < s.len(),
        general_field_at(s[i], q),
    ensures
        general_field_at_list(s, q),
    decreases s.len(),
{
    assert(s.last() == s[s.len() - 1]);
    if i < s.len() - 1 {
        assert(forall|j: int| 0 <= j < s.len() - 1 ==> (#[trigger] s.drop_last()[j]) == s[j]);
        lemma_general_at_index(s.drop_last(), q, i);
    }
}

/// Somewhere in the subtree, a template definition bearing label `l` stands
/// at position `q`.
pub open spec fn def_elem_at(e: Element, q: u32, l: Seq<char>) -> bool
    decreases e, 1int,
{
    ||| (def_ns(tag_kind(e.tag@)) is Some && def_label(e) == Some(l) && e.pos == q)
    ||| def_elem_at_list(e.children@, q, l)
}

/// [`def_elem_at`] over a sequence of siblings.
pub open spec fn def_elem_at_list(s: Seq<Element>, q: u32, l: Seq<char>) -> bool
    decreases s, 0int,
{
    if s.len() == 0 {
        false
    } else {
        def_elem_at_list(s.drop_last(), q, l) || def_elem_at(s.last(), q, l)
    }
}

/// A member's definition is the sequence's definition.
pub proof fn lemma_def_at_index(s: Seq<Element>, q: u32, l: Seq<char>, i: int)
    requires
        0 <= i < s.len(),
        def_elem_at(s[i], q, l),
    ensures
        def_elem_at_list(s, q, l),
    decreases s.len(),
{
    assert(s.last() == s[s.len() - 1]);
    if i < s.len() - 1 {
        assert(forall|j: int| 0 <= j < s.len() - 1 ==> (#[trigger] s.drop_last()[j]) == s[j]);
        lemma_def_at_index(s.drop_last(), q, l, i);
    }
}

/// Somewhere in the subtree, a reference into namespace `ns` bearing label
/// `l` stands at position `q`.
pub open spec fn ref_elem_at(e: Element, q: u32, ns: int, l: Seq<char>) -> bool
    decreases e, 1int,
{
    ||| (ref_ns(tag_kind(e.tag@)) == Some(ns) && ref_label(e) == l && e.pos == q)
    ||| ref_elem_at_list(e.children@, q, ns, l)
}

/// [`ref_elem_at`] over a sequence of siblings.
pub open spec fn ref_elem_at_list(s: Seq<Element>, q: u32, ns: int, l: Seq<char>) -> bool
    decreases s, 0int,
{
    if s.len() == 0 {
        false
    } else {
        ref_elem_at_list(s.drop_last(), q, ns, l) || ref_elem_at(s.last(), q, ns, l)
    }
}

/// A member's reference is the sequence's reference.
pub proof fn lemma_ref_at_index(s: Seq<Element>, q: u32, ns: int, l: Seq<char>, i: int)
    requires
        0 <= i < s.len(),
        ref_elem_at(s[i], q, ns, l),
    ensures
        ref_elem_at_list(s, q, ns, l),
    decreases s.len(),
{
    assert(s.last() == s[s.len() - 1]);
    if i < s.len() - 1 {
        assert(forall|j: int| 0 <= j < s.len() - 1 ==> (#[trigger] s.drop_last()[j]) == s[j]);
        lemma_ref_at_index(s.drop_last(), q, ns, l, i);
    }
}

/// Some namespace defines the label at least twice.
pub open spec fn label_duplicated(m: Multiset<(int, Seq<char>)>, l: Seq<char>) -> bool {
    m.count((0int, l)) >= 2 || m.count((1int, l)) >= 2 || m.count((2int, l)) >= 2
}

/// A document whose root is the recognized root tag and whose body is
/// structurally valid.
pub open spec fn root_ok(e: Element) -> bool {
    &&& tag_kind(e.tag@) == Tag::Bulletml
    &&& list_ok(e.children@, Tag::Bulletml)
}

// Stepping a sibling prefix by one element: each of the subtree measures
// distributes over it.

pub proof fn lemma_ok_take_step(s: Seq<Element>, ctx: Tag, i: int)
    requires
        0 <= i < s.len(),
    ensures
        list_ok(s.take(i + 1), ctx) == (list_ok(s.take(i), ctx) && elem_ok(s[i], ctx)),
{
    assert(s.take(i + 1).drop_last() =~= s.take(i));
    assert(s.take(i + 1).last() == s[i]);
}

pub proof fn lemma_defs_take_step(s: Seq<Element>, i: int)
    requires
        0 <= i < s.len(),
    ensures
        defs_of_list(s.take(i + 1)) == defs_of_list(s.take(i)).add(defs_of(s[i])),
{
    assert(s.take(i + 1).drop_last() =~= s.take(i));
    assert(s.take(i + 1).last() == s[i]);
}

pub proof fn lemma_refs_take_step(s: Seq<Element>, i: int)
    requires
        0 <= i < s.len(),
    ensures
        refs_of_list(s.take(i + 1)) == refs_of_list(s.take(i)).union(refs_of(s[i])),
{
    assert(s.take(i + 1).drop_last() =~= s.take(i));
    assert(s.take(i + 1).last() == s[i]);
}

pub proof fn lemma_count_take_step(s: Seq<Element>, i: int)
    requires
        0 <= i < s.len(),
    ensures
        count_list(s.take(i + 1)) == count_list(s.take(i)) + node_count(s[i]),
{
    assert(s.take(i + 1).drop_last() =~= s.take(i));
    assert(s.take(i + 1).last() == s[i]);
}

/// A prefix of siblings never counts more nodes than the whole sequence.
pub proof fn lemma_count_take_le(s: Seq<Element>, i: int)
    requires
        0 <= i <= s.len(),
    ensures
        count_list(s.take(i)) <= count_list(s),
    decreases s.len() - i,
{
    if i == s.len() {
        assert(s.take(i) =~= s);
    } else {
        lemma_count_take_step(s, i);
        lemma_count_take_le(s, i + 1);
    }
}

pub proof fn lemma_fields_take_step(s: Seq<Element>, p: fasteval::Parser, i: int)
    requires
        0 <= i < s.len(),
    ensures
        fields_ok_list(s.take(i + 1), p) == (fields_ok_list(s.take(i), p) && fields_ok(s[i], p)),
{
    assert(s.take(i + 1).drop_last() =~= s.take(i));
    assert(s.take(i + 1).last() == s[i]);
}

pub proof fn lemma_need_take_step(s: Seq<Element>, p: fasteval::Parser, i: int)
    requires
        0 <= i < s.len(),
    ensures
        need_list(s.take(i + 1), p) == need_list(s.take(i), p) + need_of(s[i], p),
{
    assert(s.take(i + 1).drop_last() =~= s.take(i));
    assert(s.take(i + 1).last() == s[i]);
}

/// A prefix of siblings never needs more pool slots than the whole sequence.
pub proof fn lemma_need_take_le(s: Seq<Element>, p: fasteval::Parser, i: int)
    requires
        0 <= i <= s.len(),
    ensures
        need_list(s.take(i), p) <= need_list(s, p),
    decreases s.len() - i,
{
    if i == s.len() {
        assert(s.take(i) =~= s);
    } else {
        lemma_need_take_step(s, p, i);
        lemma_need_take_le(s, p, i + 1);
    }
}

/// A sibling sequence with valid fields has members with valid fields.
pub proof fn lemma_fields_index(s: Seq<Element>, p: fasteval::Parser, i: int)
    requires
        fields_ok_list(s, p),
        0 <= i < s.len(),
    ensures
        fields_ok(s[i], p),
    decreases s.len(),
{
    assert(s.last() == s[s.len() - 1]);
    if i < s.len() - 1 {
        assert(forall|j: int| 0 <= j < s.len() - 1 ==> (#[trigger] s.drop_last()[j]) == s[j]);
        lemma_fields_index(s.drop_last(), p, i);
    }
}

/// A subtree whose numeric fields are all plain literals has valid fields
/// and needs no pool slot under any grammar.
pub proof fn lemma_all_lits_fields(e: Element, p: fasteval::Parser)
    requires
        all_lits(e),
    ensures
        fields_ok(e, p),
        need_of(e, p) == 0,
    decreases e, 1int,
{
    lemma_all_lits_fields_list(e.children@, p);
}

/// [`lemma_all_lits_fields`] over a sequence of siblings.
pub proof fn lemma_all_lits_fields_list(s: Seq<Element>, p: fasteval::Parser)
    requires
        all_lits_list(s),
    ensures
        fields_ok_list(s, p),
        need_list(s, p) == 0,
    decreases s, 0int,
{
    if s.len() > 0 {
        lemma_all_lits_fields_list(s.drop_last(), p);
        lemma_all_lits_fields(s.last(), p);
    }
}

/// A structurally valid sibling sequence has structurally valid members.
pub proof fn lemma_list_ok_index(s: Seq<Element>, ctx: Tag, i: int)
    requires
        list_ok(s, ctx),
        0 <= i < s.len(),
    ensures
        elem_ok(s[i], ctx),
    decreases s.len(),
{
    assert(s.last() == s[s.len() - 1]);
    if i < s.len() - 1 {
        assert(forall|j: int| 0 <= j < s.len() - 1 ==> (#[trigger] s.drop_last()[j]) == s[j]);
        lemma_list_ok_index(s.drop_last(), ctx, i);
    }
}

/// An all-literal sibling sequence has all-literal members.
pub proof fn lemma_lits_index(s: Seq<Element>, i: int)
    requires
        all_lits_list(s),
        0 <= i < s.len(),
    ensures
        all_lits(s[i]),
    decreases s.len(),
{
    assert(s.last() == s[s.len() - 1]);
    if i < s.len() - 1 {
        assert(forall|j: int| 0 <= j < s.len() - 1 ==> (#[trigger] s.drop_last()[j]) == s[j]);
        lemma_lits_index(s.drop_last(), i);
    }
}

/// Definitions only ever target the three template namespaces.
pub proof fn lemma_defs_ns_range(e: Element)
    ensures
        forall|x: (int, Seq<char>)| #[trigger] defs_of(e).contains(x) ==> 0 <= x.0 < 3,
    decreases e, 1int,
{
    lemma_defs_ns_range_list(e.children@);
    assert forall|x: (int, Seq<char>)| #[trigger] defs_of(e).contains(x) implies 0 <= x.0 < 3 by {
        let own: Multiset<(int, Seq<char>)> = match def_ns(tag_kind(e.tag@)) {
            Some(ns) => match def_label(e) {
                Some(l) => Multiset::singleton((ns, l)),
                None => Multiset::empty(),
            },
            None => Multiset::empty(),
        };
        assert(defs_of(e).count(x) == own.count(x) + defs_of_list(e.children@).count(x));
        if own.count(x) == 0 {
            assert(defs_of_list(e.children@).contains(x));
        }
        if own.count(x) > 0 {
            match def_ns(tag_kind(e.tag@)) {
                Some(ns) => {
                    match def_label(e) {
                        Some(l) => {
                            assert(x == (ns, l));
                        },
                        None => {},
                    }
                },
                None => {},
            }
        }
    }
}

/// [`lemma_defs_ns_range`] over a sequence of siblings.
pub proof fn lemma_defs_ns_range_list(s: Seq<Element>)
    ensures
        forall|x: (int, Seq<char>)| #[trigger] defs_of_list(s).contains(x) ==> 0 <= x.0 < 3,
    decreases s, 0int,
{
    if s.len() > 0 {
        lemma_defs_ns_range_list(s.drop_last());
        lemma_defs_ns_range(s.last());
        assert forall|x: (int, Seq<char>)| #[trigger] defs_of_list(s).contains(x) implies 0 <= x.0
            < 3 by {
            assert(defs_of_list(s).count(x) == defs_of_list(s.drop_last()).count(x) + defs_of(
                s.last(),
            ).count(x));
            if defs_of_list(s.drop_last()).count(x) > 0 {
                assert(defs_of_list(s.drop_last()).contains(x));
            } else {
                assert(defs_of(s.last()).contains(x));
            }
        }
    }
}

/// A prefix of siblings never defines a label more often than the whole
/// sequence.
pub proof fn lemma_defs_take_le(s: Seq<Element>, i: int)
    requires
        0 <= i <= s.len(),
    ensures
        forall|x: (int, Seq<char>)| #[trigger] defs_of_list(s.take(i)).count(x) <= defs_of_list(
            s,
        ).count(x),
    decreases s.len() - i,
{
    if i == s.len() {
        assert(s.take(i) =~= s);
    } else {
        lemma_defs_take_step(s, i);
        lemma_defs_take_le(s, i + 1);
        assert forall|x: (int, Seq<char>)| #[trigger] defs_of_list(s.take(i)).count(x)
            <= defs_of_list(s).count(x) by {
            assert(defs_of_list(s.take(i + 1)).count(x) == defs_of_list(s.take(i)).count(x)
                + defs_of(s[i]).count(x));
            assert(defs_of_list(s.take(i + 1)).count(x) <= defs_of_list(s).count(x));
        }
    }
}

/// Splitting a disjoint union: it is duplicate-free exactly when both sides
/// are and no key is shared.
pub proof fn lemma_dup_free_add(a: Multiset<(int, Seq<char>)>, b: Multiset<(int, Seq<char>)>)
    ensures
        dup_free(a.add(b)) <==> (dup_free(a) && dup_free(b) && (forall|x: (int, Seq<char>)|
            !(#[trigger] a.contains(x) && b.contains(x)))),
{
    assert(forall|x: (int, Seq<char>)| #[trigger] a.add(b).count(x) == a.count(x) + b.count(x));
    if dup_free(a.add(b)) {
        assert forall|x: (int, Seq<char>)| #[trigger] a.count(x) <= 1 by {
            assert(a.add(b).count(x) <= 1);
        }
        assert forall|x: (int, Seq<char>)| #[trigger] b.count(x) <= 1 by {
            assert(a.add(b).count(x) <= 1);
        }
        assert forall|x: (int, Seq<char>)| !(#[trigger] a.contains(x) && b.contains(x)) by {
            assert(a.add(b).count(x) <= 1);
        }
    }
    if dup_free(a) && dup_free(b) && (forall|x: (int, Seq<char>)| !(#[trigger] a.contains(x)
        && b.contains(x))) {
        assert forall|x: (int, Seq<char>)| #[trigger] a.add(b).count(x) <= 1 by {
            assert(a.count(x) <= 1);
            assert(b.count(x) <= 1);
            assert(!(a.contains(x) && b.contains(x)));
        }
    }
}

/// A label defined in one namespace by a disjoint-union part is defined by
/// the whole.
pub proof fn lemma_labels_in_add(a: Multiset<(int, Seq<char>)>, b: Multiset<(int, Seq<char>)>, ns: int)
    ensures
        labels_in(a.add(b), ns) =~= labels_in(a, ns).union(labels_in(b, ns)),
{
    assert(forall|x: (int, Seq<char>)| #[trigger] a.add(b).count(x) == a.count(x) + b.count(x));
}

} // verus!
