use vstd::prelude::*;
use crate::docspec::{
    all_lits, defs_of, dup_free, fields_ok, general_field_at, label_duplicated, labels_in,
    lemma_all_lits_fields, need_of, refs_of, refs_sub_defs, rejected_field_at, root_ok,
};
use crate::elem::Element;
use crate::errors::ParseError;
use crate::parse::{parse_pool_post, parse_post};
use crate::tags::{tag_kind, Tag};
use crate::arena::arena_nodes;
use crate::tree::{node_defines, BulletML};

verus! {

/// A document whose outermost element is not the recognized root tag is
/// rejected with `UnexpectedElement` naming that tag and its position.
pub proof fn lemma_wrong_root_tag(root: Element, r: Result<BulletML, ParseError>)
    requires
        parse_post(root, r),
        tag_kind(root.tag@) != Tag::Bulletml,
    ensures
        (r matches Err(ParseError::UnexpectedElement(name, p)) && name@ == root.tag@ && p
            == root.pos),
{
}

/// Two definitions sharing a label in the same namespace make parsing fail
/// with `DuplicateLabel`, even when the two definitions are structurally
/// identical and the document is otherwise valid.
pub proof fn lemma_duplicate_label_fails(root: Element, r: Result<BulletML, ParseError>)
    requires
        parse_post(root, r),
        root_ok(root),
        all_lits(root),
        refs_sub_defs(root),
        !dup_free(defs_of(root)),
    ensures
        r matches Err(ParseError::DuplicateLabel(_, _)),
        r matches Err(ParseError::DuplicateLabel(l, _)) ==> label_duplicated(defs_of(root), l@),
{
    match r {
        Ok(_) => {
            assert(false);
        },
        Err(err) => {
            match err {
                ParseError::UnresolvedReference(l, _) => {
                    assert(false);
                },
                _ => {},
            }
        },
    }
}

/// A label reused across two different namespaces does not conflict: when a
/// bullet and an action share a label in an otherwise valid document,
/// parsing succeeds and each namespace's table holds the label.
pub proof fn lemma_label_shared_across_namespaces(
    root: Element,
    r: Result<BulletML, ParseError>,
    l: Seq<char>,
)
    requires
        parse_post(root, r),
        root_ok(root),
        all_lits(root),
        dup_free(defs_of(root)),
        refs_sub_defs(root),
        defs_of(root).contains((0int, l)),
        defs_of(root).contains((1int, l)),
    ensures
        r is Ok,
        r matches Ok(b) ==> b.bullet_refs.spec_map().dom().contains(l),
        r matches Ok(b) ==> b.action_refs.spec_map().dom().contains(l),
        r matches Ok(b) ==> node_defines(
            arena_nodes(b.arena)[b.bullet_refs.spec_map()[l]],
            0,
            l,
        ),
        r matches Ok(b) ==> node_defines(
            arena_nodes(b.arena)[b.action_refs.spec_map()[l]],
            1,
            l,
        ),
{
    match r {
        Ok(b) => {
            assert(labels_in(defs_of(root), 0).contains(l));
            assert(labels_in(defs_of(root), 1).contains(l));
        },
        Err(_) => {},
    }
}

/// Forward references are legal: with the referenced label defined anywhere
/// in an otherwise valid document — before or after the reference in
/// document order — parsing succeeds and the reference resolves through its
/// namespace's table.
pub proof fn lemma_forward_reference(
    root: Element,
    r: Result<BulletML, ParseError>,
    ns: int,
    l: Seq<char>,
)
    requires
        parse_post(root, r),
        root_ok(root),
        all_lits(root),
        dup_free(defs_of(root)),
        refs_sub_defs(root),
        0 <= ns < 3,
        refs_of(root).contains((ns, l)),
    ensures
        r is Ok,
        r matches Ok(b) ==> (ns == 0 ==> b.bullet_refs.spec_map().dom().contains(l)
            && node_defines(arena_nodes(b.arena)[b.bullet_refs.spec_map()[l]], 0, l)),
        r matches Ok(b) ==> (ns == 1 ==> b.action_refs.spec_map().dom().contains(l)
            && node_defines(arena_nodes(b.arena)[b.action_refs.spec_map()[l]], 1, l)),
        r matches Ok(b) ==> (ns == 2 ==> b.fire_refs.spec_map().dom().contains(l)
            && node_defines(arena_nodes(b.arena)[b.fire_refs.spec_map()[l]], 2, l)),
{
    assert(defs_of(root).contains((ns, l)));
    match r {
        Ok(b) => {
            assert(labels_in(defs_of(root), ns).contains(l));
        },
        Err(_) => {},
    }
}

/// A reference to a label never defined in its namespace makes parsing fail
/// with `UnresolvedReference`, and the label that the error names is itself
/// a referenced, undefined label.
pub proof fn lemma_unresolved_reference(
    root: Element,
    r: Result<BulletML, ParseError>,
    ns: int,
    l: Seq<char>,
)
    requires
        parse_post(root, r),
        root_ok(root),
        all_lits(root),
        dup_free(defs_of(root)),
        0 <= ns < 3,
        refs_of(root).contains((ns, l)),
        !defs_of(root).contains((ns, l)),
    ensures
        r matches Err(err) ==> err is UnresolvedReference,
        r is Err,
        r matches Err(ParseError::UnresolvedReference(m, _)) ==> ((refs_of(root).contains(
            (0int, m@),
        ) && !defs_of(root).contains((0int, m@))) || (refs_of(root).contains((1int, m@))
            && !defs_of(root).contains((1int, m@))) || (refs_of(root).contains((2int, m@))
            && !defs_of(root).contains((2int, m@)))),
{
    match r {
        Ok(_) => {
            assert(false);
        },
        Err(err) => {
            match err {
                ParseError::UnexpectedElement(_, _) => {
                    assert(false);
                },
                ParseError::InvalidNumericField(_) => {
                    assert(false);
                },
                ParseError::ExpressionCapacityExceeded(_) => {
                    assert(false);
                },
                ParseError::DuplicateLabel(_, _) => {
                    assert(false);
                },
                ParseError::MalformedDocument(_) => {
                    assert(false);
                },
                ParseError::UnresolvedReference(_, _) => {},
            }
        },
    }
}

/// A bad numeric field is reported as `InvalidNumericField` at that field's
/// position: when the document's one flawed numeric field — empty or
/// grammar-rejected — stands at position `q` and every other numeric field
/// is a plain literal, parsing fails with exactly that error at `q`.
pub proof fn lemma_invalid_field_position(
    root: Element,
    gp: fasteval::Parser,
    cap: nat,
    fill: nat,
    r: Result<BulletML, ParseError>,
    q: u32,
)
    requires
        parse_post(root, r),
        parse_pool_post(root, gp, cap, fill, r),
        root_ok(root),
        dup_free(defs_of(root)),
        refs_sub_defs(root),
        !fields_ok(root, gp),
        forall|p: u32| #[trigger] rejected_field_at(root, gp, p) ==> p == q,
        forall|p: u32| !(#[trigger] general_field_at(root, p)),
    ensures
        r is Err,
        r matches Err(err) ==> err == ParseError::InvalidNumericField(q),
{
    match r {
        Ok(_) => {
            assert(false);
        },
        Err(err) => {
            match err {
                ParseError::UnexpectedElement(_, _) => {
                    assert(false);
                },
                ParseError::DuplicateLabel(_, _) => {
                    assert(false);
                },
                ParseError::UnresolvedReference(l, _) => {
                    assert(false);
                },
                ParseError::ExpressionCapacityExceeded(p) => {
                    assert(general_field_at(root, p));
                    assert(false);
                },
                ParseError::MalformedDocument(_) => {
                    assert(false);
                },
                ParseError::InvalidNumericField(p) => {
                    assert(rejected_field_at(root, gp, p));
                    assert(p == q);
                },
            }
        },
    }
}

/// Exhausting the expression pool is a resource error, distinct from syntax
/// failures: the only error a structurally valid, duplicate-free, fully
/// resolved document with grammar-accepted numeric fields can hit is
/// `ExpressionCapacityExceeded`, and only when the fields' slots genuinely
/// exceed the pool's remaining room.
pub proof fn lemma_capacity_is_resource_error(
    root: Element,
    gp: fasteval::Parser,
    cap: nat,
    fill: nat,
    r: Result<BulletML, ParseError>,
)
    requires
        parse_post(root, r),
        parse_pool_post(root, gp, cap, fill, r),
        root_ok(root),
        fields_ok(root, gp),
        dup_free(defs_of(root)),
        refs_sub_defs(root),
    ensures
        r matches Err(err) ==> err is ExpressionCapacityExceeded,
        r is Err ==> fill + need_of(root, gp) > cap,
{
    match r {
        Ok(_) => {},
        Err(err) => {
            match err {
                ParseError::UnexpectedElement(_, _) => {
                    assert(false);
                },
                ParseError::DuplicateLabel(_, _) => {
                    assert(false);
                },
                ParseError::UnresolvedReference(l, _) => {
                    assert(false);
                },
                ParseError::InvalidNumericField(_) => {
                    assert(false);
                },
                ParseError::MalformedDocument(_) => {
                    assert(false);
                },
                ParseError::ExpressionCapacityExceeded(_) => {},
            }
        },
    }
}

/// An all-literal document is the easy instance of the general success
/// condition: every numeric field is valid under any grammar and no pool
/// slot is needed, so such documents parse on any pool, however small.
pub proof fn lemma_all_literal_documents_fit(root: Element, gp: fasteval::Parser)
    requires
        all_lits(root),
    ensures
        fields_ok(root, gp),
        need_of(root, gp) == 0,
{
    lemma_all_lits_fields(root, gp);
}

} // verus!
