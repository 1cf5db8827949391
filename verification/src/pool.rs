use vstd::prelude::*;

verus! {

#[verifier::external_type_specification]
#[verifier::external_body]
pub struct ExSlab(fasteval::Slab);

#[verifier::external_type_specification]
#[verifier::external_body]
pub struct ExParser(fasteval::Parser);

/// The fixed slot capacity `fasteval::Slab::new` requests for each of the
/// pool's stores.
pub const DEFAULT_EXPR_CAPACITY: usize = 64;

/// Why the general expression grammar refused a text: the pool's fixed
/// capacity is exhausted, or the text is not a well-formed expression.
#[derive(Clone, Copy, PartialEq, Eq, Structural, Debug)]
pub(crate) enum ExprFail {
    Capacity,
    Syntax,
}

/// The slot bound the expression pool was created with: the capacity its
/// stores were requested at, which never changes afterwards.
pub uninterp spec fn slab_cap(s: fasteval::Slab) -> nat;

/// The number of slots in use in the pool's fuller store; compiling only
/// ever adds slots, nothing is removed.
pub uninterp spec fn slab_fill(s: fasteval::Slab) -> nat;

/// The verdict of `fasteval::Parser::parse_noclear` on a text: whether the
/// grammar — its length and depth limits included — accepts it. A function
/// of the parser's limits and the characters alone.
pub uninterp spec fn expr_ok(p: fasteval::Parser, text: Seq<char>) -> bool;

/// The other face of the same call: how many pool slots a successful
/// compilation of the text consumes, again a function of the parser and the
/// characters alone.
pub uninterp spec fn expr_slots(p: fasteval::Parser, text: Seq<char>) -> nat;

/// Relies on `fasteval::Parser::new`: an expression parser with the default
/// length and depth limits.
#[verifier::external_body]
pub(crate) fn parser_new() -> fasteval::Parser {
    fasteval::Parser::new()
}

/// Relies on `fasteval::Slab::new`: a fresh, empty expression pool; the
/// source requests the default capacity for its stores.
#[verifier::external_body]
pub(crate) fn slab_new() -> (res: fasteval::Slab)
    ensures
        slab_cap(res) == DEFAULT_EXPR_CAPACITY,
        slab_fill(res) == 0,
{
    fasteval::Slab::new()
}

/// Relies on `fasteval::Slab::with_capacity`: a fresh, empty expression pool
/// whose stores are requested at the given fixed capacity, which cannot grow
/// afterwards.
#[verifier::external_body]
pub(crate) fn slab_with_capacity(cap: usize) -> (res: fasteval::Slab)
    ensures
        slab_cap(res) == cap,
        slab_fill(res) == 0,
{
    fasteval::Slab::with_capacity(cap)
}

/// Relies on `fasteval::Parser::parse_noclear`: compiles a text through the
/// general expression grammar into the pool, returning a handle valid for
/// that pool. The contract states what the source shows: the pool's bound
/// never changes and its fill never shrinks; success means the grammar
/// accepted the text and consumed at most its slot count; `SlabOverflow`
/// (mapped to `Capacity`) is returned only once a store's fill has reached
/// the requested bound, and every other error (mapped to `Syntax`) reports a
/// text the grammar — its length and depth limits included — rejects; and a
/// text the grammar accepts compiles whenever its slots still fit under the
/// bound, since the stores hold at least what was requested. The body only
/// maps the outside error onto [`ExprFail`] and hands the handle out as its
/// index.
#[verifier::external_body]
pub(crate) fn parse_expr(parser: &fasteval::Parser, slab: &mut fasteval::Slab, text: &str) -> (r:
    Result<usize, ExprFail>)
    ensures
        slab_cap(*final(slab)) == slab_cap(*old(slab)),
        slab_fill(*final(slab)) >= slab_fill(*old(slab)),
        r matches Ok(_) ==> expr_ok(*parser, text@) && slab_fill(*final(slab)) <= slab_fill(
            *old(slab),
        ) + expr_slots(*parser, text@),
        r matches Err(f) ==> match f {
            ExprFail::Syntax => !expr_ok(*parser, text@),
            ExprFail::Capacity => slab_fill(*final(slab)) >= slab_cap(*old(slab)),
        },
        expr_ok(*parser, text@) && slab_fill(*old(slab)) + expr_slots(*parser, text@) <= slab_cap(
            *old(slab),
        ) ==> r is Ok,
{
    match parser.parse_noclear(text, &mut slab.ps) {
        Ok(i) => Ok(i.0),
        Err(fasteval::Error::SlabOverflow) => Err(ExprFail::Capacity),
        Err(_) => Err(ExprFail::Syntax),
    }
}

} // verus!
