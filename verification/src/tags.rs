use vstd::prelude::*;
use crate::strutil::str_eq;

verus! {

/// The directive kinds of the bullet-pattern grammar, one per recognized tag,
/// plus `Unknown` for anything else.
#[derive(Clone, Copy, PartialEq, Eq, Structural, Debug)]
pub enum Tag {
    Bulletml,
    Bullet,
    Action,
    Fire,
    ChangeDirection,
    ChangeSpeed,
    Accel,
    Wait,
    Vanish,
    Repeat,
    Direction,
    Speed,
    Horizontal,
    Vertical,
    Term,
    Times,
    BulletRef,
    ActionRef,
    FireRef,
    Param,
    Unknown,
}

/// The kind a tag text denotes.
pub open spec fn tag_kind(t: Seq<char>) -> Tag {
    if t == "bulletml"@ {
        Tag::Bulletml
    } else if t == "bullet"@ {
        Tag::Bullet
    } else if t == "action"@ {
        Tag::Action
    } else if t == "fire"@ {
        Tag::Fire
    } else if t == "changeDirection"@ {
        Tag::ChangeDirection
    } else if t == "changeSpeed"@ {
        Tag::ChangeSpeed
    } else if t == "accel"@ {
        Tag::Accel
    } else if t == "wait"@ {
        Tag::Wait
    } else if t == "vanish"@ {
        Tag::Vanish
    } else if t == "repeat"@ {
        Tag::Repeat
    } else if t == "direction"@ {
        Tag::Direction
    } else if t == "speed"@ {
        Tag::Speed
    } else if t == "horizontal"@ {
        Tag::Horizontal
    } else if t == "vertical"@ {
        Tag::Vertical
    } else if t == "term"@ {
        Tag::Term
    } else if t == "times"@ {
        Tag::Times
    } else if t == "bulletRef"@ {
        Tag::BulletRef
    } else if t == "actionRef"@ {
        Tag::ActionRef
    } else if t == "fireRef"@ {
        Tag::FireRef
    } else if t == "param"@ {
        Tag::Param
    } else {
        Tag::Unknown
    }
}

/// Classifies a tag text against the fixed set of recognized directive kinds.
pub fn classify(t: &str) -> (k: Tag)
    ensures
        k == tag_kind(t@),
{
    if str_eq(t, "bulletml") {
        Tag::Bulletml
    } else if str_eq(t, "bullet") {
        Tag::Bullet
    } else if str_eq(t, "action") {
        Tag::Action
    } else if str_eq(t, "fire") {
        Tag::Fire
    } else if str_eq(t, "changeDirection") {
        Tag::ChangeDirection
    } else if str_eq(t, "changeSpeed") {
        Tag::ChangeSpeed
    } else if str_eq(t, "accel") {
        Tag::Accel
    } else if str_eq(t, "wait") {
        Tag::Wait
    } else if str_eq(t, "vanish") {
        Tag::Vanish
    } else if str_eq(t, "repeat") {
        Tag::Repeat
    } else if str_eq(t, "direction") {
        Tag::Direction
    } else if str_eq(t, "speed") {
        Tag::Speed
    } else if str_eq(t, "horizontal") {
        Tag::Horizontal
    } else if str_eq(t, "vertical") {
        Tag::Vertical
    } else if str_eq(t, "term") {
        Tag::Term
    } else if str_eq(t, "times") {
        Tag::Times
    } else if str_eq(t, "bulletRef") {
        Tag::BulletRef
    } else if str_eq(t, "actionRef") {
        Tag::ActionRef
    } else if str_eq(t, "fireRef") {
        Tag::FireRef
    } else if str_eq(t, "param") {
        Tag::Param
    } else {
        Tag::Unknown
    }
}

/// Which child kinds each directive kind admits.
pub open spec fn child_allowed_spec(parent: Tag, child: Tag) -> bool {
    match parent {
        Tag::Bulletml => child == Tag::Bullet || child == Tag::Action || child == Tag::Fire,
        Tag::Bullet => child == Tag::Direction || child == Tag::Speed || child == Tag::Action
            || child == Tag::ActionRef,
        Tag::Action => child == Tag::Repeat || child == Tag::Fire || child == Tag::FireRef
            || child == Tag::ChangeSpeed || child == Tag::ChangeDirection || child == Tag::Accel
            || child == Tag::Wait || child == Tag::Vanish || child == Tag::Action
            || child == Tag::ActionRef,
        Tag::Fire => child == Tag::Direction || child == Tag::Speed || child == Tag::Bullet
            || child == Tag::BulletRef,
        Tag::ChangeDirection => child == Tag::Direction || child == Tag::Term,
        Tag::ChangeSpeed => child == Tag::Speed || child == Tag::Term,
        Tag::Accel => child == Tag::Horizontal || child == Tag::Vertical || child == Tag::Term,
        Tag::Repeat => child == Tag::Times || child == Tag::Action || child == Tag::ActionRef,
        Tag::BulletRef => child == Tag::Param,
        Tag::ActionRef => child == Tag::Param,
        Tag::FireRef => child == Tag::Param,
        _ => false,
    }
}

/// Executable twin of [`child_allowed_spec`].
pub fn child_allowed(parent: Tag, child: Tag) -> (r: bool)
    ensures
        r == child_allowed_spec(parent, child),
{
    match parent {
        Tag::Bulletml => child == Tag::Bullet || child == Tag::Action || child == Tag::Fire,
        Tag::Bullet => child == Tag::Direction || child == Tag::Speed || child == Tag::Action
            || child == Tag::ActionRef,
        Tag::Action => child == Tag::Repeat || child == Tag::Fire || child == Tag::FireRef
            || child == Tag::ChangeSpeed || child == Tag::ChangeDirection || child == Tag::Accel
            || child == Tag::Wait || child == Tag::Vanish || child == Tag::Action
            || child == Tag::ActionRef,
        Tag::Fire => child == Tag::Direction || child == Tag::Speed || child == Tag::Bullet
            || child == Tag::BulletRef,
        Tag::ChangeDirection => child == Tag::Direction || child == Tag::Term,
        Tag::ChangeSpeed => child == Tag::Speed || child == Tag::Term,
        Tag::Accel => child == Tag::Horizontal || child == Tag::Vertical || child == Tag::Term,
        Tag::Repeat => child == Tag::Times || child == Tag::Action || child == Tag::ActionRef,
        Tag::BulletRef => child == Tag::Param,
        Tag::ActionRef => child == Tag::Param,
        Tag::FireRef => child == Tag::Param,
        _ => false,
    }
}

/// Kinds whose text content is a numeric field routed through the expression
/// compiler.
pub open spec fn is_numeric_kind(k: Tag) -> bool {
    k == Tag::Direction || k == Tag::Speed || k == Tag::Horizontal || k == Tag::Vertical
        || k == Tag::Term || k == Tag::Times || k == Tag::Param || k == Tag::Wait
}

/// The namespace a template definition kind registers its label in:
/// `Some(0)` for bullets, `Some(1)` for actions, `Some(2)` for fires.
pub open spec fn def_ns(k: Tag) -> Option<int> {
    match k {
        Tag::Bullet => Some(0int),
        Tag::Action => Some(1int),
        Tag::Fire => Some(2int),
        _ => None,
    }
}

/// The namespace a reference kind resolves its label in, numbered as in
/// [`def_ns`].
pub open spec fn ref_ns(k: Tag) -> Option<int> {
    match k {
        Tag::BulletRef => Some(0int),
        Tag::ActionRef => Some(1int),
        Tag::FireRef => Some(2int),
        _ => None,
    }
}

} // verus!
