use vstd::prelude::*;
use crate::strutil::str_eq;

verus! {

/// One element of the generic attributed input tree, as handed over by the
/// document lexer: a tag, named attributes, text content and child elements,
/// plus the element's source position.
pub struct Element {
    pub tag: String,
    pub attrs: Vec<(String, String)>,
    pub text: String,
    pub children: Vec<Element>,
    pub pos: u32,
}

/// The value of the first attribute named `name`, if any.
pub open spec fn attr_spec(attrs: Seq<(String, String)>, name: Seq<char>) -> Option<Seq<char>>
    decreases attrs.len(),
{
    if attrs.len() == 0 {
        None
    } else if attrs[0].0@ == name {
        Some(attrs[0].1@)
    } else {
        attr_spec(attrs.drop_first(), name)
    }
}

proof fn lemma_attr_spec_step(attrs: Seq<(String, String)>, name: Seq<char>, i: int)
    requires
        0 <= i <= attrs.len(),
        forall|j: int| 0 <= j < i ==> (#[trigger] attrs[j]).0@ != name,
    ensures
        attr_spec(attrs, name) == attr_spec(attrs.skip(i), name),
    decreases i,
{
    if i > 0 {
        lemma_attr_spec_step(attrs, name, i - 1);
        assert(attrs.skip(i - 1).drop_first() =~= attrs.skip(i));
        assert(attrs.skip(i - 1)[0] == attrs[i - 1]);
    } else {
        assert(attrs.skip(0) =~= attrs);
    }
}

impl Element {
    /// Looks up an attribute by name; the first binding wins.
    pub fn attr(&self, name: &str) -> (r: Option<&String>)
        ensures
            match r {
                Some(v) => attr_spec(self.attrs@, name@) == Some(v@),
                None => attr_spec(self.attrs@, name@) is None,
            },
    {
        let n = self.attrs.len();
        let mut i: usize = 0;
        while i < n
            invariant
                n == self.attrs@.len(),
                0 <= i <= n,
                forall|j: int| 0 <= j < i ==> (#[trigger] self.attrs@[j]).0@ != name@,
            decreases n - i,
        {
            if str_eq(self.attrs[i].0.as_str(), name) {
                proof {
                    lemma_attr_spec_step(self.attrs@, name@, i as int);
                }
                return Some(&self.attrs[i].1);
            }
            i += 1;
        }
        proof {
            lemma_attr_spec_step(self.attrs@, name@, n as int);
            assert(self.attrs@.skip(n as int) =~= Seq::<(String, String)>::empty());
        }
        None
    }
}

} // verus!
