//! Copies that are known to denote what the copied value denotes.
use vstd::prelude::*;

verus! {

/// A value that can be copied without changing what it denotes.
pub trait Duplicate: DeepView + Sized {
    /// A copy of `self`.
    fn duplicate(&self) -> (r: Self)
        ensures
            r.deep_view() == self.deep_view(),
    ;
}

impl Duplicate for String {
    fn duplicate(&self) -> (r: Self) {
        self.clone()
    }
}

impl<T: Duplicate> Duplicate for Option<T> {
    fn duplicate(&self) -> (r: Self) {
        match self {
            Some(x) => Some(x.duplicate()),
            None => None,
        }
    }
}

impl<T: Duplicate> Duplicate for Vec<T> {
    fn duplicate(&self) -> (r: Self) {
        let mut out: Vec<T> = Vec::new();
        let mut i: usize = 0;
        while i < self.len()
            invariant
                i == out@.len(),
                i <= self@.len(),
                forall|j: int| 0 <= j < i ==> (#[trigger] out@[j]).deep_view() == self@[j].deep_view(),
            decreases self@.len() - i,
        {
            let item = self[i].duplicate();
            out.push(item);
            i = i + 1;
        }
        proof {
            assert(out.deep_view() =~= self.deep_view());
        }
        out
    }
}

/// Pushing a value pushes what it denotes.
pub proof fn lemma_push<T: DeepView>(before: Vec<T>, after: Vec<T>, x: T)
    requires
        after@ == before@.push(x),
    ensures
        after.deep_view() == before.deep_view().push(x.deep_view()),
{
    assert(after.deep_view() =~= before.deep_view().push(x.deep_view()));
}

/// Appending values appends what they denote.
pub proof fn lemma_append<T: DeepView>(before: Vec<T>, more: Vec<T>, after: Vec<T>)
    requires
        after@ == before@ + more@,
    ensures
        after.deep_view() == before.deep_view() + more.deep_view(),
{
    assert(after.deep_view() =~= before.deep_view() + more.deep_view());
}

/// Appends `more` to `list`.
pub fn extend<T: DeepView>(list: &mut Vec<T>, more: Vec<T>)
    ensures
        final(list).deep_view() == old(list).deep_view() + more.deep_view(),
{
    let ghost before = *list;
    let ghost tail = more;
    let mut rest = more;
    list.append(&mut rest);
    proof {
        lemma_append(before, tail, *list);
    }
}

/// Appends `x` to `list`.
pub fn put<T: DeepView>(list: &mut Vec<T>, x: T)
    ensures
        final(list).deep_view() == old(list).deep_view().push(x.deep_view()),
{
    let ghost before = *list;
    list.push(x);
    proof {
        lemma_push(before, *list, x);
    }
}

} // verus!
