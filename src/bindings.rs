//! Named values: the properties of an object and the variable memory.
use vstd::prelude::*;

use crate::text::{same, to_chars};
use crate::value::{model, Type, Val};

verus! {

/// The mathematical form of a list of bindings.
pub open spec fn bindings_model(ps: Seq<(String, Type)>) -> Seq<(Seq<char>, Val)> {
    ps.map_values(|p: (String, Type)| (p.0@, model(p.1)))
}

/// Whether `name` is bound.
pub open spec fn has_name(ps: Seq<(Seq<char>, Val)>, name: Seq<char>) -> bool {
    exists|i: int| 0 <= i < ps.len() && (#[trigger] ps[i]).0 == name
}

/// Whether `i` is the first place where `name` is bound.
pub open spec fn first_binding(ps: Seq<(Seq<char>, Val)>, name: Seq<char>, i: int) -> bool {
    &&& 0 <= i < ps.len()
    &&& ps[i].0 == name
    &&& forall|k: int| 0 <= k < i ==> (#[trigger] ps[k]).0 != name
}

/// Where `name` is bound (first, should it be bound twice).
pub open spec fn name_index(ps: Seq<(Seq<char>, Val)>, name: Seq<char>) -> int {
    choose|i: int| first_binding(ps, name, i)
}

proof fn lemma_first_binding(ps: Seq<(Seq<char>, Val)>, name: Seq<char>, i: int)
    requires
        first_binding(ps, name, i),
    ensures
        name_index(ps, name) == i,
{
    let j = name_index(ps, name);
    assert(first_binding(ps, name, j));
    if j < i {
        assert(ps[j].0 != name);
    } else if i < j {
        assert(ps[i].0 != name);
    }
}

/// What `name` is bound to.
pub open spec fn lookup(ps: Seq<(Seq<char>, Val)>, name: Seq<char>) -> Option<Val> {
    if has_name(ps, name) {
        Some(ps[name_index(ps, name)].1)
    } else {
        None
    }
}

/// `name` bound to `v`: replaced where it was bound, added at the end if not.
pub open spec fn bind(ps: Seq<(Seq<char>, Val)>, name: Seq<char>, v: Val) -> Seq<(Seq<char>, Val)> {
    if has_name(ps, name) {
        ps.update(name_index(ps, name), (name, v))
    } else {
        ps.push((name, v))
    }
}

/// `name` no longer bound.
pub open spec fn unbind(ps: Seq<(Seq<char>, Val)>, name: Seq<char>) -> Seq<(Seq<char>, Val)> {
    if has_name(ps, name) {
        ps.remove(name_index(ps, name))
    } else {
        ps
    }
}

/// Whether no name is bound twice.
pub open spec fn unique_names(ps: Seq<(Seq<char>, Val)>) -> bool {
    forall|i: int, j: int|
        0 <= i < ps.len() && 0 <= j < ps.len() && i != j ==> (#[trigger] ps[i]).0 != (
        #[trigger] ps[j]).0
}

/// Where `name` is bound, if it is.
pub fn find_name(ps: &Vec<(String, Type)>, name: &[char]) -> (r: Option<usize>)
    ensures
        r is None <==> !has_name(bindings_model(ps@), name@),
        r is Some ==> r->0 < ps@.len() && ps@[r->0 as int].0@ == name@ && r->0 == name_index(
            bindings_model(ps@),
            name@,
        ),
{
    let ghost m = bindings_model(ps@);
    let mut i: usize = 0;
    while i < ps.len()
        invariant
            i <= ps@.len(),
            m == bindings_model(ps@),
            forall|k: int| 0 <= k < i ==> (#[trigger] m[k]).0 != name@,
        decreases ps@.len() - i,
    {
        let key = to_chars(ps[i].0.as_str());
        if same(key.as_slice(), name) {
            proof {
                assert(m[i as int].0 == name@);
                lemma_first_binding(m, name@, i as int);
            }
            return Some(i);
        }
        assert(m[i as int].0 != name@);
        i += 1;
    }
    None
}

/// A copy of what `name` is bound to.
pub fn get_bound(ps: &Vec<(String, Type)>, name: &[char]) -> (r: Option<Type>)
    ensures
        r matches Some(v) ==> lookup(bindings_model(ps@), name@) == Some(v@),
        r is None ==> lookup(bindings_model(ps@), name@) is None,
{
    match find_name(ps, name) {
        Some(i) => {
            let v = ps[i].1.clone();
            Some(v)
        },
        None => None,
    }
}

/// Binds `name` to `v`.
pub fn set_bound(ps: &mut Vec<(String, Type)>, name: String, v: Type)
    ensures
        bindings_model(final(ps)@) == bind(bindings_model(old(ps)@), name@, v@),
        unique_names(bindings_model(old(ps)@)) ==> unique_names(bindings_model(final(ps)@)),
{
    let ghost m = bindings_model(ps@);
    let ghost vv = v@;
    let cs = to_chars(name.as_str());
    match find_name(ps, cs.as_slice()) {
        Some(i) => {
            ps.set(i, (name, v));
            assert(bindings_model(ps@) =~= m.update(i as int, (cs@, vv)));
            assert forall|a: int, b: int|
                unique_names(m) && 0 <= a < bindings_model(ps@).len() && 0 <= b < bindings_model(
                    ps@,
                ).len() && a != b implies (#[trigger] bindings_model(ps@)[a]).0 != (
            #[trigger] bindings_model(ps@)[b]).0 by {
                assert(bindings_model(ps@)[a].0 == m[a].0);
                assert(bindings_model(ps@)[b].0 == m[b].0);
            }
        },
        None => {
            ps.push((name, v));
            assert(bindings_model(ps@) =~= m.push((cs@, vv)));
        },
    }
}

/// Removes the binding of `name`, if any.
pub fn remove_bound(ps: &mut Vec<(String, Type)>, name: &[char])
    ensures
        bindings_model(final(ps)@) == unbind(bindings_model(old(ps)@), name@),
        unique_names(bindings_model(old(ps)@)) ==> unique_names(bindings_model(final(ps)@)),
{
    let ghost m = bindings_model(ps@);
    match find_name(ps, name) {
        Some(i) => {
            ps.remove(i);
            assert(bindings_model(ps@) =~= m.remove(i as int));
            assert forall|a: int, b: int|
                unique_names(m) && 0 <= a < bindings_model(ps@).len() && 0 <= b < bindings_model(
                    ps@,
                ).len() && a != b implies (#[trigger] bindings_model(ps@)[a]).0 != (
            #[trigger] bindings_model(ps@)[b]).0 by {
                let a2 = if a < i { a } else { a + 1 };
                let b2 = if b < i { b } else { b + 1 };
                assert(bindings_model(ps@)[a] == m[a2]);
                assert(bindings_model(ps@)[b] == m[b2]);
            }
        },
        None => {},
    }
}

} // verus!
