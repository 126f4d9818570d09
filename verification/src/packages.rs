//! Which packages of a workspace are formatted.
use vstd::prelude::*;
use crate::attr::bytes_eq;

verus! {

/// One package's turn: whether it is selected, and the requested names left.
///
/// When no names were requested at all, every package is selected.
/// Otherwise a package is selected only if its name is among those left,
/// and the name is then used up.
pub open spec fn select_step(select_all: bool, requested: Set<Seq<u8>>, name: Seq<u8>) -> (bool, Set<Seq<u8>>) {
    if select_all {
        (true, requested)
    } else if requested.contains(name) {
        (true, requested.remove(name))
    } else {
        (false, requested)
    }
}

/// For packages with names `names`, in order: whether each is selected, and
/// the requested names that no package used up.
pub open spec fn spec_select(names: Seq<Seq<u8>>, requested: Set<Seq<u8>>) -> (Seq<bool>, Set<Seq<u8>>)
    decreases names.len(),
{
    if names.len() == 0 {
        (Seq::empty(), requested)
    } else {
        let (selected, left) = spec_select(names.drop_last(), requested);
        let (this, left) = select_step(requested.is_empty(), left, names.last());
        (selected.push(this), left)
    }
}

/// With no package requested, every package is formatted and no name is
/// left unfound.
pub proof fn lemma_select_all(names: Seq<Seq<u8>>)
    ensures
        spec_select(names, Set::empty()).0 == Seq::new(names.len(), |_i: int| true),
        spec_select(names, Set::empty()).1 == Set::<Seq<u8>>::empty(),
    decreases names.len(),
{
    if names.len() > 0 {
        lemma_select_all(names.drop_last());
        assert(spec_select(names, Set::empty()).0 =~= Seq::new(names.len(), |_i: int| true));
    }
}

/// The indices of the flags that are set, in order.
pub open spec fn set_indices(flags: Seq<bool>) -> Seq<usize>
    decreases flags.len(),
{
    if flags.len() == 0 {
        Seq::empty()
    } else if flags.last() {
        set_indices(flags.drop_last()).push((flags.len() - 1) as usize)
    } else {
        set_indices(flags.drop_last())
    }
}

/// The set of names in a list of byte strings.
pub open spec fn name_set(names: Seq<Vec<u8>>) -> Set<Seq<u8>> {
    names.map_values(|n: Vec<u8>| n@).to_set()
}

/// The packages that are formatted, and the requested names not found
pub struct Selection {
    /// The indices of the selected packages, in order
    pub selected: Vec<usize>,
    /// The requested names no package had
    pub not_found: Vec<Vec<u8>>,
}

/// The position of `name` in `names`, if it is there.
fn position_of(names: &Vec<Vec<u8>>, name: &[u8]) -> (r: Option<usize>)
    ensures
        match r {
            Some(i) => i < names@.len() && names@[i as int]@ == name@,
            None => forall|k: int| 0 <= k < names@.len() ==> names@[k]@ != name@,
        },
{
    let mut i: usize = 0;
    while i < names.len()
        invariant
            i <= names@.len(),
            forall|k: int| 0 <= k < i ==> names@[k]@ != name@,
        decreases names@.len() - i,
    {
        if bytes_eq(names[i].as_slice(), name) {
            return Some(i);
        }
        i = i + 1;
    }
    None
}

/// Removing an element from a list without repeats removes it from its set.
proof fn lemma_remove_from_name_set(names: Seq<Vec<u8>>, i: int)
    requires
        0 <= i < names.len(),
        names.map_values(|n: Vec<u8>| n@).no_duplicates(),
    ensures
        name_set(names.remove(i)) == name_set(names).remove(names[i]@),
        names.remove(i).map_values(|n: Vec<u8>| n@).no_duplicates(),
{
    let views = names.map_values(|n: Vec<u8>| n@);
    let removed = names.remove(i).map_values(|n: Vec<u8>| n@);
    assert(removed =~= views.remove(i));
    assert forall|x: Seq<u8>| #[trigger] name_set(names.remove(i)).contains(x) == name_set(names).remove(names[i]@).contains(x) by {
        if removed.contains(x) {
            let k = choose|k: int| 0 <= k < removed.len() && removed[k] == x;
            if k < i {
                assert(views[k] == x);
            } else {
                assert(views[k + 1] == x);
            }
            assert(views.contains(x));
        }
        if views.contains(x) && x != names[i]@ {
            let k = choose|k: int| 0 <= k < views.len() && views[k] == x;
            if k < i {
                assert(removed[k] == x);
            } else {
                assert(k != i);
                assert(removed[k - 1] == x);
            }
        }
        if removed.contains(x) && x == names[i]@ {
            let k = choose|k: int| 0 <= k < removed.len() && removed[k] == x;
            if k < i {
                assert(views[k] == views[i]);
            } else {
                assert(views[k + 1] == views[i]);
            }
        }
    }
    assert(name_set(names.remove(i)) =~= name_set(names).remove(names[i]@));
}

/// Selects the packages to format, by name.
///
/// Only the packages whose names were requested are selected, each name
/// being used up by the first package that has it. With no requested names,
/// every package is selected.
pub fn select_packages(names: &Vec<Vec<u8>>, requested: &Vec<Vec<u8>>) -> (r: Selection)
    ensures
        ({
            let (selected, left) = spec_select(names@.map_values(|n: Vec<u8>| n@), name_set(requested@));
            &&& r.selected@ == set_indices(selected)
            &&& name_set(r.not_found@) == left
        }),
{
    // The requested names, without repeats.
    let mut left: Vec<Vec<u8>> = Vec::new();
    let mut i: usize = 0;
    while i < requested.len()
        invariant
            i <= requested@.len(),
            left@.map_values(|n: Vec<u8>| n@).no_duplicates(),
            name_set(left@) == name_set(requested@.take(i as int)),
        decreases requested@.len() - i,
    {
        let ghost before = left@;
        let ghost x = requested@[i as int]@;
        match position_of(&left, requested[i].as_slice()) {
            None => {
                left.push(requested[i].clone());
                proof {
                    let views = before.map_values(|n: Vec<u8>| n@);
                    assert(left@.map_values(|n: Vec<u8>| n@) =~= views.push(x));
                    views.lemma_push_to_set_commute(x);
                }
            },
            Some(k) => {
                proof {
                    let views = before.map_values(|n: Vec<u8>| n@);
                    assert(views[k as int] == x);
                    assert(name_set(left@).contains(x));
                    assert(name_set(left@).insert(x) =~= name_set(left@));
                }
            },
        }
        proof {
            let prefix = requested@.take(i as int).map_values(|n: Vec<u8>| n@);
            assert(requested@.take(i + 1).map_values(|n: Vec<u8>| n@) =~= prefix.push(x));
            prefix.lemma_push_to_set_commute(x);
        }
        i = i + 1;
    }
    proof {
        assert(requested@.take(requested@.len() as int) =~= requested@);
    }
    let ghost all = names@.map_values(|n: Vec<u8>| n@);
    let ghost start = name_set(requested@);
    let select_all = left.len() == 0;
    proof {
        if select_all {
            assert(name_set(left@) =~= Set::empty());
        } else {
            let views = left@.map_values(|n: Vec<u8>| n@);
            assert(views[0] == left@[0]@);
            assert(views.contains(views[0]));
            assert(name_set(left@).contains(left@[0]@));
        }
    }
    let mut selected: Vec<usize> = Vec::new();
    let mut j: usize = 0;
    while j < names.len()
        invariant
            j <= names@.len(),
            all == names@.map_values(|n: Vec<u8>| n@),
            left@.map_values(|n: Vec<u8>| n@).no_duplicates(),
            name_set(left@) == spec_select(all.take(j as int), start).1,
            select_all == start.is_empty(),
            selected@ == set_indices(spec_select(all.take(j as int), start).0),
            spec_select(all.take(j as int), start).0.len() == j,
        decreases names@.len() - j,
    {
        let ghost prev = spec_select(all.take(j as int), start);
        proof {
            assert(all.take(j + 1).drop_last() =~= all.take(j as int));
            assert(all.take(j + 1).last() == names@[j as int]@);
        }
        let take = if select_all {
            true
        } else {
            match position_of(&left, names[j].as_slice()) {
                Some(k) => {
                    proof {
                        lemma_remove_from_name_set(left@, k as int);
                        let views = left@.map_values(|n: Vec<u8>| n@);
                        assert(views[k as int] == names@[j as int]@);
                        assert(name_set(left@).contains(names@[j as int]@));
                    }
                    let _ = left.remove(k);
                    true
                },
                None => {
                    proof {
                        let views = left@.map_values(|n: Vec<u8>| n@);
                        if name_set(left@).contains(names@[j as int]@) {
                            let k = choose|k: int| 0 <= k < views.len() && views[k] == names@[j as int]@;
                            assert(left@[k]@ == names@[j as int]@);
                        }
                    }
                    false
                },
            }
        };
        proof {
            let step = select_step(start.is_empty(), prev.1, names@[j as int]@);
            assert(take == step.0);
            assert(name_set(left@) == step.1);
        }
        if take {
            selected.push(j);
        }
        proof {
            let now = spec_select(all.take(j + 1), start);
            assert(now.0 == prev.0.push(take));
            assert(now.0.drop_last() =~= prev.0);
        }
        j = j + 1;
    }
    proof {
        assert(all.take(names@.len() as int) =~= all);
    }
    Selection { selected, not_found: left }
}

} // verus!
