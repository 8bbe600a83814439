use vstd::prelude::*;

verus! {

/// The texts held by `v`.
pub open spec fn name_set(v: Seq<String>) -> Set<Seq<char>> {
    Set::new(|k: Seq<char>| exists|i: int| 0 <= i < v.len() && (#[trigger] v[i])@ == k)
}

/// First position in `v` of a text equal to `key`.
pub open spec fn first_named(v: Seq<String>, key: Seq<char>, p: int) -> bool {
    0 <= p < v.len() && v[p]@ == key && forall|q: int| 0 <= q < p ==> (#[trigger] v[q])@ != key
}

/// Position of the first element of `v` equal to `key`.
fn position_of(v: &Vec<String>, key: &String) -> (r: Option<usize>)
    ensures
        match r {
            Some(p) => first_named(v@, key@, p as int),
            None => forall|q: int| 0 <= q < v.len() ==> (#[trigger] v@[q])@ != key@,
        },
{
    let mut i: usize = 0;
    while i < v.len()
        invariant
            i <= v.len(),
            forall|q: int| 0 <= q < i ==> (#[trigger] v@[q])@ != key@,
        decreases v.len() - i,
    {
        if v[i] == *key {
            return Some(i);
        }
        i = i + 1;
    }
    None
}

/// Marks `key` open or closed in the set of open names.
pub fn set_open(open: &mut Vec<String>, key: &str, is_open: bool)
    ensures
        name_set(final(open)@) == (if is_open {
            name_set(old(open)@).insert(key@)
        } else {
            name_set(old(open)@).remove(key@)
        }),
{
    let k = key.to_owned();
    let found = position_of(open, &k);
    if is_open {
        match found {
            Some(p) => {
                assert(name_set(open@) =~= name_set(open@).insert(key@)) by {
                    assert(name_set(open@).contains(key@)) by {
                        assert(open@[p as int]@ == key@);
                    }
                }
            },
            None => {
                let ghost before = open@;
                open.push(k);
                assert forall|t: Seq<char>| #[trigger] name_set(open@).contains(t) <==> name_set(
                    before,
                ).insert(key@).contains(t) by {
                    if name_set(open@).contains(t) {
                        let i = choose|i: int| 0 <= i < open@.len() && (#[trigger] open@[i])@ == t;
                        if i < before.len() {
                            assert(before[i] == open@[i]);
                        }
                    }
                    if name_set(before).contains(t) {
                        let i = choose|i: int| 0 <= i < before.len() && (#[trigger] before[i])@ == t;
                        assert(open@[i] == before[i]);
                    }
                    if t == key@ {
                        assert(open@[before.len() as int]@ == t);
                    }
                }
                assert(name_set(open@) =~= name_set(before).insert(key@));
            },
        }
    } else {
        let ghost before = open@;
        let mut kept: Vec<String> = Vec::new();
        let mut i: usize = 0;
        while i < open.len()
            invariant
                i <= open.len(),
                k@ == key@,
                before == open@,
                forall|j: int| 0 <= j < kept.len() ==> (#[trigger] kept@[j])@ != key@,
                forall|t: Seq<char>|
                    #![trigger name_set(kept@).contains(t)]
                    t != key@ ==> (name_set(kept@).contains(t) <==> exists|j: int|
                        0 <= j < i && (#[trigger] open@[j])@ == t),
            decreases open.len() - i,
        {
            let ghost prev = kept@;
            if open[i] != k {
                kept.push(open[i].clone());
            }
            assert forall|t: Seq<char>| t != key@ implies (name_set(kept@).contains(t) <==> exists|
                j: int,
            | 0 <= j < i + 1 && (#[trigger] open@[j])@ == t) by {
                if name_set(kept@).contains(t) {
                    let m = choose|m: int| 0 <= m < kept@.len() && (#[trigger] kept@[m])@ == t;
                    if m < prev.len() {
                        assert(prev[m] == kept@[m]);
                        assert(name_set(prev).contains(t));
                    } else {
                        assert(open@[i as int]@ == t);
                    }
                }
                if exists|j: int| 0 <= j < i + 1 && (#[trigger] open@[j])@ == t {
                    let j = choose|j: int| 0 <= j < i + 1 && (#[trigger] open@[j])@ == t;
                    if j < i {
                        assert(name_set(prev).contains(t));
                        let m = choose|m: int| 0 <= m < prev.len() && (#[trigger] prev[m])@ == t;
                        assert(kept@[m] == prev[m]);
                    } else {
                        assert(kept@[kept@.len() - 1]@ == t);
                    }
                }
            }
            i = i + 1;
        }
        proof {
            assert forall|t: Seq<char>| #[trigger] name_set(kept@).contains(t) <==> name_set(
                before,
            ).remove(key@).contains(t) by {
                if t == key@ {
                    if name_set(kept@).contains(t) {
                        let m = choose|m: int| 0 <= m < kept@.len() && (#[trigger] kept@[m])@ == t;
                    }
                }
            }
            assert(name_set(kept@) =~= name_set(before).remove(key@));
        }
        *open = kept;
    }
}

/// The registry of windows by name, and which of them are open.
pub struct Components {
    pub names: Vec<String>,
    pub open: Vec<String>,
}

impl Components {
    /// A registry of the windows named `names`, none of them open.
    pub fn from_components(names: Vec<String>) -> (r: Components)
        ensures
            r.names@ == names@,
            name_set(r.open@) == Set::<Seq<char>>::empty(),
    {
        let r = Components { names, open: Vec::new() };
        assert(name_set(r.open@) =~= Set::<Seq<char>>::empty());
        r
    }

    /// Position of the first window named `key`.
    pub fn get_component_by_name(&self, key: &str) -> (r: Option<usize>)
        ensures
            match r {
                Some(p) => first_named(self.names@, key@, p as int),
                None => !name_set(self.names@).contains(key@),
            },
    {
        let k = key.to_owned();
        position_of(&self.names, &k)
    }

    /// Marks window `key` open or closed.
    pub fn open(&mut self, key: &str, is_open: bool)
        ensures
            final(self).names@ == old(self).names@,
            name_set(final(self).open@) == (if is_open {
                name_set(old(self).open@).insert(key@)
            } else {
                name_set(old(self).open@).remove(key@)
            }),
    {
        set_open(&mut self.open, key, is_open);
    }

    /// Whether window `key` is open.
    pub fn _is_component_open(&self, key: &str) -> (r: bool)
        ensures
            r == name_set(self.open@).contains(key@),
    {
        let k = key.to_owned();
        match position_of(&self.open, &k) {
            Some(p) => {
                assert(self.open@[p as int]@ == key@);
                true
            },
            None => false,
        }
    }
}

} // verus!
