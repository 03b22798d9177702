//! A mapping from (deployment context, name) to deployment records.
//!
//! Entries are kept in a vector with pairwise-distinct keys; the view is the
//! finite map obtained by folding the entries, so inserting under an
//! existing key replaces that entry.

use vstd::map::*;
use vstd::prelude::*;

use crate::types::{DeploymentModel, DeploymentObject};

verus! {

/// The key a deployment record is filed under.
pub open spec fn dep_key(m: DeploymentModel) -> (Seq<char>, Seq<char>) {
    (m.deployment_context, m.name)
}

/// The views of a vector of deployment records.
pub open spec fn dep_views(q: Seq<DeploymentObject>) -> Seq<DeploymentModel> {
    q.map_values(|d: DeploymentObject| d@)
}

/// The map described by a sequence of records; a later entry under the same
/// key wins.
pub open spec fn map_of(s: Seq<DeploymentModel>) -> Map<
    (Seq<char>, Seq<char>),
    DeploymentModel,
>
    decreases s.len(),
{
    if s.len() == 0 {
        Map::empty()
    } else {
        map_of(s.drop_last()).insert(dep_key(s.last()), s.last())
    }
}

/// Pairwise-distinct keys.
pub open spec fn unique_keys(s: Seq<DeploymentModel>) -> bool {
    forall|i: int, j: int|
        0 <= i < j < s.len() ==> dep_key(#[trigger] s[i]) != dep_key(#[trigger] s[j])
}

pub proof fn lemma_map_of_none(s: Seq<DeploymentModel>, k: (Seq<char>, Seq<char>))
    requires
        forall|i: int| 0 <= i < s.len() ==> dep_key(#[trigger] s[i]) != k,
    ensures
        !map_of(s).contains_key(k),
    decreases s.len(),
{
    if s.len() > 0 {
        assert forall|i: int| 0 <= i < s.drop_last().len() implies dep_key(
            #[trigger] s.drop_last()[i],
        ) != k by {
            assert(s.drop_last()[i] == s[i]);
        }
        lemma_map_of_none(s.drop_last(), k);
        assert(dep_key(s.last()) != k) by {
            assert(s.last() == s[s.len() - 1]);
        }
    }
}

pub proof fn lemma_map_of_get(s: Seq<DeploymentModel>, i: int)
    requires
        unique_keys(s),
        0 <= i < s.len(),
    ensures
        map_of(s).contains_key(dep_key(s[i])),
        map_of(s)[dep_key(s[i])] == s[i],
    decreases s.len(),
{
    if i == s.len() - 1 {
        assert(s.last() == s[i]);
    } else {
        assert forall|a: int, b: int| 0 <= a < b < s.drop_last().len() implies dep_key(
            #[trigger] s.drop_last()[a],
        ) != dep_key(#[trigger] s.drop_last()[b]) by {
            assert(s.drop_last()[a] == s[a] && s.drop_last()[b] == s[b]);
        }
        lemma_map_of_get(s.drop_last(), i);
        assert(s.drop_last()[i] == s[i]);
        assert(dep_key(s.last()) != dep_key(s[i])) by {
            assert(s.last() == s[s.len() - 1]);
        }
    }
}

proof fn lemma_unique_drop_last(s: Seq<DeploymentModel>)
    requires
        unique_keys(s),
        s.len() > 0,
    ensures
        unique_keys(s.drop_last()),
{
    assert forall|a: int, b: int| 0 <= a < b < s.drop_last().len() implies dep_key(
        #[trigger] s.drop_last()[a],
    ) != dep_key(#[trigger] s.drop_last()[b]) by {
        assert(s.drop_last()[a] == s[a] && s.drop_last()[b] == s[b]);
    }
}

pub proof fn lemma_map_of_remove(s: Seq<DeploymentModel>, i: int)
    requires
        unique_keys(s),
        0 <= i < s.len(),
    ensures
        map_of(s.remove(i)) == map_of(s).remove(dep_key(s[i])),
        unique_keys(s.remove(i)),
    decreases s.len(),
{
    let k = dep_key(s[i]);
    assert forall|a: int, b: int| 0 <= a < b < s.remove(i).len() implies dep_key(
        #[trigger] s.remove(i)[a],
    ) != dep_key(#[trigger] s.remove(i)[b]) by {
        assert(s.remove(i)[a] == if a < i {
            s[a]
        } else {
            s[a + 1]
        });
        assert(s.remove(i)[b] == if b < i {
            s[b]
        } else {
            s[b + 1]
        });
    }
    if i == s.len() - 1 {
        assert(s.remove(i) =~= s.drop_last());
        lemma_unique_drop_last(s);
        assert forall|a: int| 0 <= a < s.drop_last().len() implies dep_key(
            #[trigger] s.drop_last()[a],
        ) != k by {
            assert(s.drop_last()[a] == s[a]);
        }
        lemma_map_of_none(s.drop_last(), k);
        assert(map_of(s.drop_last()) =~= map_of(s).remove(k)) by {
            assert(map_of(s) == map_of(s.drop_last()).insert(k, s.last()));
            assert_maps_equal!(map_of(s).remove(k), map_of(s.drop_last()));
        }
    } else {
        lemma_unique_drop_last(s);
        lemma_map_of_remove(s.drop_last(), i);
        assert(s.remove(i).drop_last() =~= s.drop_last().remove(i));
        assert(s.remove(i).last() == s.last()) by {
            assert(s.remove(i)[s.len() - 2] == s[s.len() - 1]);
        }
        assert(s.drop_last()[i] == s[i]);
        let kl = dep_key(s.last());
        assert(kl != k) by {
            assert(s.last() == s[s.len() - 1]);
        }
        assert(map_of(s.remove(i)) == map_of(s.drop_last().remove(i)).insert(kl, s.last()));
        assert(map_of(s.remove(i)) == map_of(s.drop_last()).remove(k).insert(kl, s.last()));
        assert_maps_equal!(map_of(s.drop_last()).remove(k).insert(kl, s.last()), map_of(s.drop_last()).insert(kl, s.last()).remove(k));
        assert(map_of(s.remove(i)) == map_of(s).remove(k));
    }
}

/// A mapping from (deployment context, name) to deployment records.
#[derive(Clone, Debug, PartialEq)]
pub struct DeploymentMap {
    entries: Vec<DeploymentObject>,
}

impl View for DeploymentMap {
    type V = Map<(Seq<char>, Seq<char>), DeploymentModel>;

    open spec fn view(&self) -> Map<(Seq<char>, Seq<char>), DeploymentModel> {
        map_of(self.entry_models())
    }
}

impl DeploymentMap {
    /// The models of the entries, in storage order.
    pub closed spec fn entry_models(&self) -> Seq<DeploymentModel> {
        dep_views(self.entries@)
    }

    /// Entries are filed under pairwise-distinct keys.
    pub open spec fn wf(&self) -> bool {
        unique_keys(self.entry_models())
    }

    pub fn new() -> (r: DeploymentMap)
        ensures
            r.wf(),
            r@ == Map::<(Seq<char>, Seq<char>), DeploymentModel>::empty(),
            r.entry_models() == Seq::<DeploymentModel>::empty(),
    {
        let r = DeploymentMap { entries: Vec::new() };
        proof {
            assert(r.entry_models() =~= Seq::<DeploymentModel>::empty());
        }
        r
    }

    /// The entries, in storage order: insertion order, with a replaced
    /// entry taking the end position.
    pub fn entries(&self) -> (r: &Vec<DeploymentObject>)
        ensures
            dep_views(r@) == self.entry_models(),
    {
        &self.entries
    }

    fn find_index(&self, context: &String, name: &String) -> (r: Option<usize>)
        ensures
            match r {
                Some(i) => i < self.entry_models().len() && dep_key(self.entry_models()[i as int])
                    == (context@, name@),
                None => forall|i: int|
                    0 <= i < self.entry_models().len() ==> dep_key(
                        #[trigger] self.entry_models()[i],
                    ) != (context@, name@),
            },
    {
        let mut i: usize = 0;
        while i < self.entries.len()
            invariant
                i <= self.entries@.len(),
                forall|t: int|
                    0 <= t < i ==> dep_key(#[trigger] dep_views(self.entries@)[t]) != (
                    context@,
                    name@,
                ),
            decreases self.entries@.len() - i,
        {
            let e = &self.entries[i];
            if e.deployment_context.eq(context) && e.name.eq(name) {
                proof {
                    assert(dep_views(self.entries@)[i as int] == e@);
                }
                return Some(i);
            }
            proof {
                assert(dep_views(self.entries@)[i as int] == e@);
            }
            i = i + 1;
        }
        None
    }

    /// Files `d` under its own (context, name) key, replacing any entry
    /// already there.
    pub fn insert(&mut self, d: DeploymentObject)
        requires
            old(self).wf(),
        ensures
            final(self).wf(),
            final(self)@ == old(self)@.insert((d@.deployment_context, d@.name), d@),
    {
        let ghost k = dep_key(d@);
        let ghost s0 = self.entry_models();
        match self.find_index(&d.deployment_context, &d.name) {
            Some(i) => {
                self.entries.remove(i);
                let ghost s1 = self.entry_models();
                proof {
                    assert(s1 =~= s0.remove(i as int));
                    lemma_map_of_remove(s0, i as int);
                }
                self.entries.push(d);
                proof {
                    let s2 = self.entry_models();
                    assert(s2.drop_last() =~= s1);
                    assert(s2.last() == d@);
                    assert(map_of(s2) == map_of(s0).remove(k).insert(k, d@));
                    assert_maps_equal!(map_of(s0).remove(k).insert(k, d@), map_of(s0).insert(k, d@));
                    assert forall|a: int, b: int| 0 <= a < b < s2.len() implies dep_key(
                        #[trigger] s2[a],
                    ) != dep_key(#[trigger] s2[b]) by {
                        if b < s2.len() - 1 {
                            assert(s2[a] == s1[a] && s2[b] == s1[b]);
                        } else {
                            if a < s2.len() - 1 {
                                assert(s2[a] == s1[a]);
                                assert(forall|t: int|
                                    0 <= t < s1.len() ==> dep_key(#[trigger] s1[t]) != k);
                            }
                        }
                    }
                }
            },
            None => {
                self.entries.push(d);
                proof {
                    let s2 = self.entry_models();
                    assert(s2.drop_last() =~= s0);
                    assert(s2.last() == d@);
                    assert forall|a: int, b: int| 0 <= a < b < s2.len() implies dep_key(
                        #[trigger] s2[a],
                    ) != dep_key(#[trigger] s2[b]) by {
                        if b < s2.len() - 1 {
                            assert(s2[a] == s0[a] && s2[b] == s0[b]);
                        } else if a < s2.len() - 1 {
                            assert(s2[a] == s0[a]);
                        }
                    }
                }
            },
        }
    }

    /// The record filed under (context, name), if any.
    pub fn get(&self, context: &String, name: &String) -> (r: Option<&DeploymentObject>)
        requires
            self.wf(),
        ensures
            match r {
                Some(d) => self@.contains_key((context@, name@)) && d@ == self@[(context@, name@)],
                None => !self@.contains_key((context@, name@)),
            },
    {
        match self.find_index(context, name) {
            Some(i) => {
                proof {
                    lemma_map_of_get(self.entry_models(), i as int);
                    assert(dep_views(self.entries@)[i as int] == (#[trigger] self.entries@[
                    i as int])@);
                }
                Some(&self.entries[i])
            },
            None => {
                proof {
                    lemma_map_of_none(self.entry_models(), (context@, name@));
                }
                None
            },
        }
    }

    /// How many records are filed.
    pub fn len(&self) -> (r: usize)
        requires
            self.wf(),
        ensures
            r == self@.dom().len(),
    {
        proof {
            lemma_map_of_len(self.entry_models());
        }
        self.entries.len()
    }
}

proof fn lemma_map_of_len(s: Seq<DeploymentModel>)
    requires
        unique_keys(s),
    ensures
        map_of(s).dom().finite(),
        map_of(s).dom().len() == s.len(),
    decreases s.len(),
{
    if s.len() == 0 {
        assert(map_of(s).dom() =~= Set::<(Seq<char>, Seq<char>)>::empty());
    } else {
        lemma_unique_drop_last(s);
        lemma_map_of_len(s.drop_last());
        assert forall|a: int| 0 <= a < s.drop_last().len() implies dep_key(
            #[trigger] s.drop_last()[a],
        ) != dep_key(s.last()) by {
            assert(s.drop_last()[a] == s[a]);
            assert(s.last() == s[s.len() - 1]);
        }
        lemma_map_of_none(s.drop_last(), dep_key(s.last()));
        assert(map_of(s).dom() =~= map_of(s.drop_last()).dom().insert(dep_key(s.last())));
    }
}

} // verus!
