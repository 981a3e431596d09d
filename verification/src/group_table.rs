use vstd::prelude::*;

use std::sync::Arc;

use crate::str_map::StrMap;

verus! {

/// A chat group, known by its name.
#[derive(Debug)]
pub struct Group {
    pub name: Arc<String>,
}

impl Group {
    /// A group with the given name.
    pub fn new(name: Arc<String>) -> (g: Group)
        ensures
            g.name == name,
    {
        Group { name }
    }
}

/// Calls `Arc::clone`. Claimed: the result is another pointer to the same
/// group, so it holds the same group.
#[verifier::external_body]
fn share_group(g: &Arc<Group>) -> (r: Arc<Group>)
    ensures
        *r == **g,
{
    Arc::clone(g)
}

/// The groups by name.
pub struct GroupTable(StrMap<Arc<Group>>);

impl View for GroupTable {
    type V = Map<Seq<char>, Group>;

    open spec fn view(&self) -> Map<Seq<char>, Group> {
        self.groups()
    }
}

/// The groups after looking up a group by name and making it when it is
/// missing, and the group found or made.
pub open spec fn get_or_create_effect(groups: Map<Seq<char>, Group>, name: Arc<String>) -> (
    Map<Seq<char>, Group>,
    Group,
) {
    if groups.contains_key((*name)@) {
        (groups, groups[(*name)@])
    } else {
        (groups.insert((*name)@, Group { name }), Group { name })
    }
}

impl GroupTable {
    /// The groups, by name.
    pub closed spec fn groups(&self) -> Map<Seq<char>, Group> {
        self.0@.map_values(|g: Arc<Group>| *g)
    }

    /// No groups.
    pub fn new() -> (t: GroupTable)
        ensures
            t@ == Map::<Seq<char>, Group>::empty(),
    {
        let t = GroupTable(StrMap::new());
        proof {
            assert(t@ =~= Map::<Seq<char>, Group>::empty());
        }
        t
    }

    /// The group with the given name, if there is one (for posting to it).
    pub fn get(&self, name: &String) -> (r: Option<Arc<Group>>)
        ensures
            match r {
                Some(g) => self@.contains_key(name@) && *g == self@[name@],
                None => !self@.contains_key(name@),
            },
    {
        match self.0.get(name) {
            Some(g) => Some(share_group(g)),
            None => None,
        }
    }

    /// The group with the given name, made first when there is none (for
    /// joining it).
    pub fn get_or_create(&mut self, name: Arc<String>) -> (r: Arc<Group>)
        ensures
            (final(self)@, *r) == get_or_create_effect(old(self)@, name),
    {
        let key: String = (*name).clone();
        match self.0.get(&key) {
            Some(g) => share_group(g),
            None => {
                let g = Arc::new(Group::new(name));
                let shared = share_group(&g);
                let ghost old_map = self.0@;
                self.0.insert(key, g);
                proof {
                    assert(self.0@.map_values(|g: Arc<Group>| *g) =~= old_map.map_values(
                        |g: Arc<Group>| *g,
                    ).insert(key@, *g));
                }
                shared
            },
        }
    }
}

/// Looking up or making a group twice with the same name gives the same
/// group and makes nothing the second time; the group can then be found by
/// name.
pub proof fn lemma_get_or_create_idempotent(groups: Map<Seq<char>, Group>, name: Arc<String>)
    ensures
        ({
            let (g1, r1) = get_or_create_effect(groups, name);
            let (g2, r2) = get_or_create_effect(g1, name);
            &&& g2 == g1
            &&& r2 == r1
            &&& g1.contains_key((*name)@)
            &&& g1[(*name)@] == r1
        }),
{
}

} // verus!
