use std::collections::HashMap;
use vstd::prelude::*;
use vstd::std_specs::hash::group_hash_axioms;

verus! {

broadcast use group_hash_axioms;

/// The players that the server has announced: identity to display name.
pub struct PlayerRegistry {
    players: HashMap<u128, String>,
}

impl View for PlayerRegistry {
    type V = Map<u128, Seq<char>>;

    closed spec fn view(&self) -> Map<u128, Seq<char>> {
        self.players@.map_values(|n: String| n@)
    }
}

/// The registry after an "add" of `uuid` with `name`: the first name seen is kept.
pub open spec fn registry_add(m: Map<u128, Seq<char>>, uuid: u128, name: Seq<char>) -> Map<u128, Seq<char>> {
    if m.contains_key(uuid) {
        m
    } else {
        m.insert(uuid, name)
    }
}

impl PlayerRegistry {
    /// An empty registry.
    pub fn new() -> (r: PlayerRegistry)
        ensures
            r@ == Map::<u128, Seq<char>>::empty(),
    {
        PlayerRegistry { players: HashMap::new() }
    }

    /// Adds `uuid` with `name` unless `uuid` is already present.
    pub fn apply_add(&mut self, uuid: u128, name: String)
        ensures
            final(self)@ == registry_add(old(self)@, uuid, name@),
    {
        if !self.players.contains_key(&uuid) {
            self.players.insert(uuid, name);
            assert(self@ =~= registry_add(old(self)@, uuid, name@));
        }
    }

    /// Removes `uuid`; nothing happens when it is absent.
    pub fn apply_remove(&mut self, uuid: u128)
        ensures
            final(self)@ == old(self)@.remove(uuid),
    {
        self.players.remove(&uuid);
        assert(self@ =~= old(self)@.remove(uuid));
    }

    /// The name registered for `uuid`, if any.
    pub fn get(&self, uuid: u128) -> (r: Option<&String>)
        ensures
            match r {
                Some(n) => self@.contains_key(uuid) && n@ == self@[uuid],
                None => !self@.contains_key(uuid),
            },
    {
        self.players.get(&uuid)
    }

    /// Number of registered players.
    pub fn len(&self) -> (r: usize)
        ensures
            r == self@.len(),
    {
        assert(self@.dom() =~= self.players@.dom());
        self.players.len()
    }

    /// A read-only view of every registered player.
    pub fn snapshot(&self) -> (r: &HashMap<u128, String>)
        ensures
            r@.map_values(|n: String| n@) == self@,
    {
        &self.players
    }
}

/// Adding an identity that is already present keeps its first name.
pub proof fn lemma_add_keeps_first_name(m: Map<u128, Seq<char>>, uuid: u128, first: Seq<char>, second: Seq<char>)
    ensures
        registry_add(registry_add(m, uuid, first), uuid, second) == registry_add(m, uuid, first),
        m.contains_key(uuid) ==> registry_add(registry_add(m, uuid, first), uuid, second)[uuid] == m[uuid],
        !m.contains_key(uuid) ==> registry_add(registry_add(m, uuid, first), uuid, second)[uuid] == first,
{
}

/// Removing an identity that is absent leaves the registry as it was.
pub proof fn lemma_remove_absent_is_noop(m: Map<u128, Seq<char>>, uuid: u128)
    requires
        !m.contains_key(uuid),
    ensures
        m.remove(uuid) == m,
{
    assert(m.remove(uuid) =~= m);
}

/// From an empty registry, adding `a` then `b` (distinct) and removing `a` leaves `b` alone.
pub proof fn lemma_add_add_remove(a: u128, x: Seq<char>, b: u128, y: Seq<char>)
    requires
        a != b,
    ensures
        registry_add(registry_add(Map::empty(), a, x), b, y).remove(a) == map![b => y],
{
    assert(registry_add(registry_add(Map::empty(), a, x), b, y).remove(a) =~= map![b => y]);
}

} // verus!
