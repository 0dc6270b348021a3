use vstd::prelude::*;
use crate::reactions::{change_spec, role_change, Reaction, RoleChange};
use crate::role_map::{apply_configs, config_views, role_pairs, AdminConfig, GuildRole, RoleMap};

verus! {

/// The emoji-to-role registry: empty until populated, then the table that
/// the most recent population pass gave. Callers that share it between
/// event handlers put it behind one readers-writer lock.
pub struct Registry {
    table: RoleMap,
}

impl View for Registry {
    type V = Map<Seq<char>, u64>;

    closed spec fn view(&self) -> Map<Seq<char>, u64> {
        self.table@
    }
}

impl Registry {
    pub closed spec fn wf(&self) -> bool {
        self.table.wf()
    }

    /// An empty registry.
    pub fn new() -> (r: Registry)
        ensures
            r.wf(),
            r@ == Map::<Seq<char>, u64>::empty(),
    {
        Registry { table: RoleMap::new() }
    }

    /// Replaces the whole table with the one that `configs`, in scan order,
    /// give against the guild's `roles`; nothing of an earlier pass remains.
    pub fn populate(&mut self, roles: &Vec<GuildRole>, configs: &Vec<AdminConfig>)
        requires
            old(self).wf(),
        ensures
            final(self).wf(),
            final(self)@ == apply_configs(Map::empty(), role_pairs(roles@), config_views(configs@)),
    {
        self.table = RoleMap::from_configs(roles, configs);
    }

    /// The role mapped to `emoji`, or `None` if it has none.
    pub fn lookup(&self, emoji: &String) -> (r: Option<u64>)
        requires
            self.wf(),
        ensures
            r == (if self@.contains_key(emoji@) { Some(self@[emoji@]) } else { None::<u64> }),
    {
        self.table.get(emoji)
    }

    /// The change that `reaction` makes to the reacting member's roles.
    pub fn change_for(&self, reaction: &Reaction, member_found: bool) -> (r: Option<RoleChange>)
        requires
            self.wf(),
        ensures
            r == change_spec(self@, *reaction, member_found),
    {
        role_change(&self.table, reaction, member_found)
    }
}

} // verus!
