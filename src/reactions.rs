use vstd::prelude::*;
use crate::role_map::RoleMap;

verus! {

/// The emoji of a reaction.
pub enum ReactionEmoji {
    /// A Unicode emoji, as its characters.
    Unicode(String),
    /// A custom or animated emoji of the guild; these map to no role.
    Custom,
}

/// A reaction put on or taken off a message.
pub struct Reaction {
    pub added: bool,
    pub emoji: ReactionEmoji,
}

/// A change to make to the reacting member's roles.
#[derive(PartialEq, Eq, Structural, Debug, Clone, Copy)]
pub enum RoleChange {
    Grant(u64),
    Revoke(u64),
}

/// The change for `reaction` against `table`, for a member that was found or not.
/// It does not depend on the roles the member holds: granting a held role or
/// revoking a missing one is left to the platform, which accepts both.
pub open spec fn change_spec(
    table: Map<Seq<char>, u64>,
    reaction: Reaction,
    member_found: bool,
) -> Option<RoleChange> {
    match reaction.emoji {
        ReactionEmoji::Unicode(e) => {
            if member_found && table.contains_key(e@) {
                if reaction.added {
                    Some(RoleChange::Grant(table[e@]))
                } else {
                    Some(RoleChange::Revoke(table[e@]))
                }
            } else {
                None
            }
        },
        ReactionEmoji::Custom => None,
    }
}

/// Putting a reaction on and taking it off concern the same role: the first
/// grants a role exactly when the second revokes it.
pub proof fn add_and_remove_target_same_role(
    table: Map<Seq<char>, u64>,
    emoji: ReactionEmoji,
    member_found: bool,
    role: u64,
)
    ensures
        change_spec(table, (Reaction { added: true, emoji }), member_found) == Some(RoleChange::Grant(role))
            <==> change_spec(table, (Reaction { added: false, emoji }), member_found) == Some(
            RoleChange::Revoke(role),
        ),
{
}

/// Decides what a reaction does to the reacting member's roles.
pub fn role_change(table: &RoleMap, reaction: &Reaction, member_found: bool) -> (r: Option<
    RoleChange,
>)
    requires
        table.wf(),
    ensures
        r == change_spec(table@, *reaction, member_found),
{
    match &reaction.emoji {
        ReactionEmoji::Unicode(e) => {
            if !member_found {
                return None;
            }
            match table.get(e) {
                Some(role) => {
                    if reaction.added {
                        Some(RoleChange::Grant(role))
                    } else {
                        Some(RoleChange::Revoke(role))
                    }
                },
                None => None,
            }
        },
        ReactionEmoji::Custom => None,
    }
}

} // verus!
