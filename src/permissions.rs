use vstd::prelude::*;

verus! {

/// Permission bits as the chat platform encodes them.
pub const ADMINISTRATOR: u64 = 1 << 3;

pub const MANAGE_GUILD: u64 = 1 << 5;

pub const MANAGE_MESSAGES: u64 = 1 << 13;

pub const MANAGE_WEBHOOKS: u64 = 1 << 29;

/// Whether a permission set holds every bit of `flag`.
pub open spec fn holds(perms: u64, flag: u64) -> bool {
    perms & flag == flag
}

/// Whether this system may act in a channel: it must manage both messages
/// and webhooks there.
pub open spec fn can_act_spec(perms: u64) -> bool {
    holds(perms, MANAGE_MESSAGES) && holds(perms, MANAGE_WEBHOOKS)
}

/// Whether a permission set lets a member change the rules.
pub open spec fn grants_management(perms: u64) -> bool {
    holds(perms, MANAGE_MESSAGES) || holds(perms, MANAGE_GUILD) || holds(perms, ADMINISTRATOR)
}

pub fn can_act(perms: u64) -> (r: bool)
    ensures
        r == can_act_spec(perms),
{
    perms & MANAGE_MESSAGES == MANAGE_MESSAGES && perms & MANAGE_WEBHOOKS == MANAGE_WEBHOOKS
}

pub fn manages(perms: u64) -> (r: bool)
    ensures
        r == grants_management(perms),
{
    perms & MANAGE_MESSAGES == MANAGE_MESSAGES || perms & MANAGE_GUILD == MANAGE_GUILD || perms
        & ADMINISTRATOR == ADMINISTRATOR
}

/// Whether the invoker of a rule command is authorised: their own
/// permissions, where known, or the permissions of one of their roles grant
/// management.
pub fn may_configure(member_perms: Option<u64>, role_perms: &Vec<u64>) -> (r: bool)
    ensures
        r == ((member_perms matches Some(p) && grants_management(p)) || exists|i: int|
            0 <= i < role_perms@.len() && grants_management(#[trigger] role_perms@[i])),
{
    if let Some(p) = member_perms {
        if manages(p) {
            return true;
        }
    }
    let mut i: usize = 0;
    while i < role_perms.len()
        invariant
            0 <= i <= role_perms@.len(),
            forall|j: int| 0 <= j < i ==> !grants_management(#[trigger] role_perms@[j]),
        decreases role_perms@.len() - i,
    {
        if manages(role_perms[i]) {
            return true;
        }
        i = i + 1;
    }
    false
}

} // verus!
