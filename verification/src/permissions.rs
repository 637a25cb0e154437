//! The permissions the bot asks for in its invite link.

use serenity::model::permissions::Permissions;
use vstd::prelude::*;
use crate::text::{parse_unsigned, parse_unsigned_spec};

verus! {

/// The bits of every permission that `serenity` defines.
pub open spec fn known_permission_bits() -> u64 {
    0x7ff7fdff
}

/// Calls `Permissions::from_bits_truncate`, which keeps the bits of the
/// permissions that `serenity` defines and drops the others.
#[verifier::external_body]
fn truncate_permissions(bits: u64) -> (r: u64)
    ensures
        r == bits & known_permission_bits(),
{
    Permissions::from_bits_truncate(bits).bits()
}

/// The permission bits configured by the `PERMS` setting: the number it holds
/// with undefined permissions dropped, or no permissions where it is missing
/// or is not a `u64`.
pub open spec fn permissions_spec(setting: Option<Seq<char>>) -> u64 {
    match setting {
        Some(s) => match parse_unsigned_spec(s, u64::MAX as nat) {
            Some(v) => (v as u64) & known_permission_bits(),
            None => 0,
        },
        None => 0,
    }
}

/// The permission bits for the bot's invite link, read from the setting.
pub fn permissions_from_setting(setting: Option<&str>) -> (r: u64)
    ensures
        r == permissions_spec(
            match setting {
                Some(s) => Some(s@),
                None => None,
            },
        ),
{
    match setting {
        Some(s) => match parse_unsigned(s, u64::MAX as u128) {
            Some(v) => truncate_permissions(v as u64),
            None => 0,
        },
        None => 0,
    }
}

} // verus!
