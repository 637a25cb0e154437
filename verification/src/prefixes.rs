//! The per-server command prefixes: a default for every server, and the
//! prefixes that servers have chosen for themselves.

use serenity::model::id::GuildId;
use std::collections::BTreeMap;
use std::collections::HashMap;
use vstd::prelude::*;

verus! {

broadcast use vstd::std_specs::btree::group_btree_axioms;

/// The prefix that applies to a message: the server's own prefix if the
/// message comes from a server that set one, the default otherwise.
pub open spec fn prefix_in(
    default_prefix: Seq<char>,
    custom: Map<u64, Seq<char>>,
    guild: Option<u64>,
) -> Seq<char> {
    match guild {
        Some(g) => if custom.contains_key(g) { custom[g] } else { default_prefix },
        None => default_prefix,
    }
}

/// The server prefixes after the prefix command ran on `guild`: with no
/// argument the server's prefix is removed, otherwise the argument becomes it.
pub open spec fn after_prefix_command(
    custom: Map<u64, Seq<char>>,
    guild: u64,
    arg: Option<Seq<char>>,
) -> Map<u64, Seq<char>> {
    match arg {
        Some(p) => custom.insert(guild, p),
        None => custom.remove(guild),
    }
}

/// Once a server sets a prefix, messages from that server use it.
pub proof fn law_set_prefix_is_used(
    default_prefix: Seq<char>,
    custom: Map<u64, Seq<char>>,
    guild: u64,
    p: Seq<char>,
)
    ensures
        prefix_in(default_prefix, after_prefix_command(custom, guild, Some(p)), Some(guild)) == p,
{
}

/// Once a server resets its prefix, messages from that server use the
/// default prefix again.
pub proof fn law_reset_prefix_restores_default(
    default_prefix: Seq<char>,
    custom: Map<u64, Seq<char>>,
    guild: u64,
)
    ensures
        prefix_in(default_prefix, after_prefix_command(custom, guild, None), Some(guild))
            == default_prefix,
{
}

/// The prefix command on one server leaves the prefix of every other server
/// as it was.
pub proof fn law_prefix_command_is_local(
    default_prefix: Seq<char>,
    custom: Map<u64, Seq<char>>,
    guild: u64,
    arg: Option<Seq<char>>,
    other: u64,
)
    requires
        other != guild,
    ensures
        prefix_in(default_prefix, after_prefix_command(custom, guild, arg), Some(other))
            == prefix_in(default_prefix, custom, Some(other)),
{
}

/// Direct messages always use the default prefix.
pub proof fn law_direct_messages_use_default(default_prefix: Seq<char>, custom: Map<u64, Seq<char>>)
    ensures
        prefix_in(default_prefix, custom, None) == default_prefix,
{
}

/// Of two prefix commands on the same server, only the later one counts.
pub proof fn law_last_prefix_command_wins(
    custom: Map<u64, Seq<char>>,
    guild: u64,
    first: Option<Seq<char>>,
    second: Option<Seq<char>>,
)
    ensures
        after_prefix_command(after_prefix_command(custom, guild, first), guild, second)
            == after_prefix_command(custom, guild, second),
{
    assert(after_prefix_command(after_prefix_command(custom, guild, first), guild, second)
        =~= after_prefix_command(custom, guild, second));
}

/// The reply of the prefix command.
pub open spec fn prefix_reply_spec(default_prefix: Seq<char>, arg: Option<Seq<char>>) -> Seq<char> {
    match arg {
        Some(p) => "Changed prefix to `"@ + p + "`."@,
        None => "Reset prefix to `"@ + default_prefix + "`."@,
    }
}

/// What `serde_json::from_str` reads from `text` as a JSON object whose keys
/// are `serenity` `GuildId`s and whose values are prefixes, by id number, or
/// `None` where it refuses.
pub uninterp spec fn json_prefix_map(text: Seq<char>) -> Option<Map<u64, Seq<char>>>;

/// What `serde_json::to_string` writes for a map from server ids to
/// prefixes, held in ascending order of server id.
pub uninterp spec fn json_prefix_text(custom: Map<u64, Seq<char>>) -> Seq<char>;

/// Calls `serde_json::from_str` to read a map from `serenity` `GuildId`s to
/// prefixes, the keys read as `GuildId` reads them, and hands the map out
/// keyed by the ids' numbers. The contract says that the map read is what
/// the name `json_prefix_map` stands for; it says nothing of which texts are
/// accepted.
#[verifier::external_body]
fn read_prefix_json(text: &str) -> (r: Option<BTreeMap<u64, String>>)
    ensures
        r is Some <==> json_prefix_map(text@) is Some,
        r matches Some(m) ==> m@.map_values(|p: String| p@) == json_prefix_map(text@).unwrap(),
{
    serde_json::from_str::<HashMap<GuildId, String>>(text)
        .ok()
        .map(|m| m.into_iter().map(|(id, p)| (id.0, p)).collect())
}

/// Calls `serde_json::to_string` on the map. A map with integer keys and
/// string values always serialises, so the call does not fail. The contract
/// names the text, and says that `serde_json::from_str` reads it back as
/// the same map: each key is written as its decimal numeral in a JSON string,
/// which `GuildId` reads back as the same number, and each prefix as a JSON
/// string that reads back as the same text. It says nothing more of the form.
#[verifier::external_body]
fn write_prefix_json(custom: &BTreeMap<u64, String>) -> (r: String)
    ensures
        r@ == json_prefix_text(custom@.map_values(|p: String| p@)),
        json_prefix_map(r@) == Some(custom@.map_values(|p: String| p@)),
{
    serde_json::to_string(custom).unwrap()
}

/// The default prefix and the prefixes that servers chose.
pub struct PrefixStore {
    default_prefix: String,
    custom: BTreeMap<u64, String>,
}

impl PrefixStore {
    /// The prefix used where a server chose none.
    pub closed spec fn default_prefix(&self) -> Seq<char> {
        self.default_prefix@
    }

    /// The prefixes that servers chose, by server id.
    pub closed spec fn custom(&self) -> Map<u64, Seq<char>> {
        self.custom@.map_values(|p: String| p@)
    }

    /// A store in which no server chose a prefix.
    pub fn new(default_prefix: String) -> (r: Self)
        ensures
            r.default_prefix() == default_prefix@,
            r.custom() == Map::<u64, Seq<char>>::empty(),
    {
        let r = PrefixStore { default_prefix, custom: BTreeMap::new() };
        assert(r.custom() =~= Map::<u64, Seq<char>>::empty());
        r
    }

    /// The store read from the saved JSON text, holding the servers'
    /// prefixes that `serde_json` reads from it; `None` where it refuses the
    /// text.
    pub fn from_json(default_prefix: String, text: &str) -> (r: Option<Self>)
        ensures
            r is Some <==> json_prefix_map(text@) is Some,
            r matches Some(store) ==> store.default_prefix() == default_prefix@
                && store.custom() == json_prefix_map(text@).unwrap(),
    {
        match read_prefix_json(text) {
            Some(custom) => Some(PrefixStore { default_prefix, custom }),
            None => None,
        }
    }

    /// The servers' prefixes as JSON text, to be saved; reading the text
    /// back gives the same prefixes.
    pub fn to_json(&self) -> (r: String)
        ensures
            r@ == json_prefix_text(self.custom()),
            json_prefix_map(r@) == Some(self.custom()),
    {
        write_prefix_json(&self.custom)
    }

    /// The prefix for a message from `guild`, or from a direct message where
    /// `guild` is `None`.
    pub fn prefix_for(&self, guild: Option<u64>) -> (r: String)
        ensures
            r@ == prefix_in(self.default_prefix(), self.custom(), guild),
    {
        match guild {
            Some(g) => match self.custom.get(&g) {
                Some(p) => p.clone(),
                None => self.default_prefix.clone(),
            },
            None => self.default_prefix.clone(),
        }
    }

    /// The reply of the prefix command to its argument, if it has one.
    pub fn prefix_reply(&self, arg: Option<&str>) -> (r: String)
        ensures
            r@ == prefix_reply_spec(
                self.default_prefix(),
                match arg {
                    Some(a) => Some(a@),
                    None => None,
                },
            ),
    {
        match arg {
            Some(a) => {
                let mut r = String::from_str("Changed prefix to `");
                r.append(a);
                r.append("`.");
                r
            },
            None => {
                let mut r = String::from_str("Reset prefix to `");
                r.append(self.default_prefix.as_str());
                r.append("`.");
                r
            },
        }
    }

    /// Carries out the prefix command on `guild`: with an argument it becomes
    /// the server's prefix, without one the server's prefix is removed.
    pub fn apply_prefix_command(&mut self, guild: u64, arg: Option<&str>)
        ensures
            final(self).default_prefix() == old(self).default_prefix(),
            final(self).custom() == after_prefix_command(
                old(self).custom(),
                guild,
                match arg {
                    Some(a) => Some(a@),
                    None => None,
                },
            ),
    {
        match arg {
            Some(a) => {
                self.custom.insert(guild, String::from_str(a));
            },
            None => {
                self.custom.remove(&guild);
            },
        }
        assert(self.custom() =~= after_prefix_command(
            old(self).custom(),
            guild,
            match arg {
                Some(a) => Some(a@),
                None => None,
            },
        ));
    }
}

} // verus!
