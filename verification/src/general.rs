//! The general commands: search links, the invite link, avatars and the
//! bot's self-description.

use vstd::prelude::*;
use crate::text::{chars_of, decimal, law_decimal_reads_back, push_char, push_decimal, shows_number};

verus! {

/// `s` with every space replaced by an underscore.
pub open spec fn underscored(s: Seq<char>) -> Seq<char> {
    Seq::new(s.len(), |i: int| if s[i] == ' ' { '_' } else { s[i] })
}

/// The search term: the query with spaces turned into underscores, or the
/// default where there is no query.
pub open spec fn search_term(query: Option<Seq<char>>, default: Seq<char>) -> Seq<char> {
    match query {
        Some(q) => underscored(q),
        None => default,
    }
}

/// The search term for a query has the query's length; it has an
/// underscore wherever the query has a space and the query's character
/// everywhere else.
pub proof fn law_search_term_underscores_spaces(q: Seq<char>, default: Seq<char>, i: int)
    ensures
        search_term(Some(q), default).len() == q.len(),
        0 <= i < q.len() && q[i] == ' ' ==> search_term(Some(q), default)[i] == '_',
        0 <= i < q.len() && q[i] != ' ' ==> search_term(Some(q), default)[i] == q[i],
        search_term(None, default) == default,
{
}

/// The optional query with spaces converted to underscores, or otherwise
/// the default.
pub fn default_query(query: Option<&str>, default: &str) -> (r: String)
    ensures
        r@ == search_term(
            match query {
                Some(q) => Some(q@),
                None => None,
            },
            default@,
        ),
{
    match query {
        Some(q) => {
            let cs = chars_of(q);
            let mut r = String::new();
            let n = cs.len();
            let mut i: usize = 0;
            while i < n
                invariant
                    i <= n,
                    n == cs@.len(),
                    cs@ == q@,
                    r@ =~= underscored(q@).take(i as int),
                decreases n - i,
            {
                let c = cs[i];
                push_char(&mut r, if c == ' ' { '_' } else { c });
                i = i + 1;
            }
            assert(underscored(q@).take(n as int) =~= underscored(q@));
            r
        },
        None => String::from_str(default),
    }
}

/// The reply of the Wikipedia command: a link to the article on the query,
/// or to the main page.
pub open spec fn wikipedia_reply(query: Option<Seq<char>>) -> Seq<char> {
    "<https://en.wikipedia.org/wiki/"@ + search_term(query, "Main_Page"@) + ">"@
}

/// The reply of the Wiktionary command: a link to the entry on the query, or
/// to the main page.
pub open spec fn wiktionary_reply(query: Option<Seq<char>>) -> Seq<char> {
    "<https://en.wiktionary.org/wiki/"@ + search_term(query, "Wiktionary:Main_Page"@) + ">"@
}

/// The Wikipedia command's reply to the rest of the message, if any.
pub fn wikipedia(query: Option<&str>) -> (r: String)
    ensures
        r@ == wikipedia_reply(
            match query {
                Some(q) => Some(q@),
                None => None,
            },
        ),
{
    let mut r = String::from_str("<https://en.wikipedia.org/wiki/");
    let term = default_query(query, "Main_Page");
    r.append(term.as_str());
    r.append(">");
    r
}

/// The Wiktionary command's reply to the rest of the message, if any.
pub fn wiktionary(query: Option<&str>) -> (r: String)
    ensures
        r@ == wiktionary_reply(
            match query {
                Some(q) => Some(q@),
                None => None,
            },
        ),
{
    let mut r = String::from_str("<https://en.wiktionary.org/wiki/");
    let term = default_query(query, "Wiktionary:Main_Page");
    r.append(term.as_str());
    r.append(">");
    r
}

/// The invite command's reply: the invite link in angle brackets, which
/// keeps the chat from showing a preview of it.
pub fn invite_reply(url: &str) -> (r: String)
    ensures
        r@ == "<"@ + url@ + ">"@,
{
    let mut r = String::from_str("<");
    r.append(url);
    r.append(">");
    r
}

/// `r` is the part of `url` before its first `?`, or all of `url` if it has
/// none.
pub open spec fn before_query(url: Seq<char>, r: Seq<char>) -> bool {
    &&& r.len() <= url.len()
    &&& r == url.take(r.len() as int)
    &&& !r.contains('?')
    &&& (r.len() == url.len() || url[r.len() as int] == '?')
}

/// Exactly one text is the part of an address before its first `?`.
pub proof fn law_before_query_unique(url: Seq<char>, r1: Seq<char>, r2: Seq<char>)
    requires
        before_query(url, r1),
        before_query(url, r2),
    ensures
        r1 == r2,
{
    if r1.len() < r2.len() {
        assert(r2[r1.len() as int] == url[r1.len() as int]);
        assert(r2.contains('?'));
    } else if r2.len() < r1.len() {
        assert(r1[r2.len() as int] == url[r2.len() as int]);
        assert(r1.contains('?'));
    }
}

/// The part of an address before its first `?` keeps every character of an
/// address without `?`, and is empty for an address that starts with `?`.
pub proof fn law_before_query_cases(url: Seq<char>, r: Seq<char>)
    requires
        before_query(url, r),
    ensures
        !url.contains('?') ==> r == url,
        url.len() > 0 && url[0] == '?' ==> r.len() == 0,
{
    if !url.contains('?') && r.len() < url.len() {
        assert(url.contains('?'));
    }
    if url.len() > 0 && url[0] == '?' && r.len() > 0 {
        assert(r[0] == url[0]);
        assert(r.contains('?'));
    }
}

/// The sum of the member counts is what adding them up one after another
/// from zero gives.
pub proof fn law_total_adds_up(counts: Seq<u64>)
    ensures
        total(counts) == counts.fold_left(0nat, |acc: nat, c: u64| acc + c as nat),
    decreases counts.len(),
{
    if counts.len() > 0 {
        law_total_adds_up(counts.drop_last());
    }
}

/// The avatar's address without its query string: what comes before the
/// first `?`.
pub fn avatar_url(face: &str) -> (r: String)
    ensures
        before_query(face@, r@),
{
    let cs = chars_of(face);
    let n = cs.len();
    let mut r = String::new();
    let mut i: usize = 0;
    while i < n && cs[i] != '?'
        invariant
            i <= n,
            n == cs@.len(),
            cs@ == face@,
            r@ =~= face@.take(i as int),
            !r@.contains('?'),
        decreases n - i,
    {
        push_char(&mut r, cs[i]);
        i = i + 1;
    }
    r
}

/// The sum of the numbers.
pub open spec fn total(counts: Seq<u64>) -> nat
    decreases counts.len(),
{
    if counts.len() == 0 {
        0
    } else {
        total(counts.drop_last()) + counts.last() as nat
    }
}

/// The texts of the about command's embed.
pub struct AboutText {
    pub description: String,
    pub info: String,
    pub links: String,
}

/// The about command's description of the bot.
pub open spec fn about_description() -> Seq<char> {
    "I am a general purpose Discord bot, made with :heart: and Rust."@
}

/// The about command's info field: the number of servers, the users on them
/// in total, and the uptime in seconds or `N/A` where it is not known.
pub open spec fn about_info(servers: nat, users: nat, uptime: Option<u64>) -> Seq<char> {
    "I am currently on "@ + decimal(servers) + " servers, serving "@ + decimal(users)
        + " users in total.\nI have been online for "@ + match uptime {
        Some(t) => decimal(t as nat),
        None => "N/A"@,
    } + " seconds."@
}

/// The about command's links field: the source repository, and the invite
/// link where it is known.
pub open spec fn about_links(invite: Option<Seq<char>>) -> Seq<char> {
    "[GitHub](https://github.com/rsaihe/libra)"@ + match invite {
        Some(url) => "\n[Invite me!]("@ + url + ")"@,
        None => Seq::empty(),
    }
}

/// The about command's info field names the number of servers, the total
/// number of users and the uptime in seconds in full, each as a decimal
/// numeral in its place in the sentence.
pub proof fn law_about_info_shows_numbers(servers: nat, users: nat, uptime: u64)
    ensures
        exists|a: Seq<char>, b: Seq<char>, c: Seq<char>|
            #![trigger shows_number(a, servers), shows_number(b, users), shows_number(c, uptime as nat)]
            shows_number(a, servers) && shows_number(b, users) && shows_number(c, uptime as nat)
                && about_info(servers, users, Some(uptime)) == "I am currently on "@ + a
                + " servers, serving "@ + b + " users in total.\nI have been online for "@ + c
                + " seconds."@,
{
    law_decimal_reads_back(servers);
    law_decimal_reads_back(users);
    law_decimal_reads_back(uptime as nat);
    assert(shows_number(decimal(servers), servers));
    assert(shows_number(decimal(users), users));
    assert(shows_number(decimal(uptime as nat), uptime as nat));
}

/// Where the uptime is not known the info field says `N/A` in its place.
pub proof fn law_about_info_unknown_uptime(servers: nat, users: nat)
    ensures
        exists|a: Seq<char>, b: Seq<char>|
            #![trigger shows_number(a, servers), shows_number(b, users)]
            shows_number(a, servers) && shows_number(b, users)
                && about_info(servers, users, None) == "I am currently on "@ + a
                + " servers, serving "@ + b + " users in total.\nI have been online for "@
                + "N/A"@ + " seconds."@,
{
    law_decimal_reads_back(servers);
    law_decimal_reads_back(users);
    assert(shows_number(decimal(servers), servers));
    assert(shows_number(decimal(users), users));
}

/// The texts of the about command, given the member count of each server the
/// bot is in, its uptime in seconds if known and its invite link if known.
pub fn about_text(member_counts: &Vec<u64>, uptime: Option<u64>, invite: Option<&str>) -> (r:
    AboutText)
    requires
        total(member_counts@) <= u64::MAX,
    ensures
        r.description@ == about_description(),
        r.info@ == about_info(member_counts@.len() as nat, total(member_counts@), uptime),
        r.links@ == about_links(
            match invite {
                Some(u) => Some(u@),
                None => None,
            },
        ),
{
    let n = member_counts.len();
    let mut users: u64 = 0;
    let mut i: usize = 0;
    while i < n
        invariant
            i <= n,
            n == member_counts@.len(),
            total(member_counts@) <= u64::MAX,
            users as nat == total(member_counts@.take(i as int)),
        decreases n - i,
    {
        proof {
            assert(member_counts@.take(i + 1).drop_last() =~= member_counts@.take(i as int));
            lemma_total_prefix(member_counts@, i + 1);
        }
        users = users + member_counts[i];
        i = i + 1;
    }
    assert(member_counts@.take(n as int) =~= member_counts@);
    let mut info = String::from_str("I am currently on ");
    push_decimal(&mut info, n as u64);
    info.append(" servers, serving ");
    push_decimal(&mut info, users);
    info.append(" users in total.\nI have been online for ");
    match uptime {
        Some(t) => push_decimal(&mut info, t),
        None => info.append("N/A"),
    }
    info.append(" seconds.");
    let mut links = String::from_str("[GitHub](https://github.com/rsaihe/libra)");
    match invite {
        Some(url) => {
            links.append("\n[Invite me!](");
            links.append(url);
            links.append(")");
        },
        None => {},
    }
    AboutText {
        description: String::from_str(
            "I am a general purpose Discord bot, made with :heart: and Rust.",
        ),
        info,
        links,
    }
}

proof fn lemma_total_prefix(counts: Seq<u64>, i: int)
    requires
        0 <= i <= counts.len(),
    ensures
        total(counts.take(i)) <= total(counts),
    decreases counts.len() - i,
{
    if i < counts.len() {
        lemma_total_prefix(counts, i + 1);
        assert(counts.take(i + 1).drop_last() =~= counts.take(i));
    } else {
        assert(counts.take(i) =~= counts);
    }
}

} // verus!
