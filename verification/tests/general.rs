use libra::general::{about_text, avatar_url, default_query, invite_reply, wikipedia, wiktionary};

#[test]
fn default_query_replaces_spaces() {
    assert_eq!(default_query(Some("Rust programming language"), "Main_Page"), "Rust_programming_language");
    assert_eq!(default_query(Some("  a b  "), "x"), "__a_b__");
    assert_eq!(default_query(None, "Main_Page"), "Main_Page");
    assert_eq!(default_query(Some(""), "Main_Page"), "");
}

#[test]
fn wikipedia_links() {
    assert_eq!(wikipedia(Some("Alan Turing")), "<https://en.wikipedia.org/wiki/Alan_Turing>");
    assert_eq!(wikipedia(None), "<https://en.wikipedia.org/wiki/Main_Page>");
}

#[test]
fn wiktionary_links() {
    assert_eq!(wiktionary(Some("hello world")), "<https://en.wiktionary.org/wiki/hello_world>");
    assert_eq!(wiktionary(None), "<https://en.wiktionary.org/wiki/Wiktionary:Main_Page>");
}

#[test]
fn invite_link_in_brackets() {
    assert_eq!(invite_reply("https://example.com/x"), "<https://example.com/x>");
}

#[test]
fn avatar_url_drops_query() {
    assert_eq!(avatar_url("https://cdn.example/avatars/1/abc.webp?size=1024"), "https://cdn.example/avatars/1/abc.webp");
    assert_eq!(avatar_url("https://cdn.example/a.png"), "https://cdn.example/a.png");
    assert_eq!(avatar_url("?x"), "");
    assert_eq!(avatar_url("a?b?c"), "a");
    assert_eq!(avatar_url(""), "");
}

#[test]
fn about_texts() {
    let t = about_text(&vec![3, 4, 10], Some(42), Some("https://invite"));
    assert_eq!(t.description, "I am a general purpose Discord bot, made with :heart: and Rust.");
    assert_eq!(t.info, "I am currently on 3 servers, serving 17 users in total.\nI have been online for 42 seconds.");
    assert_eq!(t.links, "[GitHub](https://github.com/rsaihe/libra)\n[Invite me!](https://invite)");
    let t = about_text(&vec![], None, None);
    assert_eq!(t.info, "I am currently on 0 servers, serving 0 users in total.\nI have been online for N/A seconds.");
    assert_eq!(t.links, "[GitHub](https://github.com/rsaihe/libra)");
}
