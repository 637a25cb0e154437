use libra::fun::{answers, eight_ball, join_pieces, scramble};

#[test]
fn eight_ball_answers_from_the_list() {
    let all = answers();
    assert_eq!(all.len(), 20);
    assert_eq!(all[3], "Yes\u{2014}definitely.");
    for _ in 0..50 {
        assert!(all.contains(&eight_ball().unwrap()));
    }
}

fn sorted_chars(s: &str) -> Vec<char> {
    let mut v: Vec<char> = s.chars().collect();
    v.sort();
    v
}

#[test]
fn scramble_keeps_characters() {
    for text in ["hello world", "The quick (\"brown\") fox", "", "a", "e\u{301}t\u{e9}", "日本語 テキスト"].iter() {
        let r = scramble(text).unwrap();
        assert_eq!(sorted_chars(&r), sorted_chars(text));
    }
}

#[test]
fn scramble_keeps_word_boundaries() {
    let r = scramble("ab, cd!").unwrap();
    let parts: Vec<&str> = r.split(' ').collect();
    assert_eq!(parts.len(), 2);
    assert!(parts[0] == "ab," || parts[0] == "ba,");
    assert!(parts[1] == "cd!" || parts[1] == "dc!");
}

#[test]
fn scramble_keeps_grapheme_clusters_whole() {
    let r = scramble("e\u{301}a").unwrap();
    assert!(r == "e\u{301}a" || r == "ae\u{301}");
}

#[test]
fn join_pieces_in_order() {
    let pieces = vec![vec!["b", "a"], vec![" "], vec![], vec!["d", "e\u{301}", "c"]];
    assert_eq!(join_pieces(&pieces), "ba de\u{301}c");
    assert_eq!(join_pieces(&vec![]), "");
}

#[test]
fn scramble_keeps_segment_offsets() {
    let text = "one, two three!";
    for _ in 0..20 {
        let r = scramble(text).unwrap();
        assert_eq!(r.len(), text.len());
        assert_eq!(&r[3..5], ", ");
        assert_eq!(&r[8..9], " ");
        assert_eq!(&r[14..], "!");
    }
}

#[test]
fn scramble_of_empty_text() {
    assert_eq!(scramble("").unwrap(), "");
}
