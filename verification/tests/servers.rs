use libra::servers::{server_list, sort_texts};

#[test]
fn server_list_sorted_lines() {
    let names = vec!["beta".to_string(), "Alpha".to_string(), "alpha".to_string(), "gamma".to_string(), "beta".to_string()];
    assert_eq!(server_list(names), "Alpha\nalpha\nbeta\nbeta\ngamma\n");
    assert_eq!(server_list(vec![]), "");
}

#[test]
fn sort_matches_std() {
    let names: Vec<String> = ["zeta", "Éclair", "eclair", "", "a", "ab", "aa", "日本", "Z"].iter().map(|s| s.to_string()).collect();
    let mut expected = names.clone();
    expected.sort_unstable();
    assert_eq!(sort_texts(names), expected);
}
