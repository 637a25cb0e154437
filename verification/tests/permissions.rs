use libra::permissions::permissions_from_setting;

#[test]
fn permissions_setting() {
    assert_eq!(permissions_from_setting(None), 0);
    assert_eq!(permissions_from_setting(Some("8")), 8);
    assert_eq!(permissions_from_setting(Some("67488832")), 67488832);
    assert_eq!(permissions_from_setting(Some("nope")), 0);
    assert_eq!(permissions_from_setting(Some("18446744073709551616")), 0);
    assert_eq!(permissions_from_setting(Some("18446744073709551615")), 0x7ff7fdff);
    assert_eq!(permissions_from_setting(Some("512")), 0);
}
