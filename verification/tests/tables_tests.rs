use kana::Kana;

#[test]
fn test_get_kana() {
    assert_eq!(Kana::get('ー').unwrap(), Kana::Bar('ー'));
    assert_eq!(Kana::get('ッ').unwrap(), Kana::SmallTsu('ッ'));
    assert_eq!(Kana::get('そ').unwrap(), Kana::Chr('そ', "so"));
    assert_eq!(Kana::get('x'), None);
}
