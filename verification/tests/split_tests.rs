use kana::split_romaji;

#[test]
fn test_split_romaji_basic_cases() {
    // empty string
    assert_eq!(split_romaji(""), Vec::<String>::new());

    // non-kana passthrough
    assert_eq!(split_romaji("abc"), vec!("a", "b", "c"));

    // hiragana (basic)
    assert_eq!(
        split_romaji("あそび あそばせ"),
        vec!("a", "so", "bi", " ", "a", "so", "ba", "se")
    );

    // katakana (basic)
    assert_eq!(
        split_romaji("アソビ アソバセ"),
        vec!("a", "so", "bi", " ", "a", "so", "ba", "se")
    );

    // small tsu
    assert_eq!(split_romaji("だって"), vec!("da", "t", "te"));
    assert_eq!(split_romaji("ダッテ"), vec!("da", "t", "te"));

    // long bar
    assert_eq!(split_romaji("ハーハー"), vec!("ha", "a", "ha", "a"));

    // digraphs (basic)
    assert_eq!(
        split_romaji("きゃにゅびょ"),
        vec!("k", "ya", "n", "yu", "b", "yo")
    );
    assert_eq!(
        split_romaji("キャニュビョ"),
        vec!("k", "ya", "n", "yu", "b", "yo")
    );

    // digraphs (ch, sh, j)
    assert_eq!(
        split_romaji("しゃじゃちゃぢゃシェフュ"),
        vec!("sh", "a", "j", "a", "ch", "a", "dj", "a", "sh", "e", "f", "yu")
    );

    // digraph with replacement
    assert_eq!(split_romaji("イョ"), vec!("y", "o"));
    assert_eq!(split_romaji("ヴァ"), vec!("v", "a"));
    assert_eq!(split_romaji("ヴア"), vec!("vu", "a"));
    assert_eq!(split_romaji("ヴヴ"), vec!("vu", "vu"));
    assert_eq!(split_romaji("クォ"), vec!("kw", "o"));
}

#[test]
fn test_tsu_with_digraph() {
    assert_eq!(split_romaji("ッイョ"), vec!("y", "y", "o"));
    assert_eq!(split_romaji("ッッイョ"), vec!("y", "y", "y", "o"));
    assert_eq!(split_romaji("ハッイョ"), vec!("ha", "y", "y", "o"));
    assert_eq!(
        split_romaji("ハッッイョ"),
        vec!("ha", "y", "y", "y", "o")
    );
    assert_eq!(
        split_romaji("ッハッッイョ"),
        vec!("h", "ha", "y", "y", "y", "o")
    );
    assert_eq!(
        split_romaji("ッハッッイイョ"),
        vec!("h", "ha", "i", "i", "i", "y", "o")
    );
    assert_eq!(
        split_romaji("ッハッッイッッッイョ"),
        vec!("h", "ha", "i", "i", "i", "y", "y", "y", "y", "o")
    );
}
