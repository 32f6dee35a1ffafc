use kana::diff::diff;
use kana::Diff;

fn s(txt: &str) -> Diff {
    Diff::Same(String::from(txt))
}

fn d(txt: &str) -> Diff {
    Diff::Delete(String::from(txt))
}

fn i(txt: &str) -> Diff {
    Diff::Insert(String::from(txt))
}

fn c(a: &str, b: &str) -> Diff {
    Diff::Change(String::from(a), String::from(b))
}

fn strings(xs: &[&str]) -> Vec<String> {
    xs.iter().map(|x| String::from(*x)).collect()
}

#[test]
fn test_diff() {
    let src = strings(&["A1", "B2", "C3", "D4", "E5", "F6", "G7", "H8"]);
    assert_eq!(
        diff(&src, "A1xxB2yyD4F6G7zzH8"),
        vec![
            s("A1"),
            d("xx"),
            s("B2"),
            c("yy", "C3"),
            s("D4"),
            i("E5"),
            s("F6"),
            s("G7"),
            d("zz"),
            s("H8"),
        ]
    );
}

#[test]
fn test_diff_empty() {
    // Empty source and input
    let src: Vec<String> = Vec::new();
    assert_eq!(diff(&src, ""), Vec::new());

    // Empty source and non-empty input
    assert_eq!(diff(&src, "abc"), vec![d("abc")]);

    // Empty input
    let src = strings(&["abc"]);
    assert_eq!(diff(&src, ""), vec![i("abc")]);

    // Empty input, multiple syllables
    let src = strings(&["a", "b", "c"]);
    assert_eq!(diff(&src, ""), vec![i("a"), i("b"), i("c")]);
}

#[test]
fn test_diff_insert() {
    let src = strings(&["a", "b", "c"]);
    assert_eq!(diff(&src, "bc"), vec![i("a"), s("b"), s("c")]);
    assert_eq!(diff(&src, "ab"), vec![s("a"), s("b"), i("c")]);
    assert_eq!(diff(&src, "ac"), vec![s("a"), i("b"), s("c")]);

    let src = strings(&["a", "b", "c", "d", "e"]);
    assert_eq!(
        diff(&src, "bd"),
        vec![i("a"), s("b"), i("c"), s("d"), i("e")]
    );
}

#[test]
fn test_diff_delete() {
    let src = strings(&["b", "c"]);
    assert_eq!(diff(&src, "abc"), vec![d("a"), s("b"), s("c")]);
    assert_eq!(diff(&src, "[a]bc"), vec![d("[a]"), s("b"), s("c")]);
    assert_eq!(diff(&src, "bcd"), vec![s("b"), s("c"), d("d")]);
    assert_eq!(diff(&src, "bc[d]"), vec![s("b"), s("c"), d("[d]")]);
    assert_eq!(diff(&src, "bxc"), vec![s("b"), d("x"), s("c")]);
    assert_eq!(diff(&src, "b[x]c"), vec![s("b"), d("[x]"), s("c")]);

    let src = strings(&["a", "b", "c", "d", "e", "f"]);
    assert_eq!(
        diff(&src, "x[ab2cd3ef]x"),
        vec![
            d("x["),
            s("a"),
            s("b"),
            d("2"),
            s("c"),
            s("d"),
            d("3"),
            s("e"),
            s("f"),
            d("]x"),
        ]
    );
}

#[test]
fn test_diff_replace() {
    let src = strings(&["a", "b", "c"]);
    assert_eq!(diff(&src, "Abc"), vec![c("A", "a"), s("b"), s("c")]);
    assert_eq!(diff(&src, "aBc"), vec![s("a"), c("B", "b"), s("c")]);
    assert_eq!(diff(&src, "abC"), vec![s("a"), s("b"), c("C", "c")]);
    assert_eq!(diff(&src, "[A]bc"), vec![c("[A]", "a"), s("b"), s("c")]);
    assert_eq!(diff(&src, "a[B]c"), vec![s("a"), c("[B]", "b"), s("c")]);
    assert_eq!(diff(&src, "ab[C]"), vec![s("a"), s("b"), c("[C]", "c")]);

    let src = strings(&["a", "b", "c", "d", "e", "f", "g"]);
    assert_eq!(
        diff(&src, "[A]b[C]d[E]f[G]"),
        vec![
            c("[A]", "a"),
            s("b"),
            c("[C]", "c"),
            s("d"),
            c("[E]", "e"),
            s("f"),
            c("[G]", "g"),
        ]
    );
}
