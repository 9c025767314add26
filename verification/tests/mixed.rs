use faster_chars_count::chars_count_str;

fn count_test_base<F>(f: F)
where
    F: Fn(&str) -> usize,
{
    let a = "Hello, world!";
    assert_eq!(a.chars().count(), f(a));
    let a = "rust=щМЖ";
    assert_eq!(a.chars().count(), f(a));
    let a = "rust=щМЖ;rust=щМЖ;rust=щМЖ;rust=щМЖ;rust=щМЖ;rust=щМЖ;rust=щМЖ;rust=щМЖ;rust=щМЖ;rust=щМЖ;rust=щМЖ;rust=щМЖ;rust=щМЖ;rust=щМЖ;rust=щМЖ;rust=щМЖ;rust=щМЖ;rust=щМЖ";
    assert_eq!(a.chars().count(), f(a));
    let a = "rust=щМЖ;rust=щМЖ;rust=щМЖ;rust=щМЖ;rust=щМЖ;rust=щМЖ;rust=щМЖ;rust=щМЖ;rust=щМЖ;rust=щМЖ;rust=щМЖ;rust=щМЖ;rust=щМЖ;rust=щМЖ;rust=щМЖ;rust=щМЖ;rust=щМЖ;rust=щМЖ
        rust=щМЖ;rust=щМЖ;rust=щМЖ;rust=щМЖ;rust=щМЖ;rust=щМЖ;rust=щМЖ;;rust=щМЖ;rust=щМЖ;rust=щМЖ;;v;rust=щМЖ;rust=щМЖ;;v;rust=щМЖ;rust=щМЖ;v;rust=щМЖ;v;v;v;rust=щМЖ;rust=щМЖ;rust=щМЖ";
    assert_eq!(a.chars().count(), f(a));
    let a = "rust=щМЖ;rust=щМЖ;rust=щМЖ;rust=щМЖ;rust=щМЖ;rust=щМЖ;rust=щМЖ;rust=щМЖ;rust=щМЖ;rust=щМЖ;rust=щМЖ;rust=щМЖ;rust=щМЖ;rust=щМЖ;rust=щМЖ;rust=щМЖ;rust=щМЖ;rust=щМЖ
        rust=щМЖ;rust=щМЖ;rust=щМЖ;rust=щМЖ;rust=щМЖ;rust=щМЖ;rust=щМЖ;;rust=щМЖ;rust=щМЖ;rust=щМЖ;;v;rust=щМЖ;rust=щМЖ;;v;rust=щМЖ;rust=щМЖ;v;rust=щМЖ;v;v;v;rust=щМЖ;rust=щМЖ;rust=щМЖ;щМЖуАБщЕ╕хМЦщЙД;щМЖуАБщЕ╕хМЦщЙД;├Б├Б├Б├Б;ЁЯШАЁЯШБЁЯШВ";
    assert_eq!(a.chars().count(), f(a));
}

#[test]
fn count_mix1() {
    count_test_base(chars_count_str);
}

fn lib_count_test_base<F>(f: F)
where
    F: Fn(&str) -> usize,
{
    let a = "Hello, world!";
    assert_eq!(a.chars().count(), f(a));
    let a = "rust=йҢҶ";
    assert_eq!(a.chars().count(), f(a));
    let a = "rust=йҢҶ;rust=йҢҶ;rust=йҢҶ;rust=йҢҶ;rust=йҢҶ;rust=йҢҶ;rust=йҢҶ;rust=йҢҶ;rust=йҢҶ;rust=йҢҶ;rust=йҢҶ;rust=йҢҶ;rust=йҢҶ;rust=йҢҶ;rust=йҢҶ;rust=йҢҶ;rust=йҢҶ;rust=йҢҶ";
    assert_eq!(a.chars().count(), f(a));
    let a = "rust=йҢҶ;rust=йҢҶ;rust=йҢҶ;rust=йҢҶ;rust=йҢҶ;rust=йҢҶ;rust=йҢҶ;rust=йҢҶ;rust=йҢҶ;rust=йҢҶ;rust=йҢҶ;rust=йҢҶ;rust=йҢҶ;rust=йҢҶ;rust=йҢҶ;rust=йҢҶ;rust=йҢҶ;rust=йҢҶ
        rust=йҢҶ;rust=йҢҶ;rust=йҢҶ;rust=йҢҶ;rust=йҢҶ;rust=йҢҶ;rust=йҢҶ;;rust=йҢҶ;rust=йҢҶ;rust=йҢҶ;;v;rust=йҢҶ;rust=йҢҶ;;v;rust=йҢҶ;rust=йҢҶ;v;rust=йҢҶ;v;v;v;rust=йҢҶ;rust=йҢҶ;rust=йҢҶ";
    assert_eq!(a.chars().count(), f(a));
    let a = "rust=йҢҶ;rust=йҢҶ;rust=йҢҶ;rust=йҢҶ;rust=йҢҶ;rust=йҢҶ;rust=йҢҶ;rust=йҢҶ;rust=йҢҶ;rust=йҢҶ;rust=йҢҶ;rust=йҢҶ;rust=йҢҶ;rust=йҢҶ;rust=йҢҶ;rust=йҢҶ;rust=йҢҶ;rust=йҢҶ
        rust=йҢҶ;rust=йҢҶ;rust=йҢҶ;rust=йҢҶ;rust=йҢҶ;rust=йҢҶ;rust=йҢҶ;;rust=йҢҶ;rust=йҢҶ;rust=йҢҶ;;v;rust=йҢҶ;rust=йҢҶ;;v;rust=йҢҶ;rust=йҢҶ;v;rust=йҢҶ;v;v;v;rust=йҢҶ;rust=йҢҶ;rust=йҢҶ;йҢҶгҖҒй…ёеҢ–йү„;йҢҶгҖҒй…ёеҢ–йү„;ГҒГҒГҒГҒ;рҹҳҖрҹҳҒрҹҳӮ";
    assert_eq!(a.chars().count(), f(a));
}

#[test]
fn lib_count_mix1() {
    lib_count_test_base(chars_count_str);
}
