use liboverviewer::container::{
    container_file_name, contains_coord, discover, parse_container_name, split_dots,
};
use liboverviewer::decimal::{parse_i64, push_i64};

fn chars(s: &str) -> Vec<char> {
    s.chars().collect()
}

fn written(v: i64) -> String {
    let mut out = String::new();
    push_i64(&mut out, v);
    out
}

#[test]
fn container_names_are_read() {
    assert_eq!(parse_container_name("r.3.-5.mca"), Some((3, -5)));
    assert_eq!(parse_container_name("r.0.0.mca"), Some((0, 0)));
    assert_eq!(parse_container_name("r.-1.-1.mca"), Some((-1, -1)));
    assert_eq!(parse_container_name("r.+7.007.mca"), Some((7, 7)));
    assert_eq!(
        parse_container_name("r.9223372036854775807.-9223372036854775808.mca"),
        Some((i64::MAX, i64::MIN))
    );
}

#[test]
fn other_names_are_rejected() {
    assert_eq!(parse_container_name("foo.txt"), None);
    assert_eq!(parse_container_name("r.3.mca"), None);
    assert_eq!(parse_container_name("r.x.5.mca"), None);
    assert_eq!(parse_container_name(""), None);
    assert_eq!(parse_container_name("r.1.2.mcr"), None);
    assert_eq!(parse_container_name("R.1.2.mca"), None);
    assert_eq!(parse_container_name("r.1.2.mca."), None);
    assert_eq!(parse_container_name("r.1.2.3.mca"), None);
    assert_eq!(parse_container_name("r..2.mca"), None);
    assert_eq!(parse_container_name("r.1..mca"), None);
    assert_eq!(parse_container_name("r.1.2.mca.bak"), None);
    assert_eq!(parse_container_name(".r.1.2.mca"), None);
    assert_eq!(parse_container_name("r.1.-.mca"), None);
    assert_eq!(parse_container_name("r.1 .2.mca"), None);
    assert_eq!(parse_container_name("r.9223372036854775808.0.mca"), None);
    assert_eq!(parse_container_name("r.0.-9223372036854775809.mca"), None);
    assert_eq!(parse_container_name("r.\u{0663}.5.mca"), None);
    assert_eq!(parse_container_name("level.dat"), None);
}

#[test]
fn names_are_cut_at_dots() {
    assert_eq!(split_dots(""), vec![chars("")]);
    assert_eq!(split_dots("abc"), vec![chars("abc")]);
    assert_eq!(split_dots("."), vec![chars(""), chars("")]);
    assert_eq!(split_dots("a..b"), vec![chars("a"), chars(""), chars("b")]);
    assert_eq!(
        split_dots("r.3.-5.mca"),
        vec![chars("r"), chars("3"), chars("-5"), chars("mca")]
    );
    assert_eq!(split_dots("\u{e9}.\u{4e16}"), vec![chars("\u{e9}"), chars("\u{4e16}")]);
}

#[test]
fn numerals_are_read_as_std_reads_them() {
    let cases = [
        "0", "7", "-7", "+7", "007", "-0", "+0", "", "-", "+", "--1", "+-1", "-+1", "1-", "1 ",
        " 1", "1.0", "0x10", "a", "12a", "9223372036854775807", "9223372036854775808",
        "-9223372036854775808", "-9223372036854775809", "+9223372036854775807",
        "00000000000000000000000000009223372036854775807", "18446744073709551616",
        "99999999999999999999999999999", "-99999999999999999999999999999", "1_000",
        "\u{0661}",
    ];
    for case in cases.iter() {
        assert_eq!(parse_i64(&chars(case)), i64::from_str_radix(case, 10).ok(), "{}", case);
    }
}

#[test]
fn numerals_have_exact_values() {
    assert_eq!(parse_i64(&chars("-5")), Some(-5));
    assert_eq!(parse_i64(&chars("1454034069")), Some(1454034069));
    assert_eq!(parse_i64(&chars("-9223372036854775808")), Some(i64::MIN));
    assert_eq!(parse_i64(&chars("9223372036854775808")), None);
}

#[test]
fn numbers_are_written_as_std_writes_them() {
    let values = [
        0,
        1,
        -1,
        9,
        10,
        -10,
        99,
        100,
        12345,
        -67890,
        i64::MAX,
        i64::MIN,
        i64::MIN + 1,
        i64::MAX - 1,
    ];
    for &v in values.iter() {
        assert_eq!(written(v), format!("{}", v));
        assert_eq!(parse_i64(&chars(&written(v))), Some(v));
    }
    let mut out = String::from("x=");
    push_i64(&mut out, -42);
    assert_eq!(out, "x=-42");
}

#[test]
fn file_names_name_their_container() {
    assert_eq!(container_file_name(3, -5), "r.3.-5.mca");
    assert_eq!(container_file_name(0, 0), "r.0.0.mca");
    assert_eq!(
        container_file_name(i64::MIN, i64::MAX),
        "r.-9223372036854775808.9223372036854775807.mca"
    );
    let values = [i64::MIN, -33, -1, 0, 1, 31, 32, i64::MAX];
    for &x in values.iter() {
        for &z in values.iter() {
            assert_eq!(parse_container_name(&container_file_name(x, z)), Some((x, z)));
        }
    }
}

#[test]
fn containers_are_discovered_among_other_files() {
    let names: Vec<String> = ["r.3.-5.mca", "foo.txt", "r.3.mca", "r.x.5.mca", "r.0.0.mca"]
        .iter()
        .map(|s| s.to_string())
        .collect();
    assert_eq!(discover(&names), vec![(3, -5), (0, 0)]);
    assert_eq!(discover(&Vec::new()), Vec::<(i64, i64)>::new());
}

#[test]
fn a_container_is_discovered_once() {
    let names: Vec<String> =
        ["r.3.5.mca", "r.03.5.mca", "r.+3.5.mca"].iter().map(|s| s.to_string()).collect();
    assert_eq!(discover(&names), vec![(3, 5)]);
    let names: Vec<String> = [
        "r.1.1.mca", "r.0.0.mca", "r.1.1.mca", "r.-0.+0.mca", "r.2.2.mca", "r.01.001.mca",
        "r.2.2.mca", "r.0.0.mca",
    ]
    .iter()
    .map(|s| s.to_string())
    .collect();
    assert_eq!(discover(&names), vec![(1, 1), (0, 0), (2, 2)]);
}

#[test]
fn coordinates_are_looked_up() {
    let coords = vec![(3, -5), (0, 0), (i64::MIN, i64::MAX)];
    assert!(contains_coord(&coords, 3, -5));
    assert!(contains_coord(&coords, 0, 0));
    assert!(contains_coord(&coords, i64::MIN, i64::MAX));
    assert!(!contains_coord(&coords, -5, 3));
    assert!(!contains_coord(&coords, 3, 0));
    assert!(!contains_coord(&Vec::new(), 0, 0));
}
