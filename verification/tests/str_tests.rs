use common::str::{i32_to_string, join, join_with_map, u32_to_string, AsText, Concatable,
    ConcatableWithMap};

pub struct Test {
    x: i32,
}

impl AsText for Test {
    fn text(&self) -> vstd::seq::Seq<char> {
        unreachable!()
    }

    fn render(&self) -> String {
        format!("<{}>", self.x)
    }
}

#[test]
fn test_concatable() {
    let ts = vec![Test { x: 1 }, Test { x: 2 }];
    assert_eq!("<1><2>".to_string(), ts.concat2());
    assert_eq!("<1>=<2>".to_string(), ts.join2("="));

    let str_vec = vec!["a", "b", "c"];
    let str_arr = ["a", "b", "c"];
    assert_eq!("abc".to_string(), str_vec.concat2());
    assert_eq!("abc".to_string(), str_arr.concat2());
}

#[test]
fn test_concatable_with_map() {
    let str_vec = vec!["a", "b", "c"];
    let str_arr = ["a", "b", "c"];

    assert_eq!("abc".to_string(), str_vec.concat_with_map(|x| format!("{}", x)));
    assert_eq!("abc".to_string(), str_arr.concat_with_map(|x| format!("{}", x)));

    assert_eq!("a,b,c".to_string(), str_vec.join_with_map(",", |x| format!("{}", x)));
    assert_eq!("a,b,c".to_string(), str_arr.join_with_map(",", |x| format!("{}", x)));
}

#[test]
fn test_join() {
    let str_vec = vec!["a", "b", "c"];
    let str_arr = ["a", "b", "c"];

    assert_eq!("a,b,c".to_string(), join(&str_vec, ","));
    assert_eq!("a,b,c".to_string(), join(&str_arr, ","));

    assert_eq!("a,b,c".to_string(), join_with_map(&str_vec, ",", |x| format!("{}", x)));
    assert_eq!("a,b,c".to_string(), join_with_map(&str_arr, ",", |x| format!("{}", x)));
}

#[test]
fn join_edge_cases() {
    let empty: Vec<String> = vec![];
    assert_eq!("".to_string(), join(&empty, ","));
    let one = vec!["solo".to_string()];
    assert_eq!("solo".to_string(), join(&one, ","));
    let two = vec!["a".to_string(), "".to_string()];
    assert_eq!("a;".to_string(), two.join2(";"));
    assert_eq!("a".to_string(), two.concat2());
}

#[test]
fn decimal_rendering() {
    assert_eq!("0", u32_to_string(0).as_str());
    assert_eq!("7", u32_to_string(7).as_str());
    assert_eq!("4294967295", u32_to_string(u32::MAX).as_str());
    assert_eq!("120", u32_to_string(120).as_str());
    assert_eq!("-1", i32_to_string(-1).as_str());
    assert_eq!("2147483647", i32_to_string(i32::MAX).as_str());
    assert_eq!("-2147483648", i32_to_string(i32::MIN).as_str());
}
