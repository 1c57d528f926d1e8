#[test]
fn test_char_to_i32() {
    let s = "你好！";
    s.chars().for_each(|c| println!("{}", c as i32))
}

#[test]
fn test_repeat() {
    let v = [0].repeat(0);
    assert_eq!(v.len(), 0);
}
