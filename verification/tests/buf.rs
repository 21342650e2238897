use dusk::buf::{Byteable, MemTake, OptionInspect, Recollect, StringBuf};

#[test]
fn string_buffers() {
    let mut b = StringBuf::new();
    assert_eq!(b.len(), 0);
    assert_eq!(b.seg(0), None);
    b.add("ab");
    b.add("");
    b.add("cd");
    assert_eq!(b.len(), 3);
    assert_eq!(b.seg(0), Some("ab"));
    assert_eq!(b.seg(1), Some(""));
    assert_eq!(b.seg(2), Some("cd"));
    assert_eq!(b.seg(3), None);
    assert_eq!(b.seg_vec_in(vec!["x"]), vec!["x", "ab", "", "cd"]);
    let mut it = b.iter();
    assert_eq!(it.next(), Some("ab"));
    assert_eq!(it.next(), Some(""));
    assert_eq!(it.next(), Some("cd"));
    assert_eq!(it.next(), None);
}

#[test]
fn collections() {
    assert_eq!(vec![1, 2, 3].reversed(), vec![3, 2, 1]);
    assert_eq!(vec![1, 2, 3].rereverse(), vec![3, 2, 1]);
    assert_eq!(vec![1, 2, 3].poped(), vec![1, 2]);
    assert_eq!(Vec::<u8>::new().poped(), Vec::<u8>::new());
    assert_eq!(vec![4, 5].to_vec(), vec![4, 5]);
    let mut v = vec![1, 2];
    assert_eq!(v.mem_take(), vec![1, 2]);
    assert!(v.is_empty());
    let mut s = String::from("x");
    assert_eq!(s.mem_take(), "x");
    assert_eq!(s, "");
    assert_eq!(String::from("é").into_bytes(), vec![0xc3, 0xa9]);
    assert_eq!(Byteable::into_bytes(vec![1u8]), vec![1u8]);
    let mut seen = 0;
    assert_eq!(Some(3).inspct(|x| seen = *x), Some(3));
    assert_eq!(seen, 3);
    assert_eq!(None::<u8>.inspct(|_| seen = 9), None);
    assert_eq!(seen, 3);
}

#[test]
fn every_add_is_one_segment() {
    let mut b = StringBuf::new();
    b.add("ab");
    b.add(&12.to_string());
    b.add("");
    assert_eq!(b.len(), 3);
    assert_eq!(b.seg(0), Some("ab"));
    assert_eq!(b.seg(1), Some("12"));
    assert_eq!(b.seg(2), Some(""));
    assert_eq!(b.seg(3), None);
}
