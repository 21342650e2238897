use dusk::sd2::{write_with_code, ReadError, ReadIn, WriteOut};
use dusk::symbol_info::{Info, Typ};

#[test]
fn integers_are_big_endian() {
    let mut out = Vec::new();
    0x1234u16.write_out(&mut out);
    5usize.write_out(&mut out);
    7u8.write_out(&mut out);
    assert_eq!(out, vec![0x12, 0x34, 0, 0, 0, 0, 0, 0, 0, 5, 7]);
    let (a, p) = u16::read_in(&out, 0).ok().unwrap();
    assert_eq!((a, p), (0x1234, 2));
    let (b, p) = usize::read_in(&out, p).ok().unwrap();
    assert_eq!((b, p), (5, 10));
    let (c, p) = u8::read_in(&out, p).ok().unwrap();
    assert_eq!((c, p), (7, 11));
    assert_eq!(u8::read_in(&out, p).err(), Some(ReadError::UnexpectedEof));
    assert_eq!(usize::read_in(&out, 4).err(), Some(ReadError::UnexpectedEof));
}

#[test]
fn booleans() {
    let mut out = Vec::new();
    true.write_out(&mut out);
    false.write_out(&mut out);
    assert_eq!(out, vec![0, 1]);
    assert_eq!(bool::read_in(&out, 0).ok(), Some((true, 1)));
    assert_eq!(bool::read_in(&out, 1).ok(), Some((false, 2)));
}

#[test]
fn strings() {
    let mut out = Vec::new();
    String::from("hé").write_out(&mut out);
    assert_eq!(out, vec![0, 0, 0, 0, 0, 0, 0, 3, b'h', 0xc3, 0xa9]);
    let (s, p) = String::read_in(&out, 0).ok().unwrap();
    assert_eq!(s, "hé");
    assert_eq!(p, 11);
    assert_eq!(String::read_in(&out[..10], 0).err(), Some(ReadError::UnexpectedEof));
    let bad = vec![0, 0, 0, 0, 0, 0, 0, 1, 0xff];
    assert_eq!(String::read_in(&bad, 0).err(), Some(ReadError::Utf8));
}

#[test]
fn compound_values() {
    let mut out = Vec::new();
    (3u8, true).write_out(&mut out);
    vec![1u16, 2u16].write_out(&mut out);
    Box::new(9u8).write_out(&mut out);
    write_with_code(&4u8, &2u8, &mut out);
    assert_eq!(out, vec![3, 0, 0, 0, 0, 0, 0, 0, 0, 2, 0, 1, 0, 2, 9, 2, 4]);
    let ((a, b), p) = <(u8, bool)>::read_in(&out, 0).ok().unwrap();
    assert_eq!((a, b, p), (3, true, 2));
    let (x, q) = <Box<u8>>::read_in(&out, 14).ok().unwrap();
    assert_eq!((*x, q), (9, 15));
}

#[test]
fn vectors_read_back() {
    let v: Vec<u16> = vec![1, 513];
    let mut bytes = Vec::new();
    v.write_out(&mut bytes);
    assert_eq!(bytes, vec![0, 0, 0, 0, 0, 0, 0, 2, 0, 1, 2, 1]);
    let (back, end) = dusk::sd2::read_vec::<u16>(&bytes, 0).ok().unwrap();
    assert_eq!(back, v);
    assert_eq!(end, 12);

    let words = vec!["ab".to_string(), String::new()];
    let mut bytes = vec![9u8];
    words.write_out(&mut bytes);
    let (back, end) = dusk::sd2::read_vec::<String>(&bytes, 1).ok().unwrap();
    assert_eq!(back, words);
    assert_eq!(end, bytes.len());

    // One byte short: the last item cannot be read.
    let short = &bytes[..bytes.len() - 1];
    assert!(dusk::sd2::read_vec::<String>(short, 1).is_err());
    assert!(dusk::sd2::read_vec::<u8>(&[0, 0, 0], 0).is_err());
}

#[test]
fn symbol_information_bytes() {
    let lit = Info::lit_string(5);
    let mut bytes = Vec::new();
    lit.write_out(&mut bytes);
    assert_eq!(bytes, vec![2, 1, 0, 0, 0, 0, 0, 0, 0, 5, 0, 0, 0, 0, 0, 0, 0, 0]);
    let (back, end) = Info::read_in(&bytes, 0).ok().unwrap();
    assert_eq!(end, 18);
    assert!(back.same_as(&lit));

    let local = Info::local(4, vec![Info::lit_natural(1), Info::address(9, &Info::null())]).in_scope(3);
    let addr = Info::address(7, &local);
    let mut bytes = vec![0xaa];
    addr.write_out(&mut bytes);
    let (back, end) = Info::read_in(&bytes, 1).ok().unwrap();
    assert_eq!(end, bytes.len());
    assert!(back.same_as(&addr));
    match &back.typ {
        Typ::Address(a) => match &a.ret_t.typ {
            Typ::Local(l) => {
                assert_eq!(l.fp_off, 4);
                assert_eq!(l.types.len(), 2);
                assert_eq!(a.ret_t.scope_id, 3);
            }
            other => panic!("{other:?}"),
        },
        other => panic!("{other:?}"),
    }

    // A type code that is none of the three, a literal kind that is none of
    // the five, and bytes cut short are refused.
    assert!(Info::read_in(&[3u8; 18], 0).is_err());
    let mut bad = vec![2u8, 9];
    bad.extend_from_slice(&[0u8; 16]);
    assert!(Info::read_in(&bad, 0).is_err());
    assert!(Info::read_in(&bytes[..bytes.len() - 1], 1).is_err());
}
