use q3bsp::entity::{parse_char, parse_params, take_text_until_quote, EntityValue};
use q3bsp::helpers::{
    bytes_before_nul, read_i32_at, read_ivec2_at, read_ivec3_at, read_u32_at, read_vec2_at,
    read_vec3_at, skip, treat_as_whitespace, ParseError,
};
use q3bsp::sorted_set::{insert_sorted, sorted_distinct_of};

#[test]
fn readers_at_offsets() {
    let mut v = vec![9u8, 9];
    for x in [1i32, -2, 3] {
        v.extend_from_slice(&x.to_le_bytes());
    }
    assert_eq!(read_u32_at(&v, 2), 1);
    assert_eq!(read_i32_at(&v, 6), -2);
    assert_eq!(read_ivec3_at(&v, 2), [1, -2, 3]);
    assert_eq!(read_ivec2_at(&v, 6), [-2, 3]);
    assert_eq!(read_vec3_at(&v, 2), [1, 0xffff_fffe, 3]);
    assert_eq!(read_vec2_at(&v, 2), [1, 0xffff_fffe]);
}

#[test]
fn byte_helpers() {
    assert_eq!(bytes_before_nul(b"ab\0cd", 0, 5), b"ab".to_vec());
    assert_eq!(bytes_before_nul(b"ab\0cd", 3, 5), b"cd".to_vec());
    assert_eq!(bytes_before_nul(b"abc", 1, 1), Vec::<u8>::new());
    assert_eq!(skip(b"abcdef", 4), b"ef");
    assert_eq!(skip(b"abc", 3), b"");
    assert!(treat_as_whitespace(b' '));
    assert!(treat_as_whitespace(0));
    assert!(treat_as_whitespace(0x85));
    assert!(treat_as_whitespace(0xa0));
    assert!(!treat_as_whitespace(0xa1));
    assert!(!treat_as_whitespace(b'a'));
    assert!(!treat_as_whitespace(0x7e));
}

#[test]
fn characters_and_quoted_text() {
    assert_eq!(parse_char(b"{x", b'{'), Ok((1, ())));
    assert_eq!(parse_char(b"x{", b'{'), Err(ParseError::Error));
    assert_eq!(parse_char(b"", b'{'), Err(ParseError::Incomplete));
    assert_eq!(take_text_until_quote(b"abc\"def"), Ok((3, "abc".to_string())));
    assert_eq!(take_text_until_quote(b"\""), Ok((0, String::new())));
    assert_eq!(take_text_until_quote(b"abc"), Err(ParseError::Error));
    assert_eq!(take_text_until_quote(b""), Err(ParseError::Incomplete));
    assert_eq!(take_text_until_quote(&[0xff, b'"']), Err(ParseError::Error));
}

#[test]
fn runs_of_parameters() {
    let (n, ps) = parse_params(b"\"a\" \"1\"\n\"b\" \"t2\" }").unwrap();
    assert_eq!(n, 17);
    assert_eq!(ps, vec![("a".to_string(), EntityValue::Int(1)), ("b".to_string(), EntityValue::TargetRef(2))]);
    let (n, ps) = parse_params(b"}").unwrap();
    assert_eq!(n, 0);
    assert!(ps.is_empty());
    assert_eq!(parse_params(b"").map(|(n, _)| n), Ok(0));
    assert_eq!(parse_params(b"\"a\" \"1").map(|(n, _)| n), Err(ParseError::Incomplete));
}

#[test]
fn sorted_distinct_lists() {
    let mut v = vec![1, 5, 9];
    insert_sorted(&mut v, 5);
    assert_eq!(v, vec![1, 5, 9]);
    insert_sorted(&mut v, 7);
    assert_eq!(v, vec![1, 5, 7, 9]);
    insert_sorted(&mut v, -3);
    assert_eq!(v, vec![-3, 1, 5, 7, 9]);
    insert_sorted(&mut v, 10);
    assert_eq!(v, vec![-3, 1, 5, 7, 9, 10]);
    assert_eq!(sorted_distinct_of(&vec![4, 2, 4, -1, 2]), vec![-1, 2, 4]);
    assert_eq!(sorted_distinct_of(&vec![]), Vec::<i32>::new());
}
