use ip2region2::error::SearchError;
use ip2region2::ip::{parse_ip_text, ToUIntIP};

#[test]
fn dotted_text_is_read_octet_by_octet() {
    assert_eq!("1.1.1.1".to_u32_ip(), Ok(16843009));
    assert_eq!("1.0.0.5".to_u32_ip(), Ok(16777221));
    assert_eq!("1.2.3.4".to_u32_ip(), Ok(16909060));
    assert_eq!("2.0.0.0".to_u32_ip(), Ok(33554432));
    assert_eq!("192.168.1.10".to_u32_ip(), Ok(3232235786));
    assert_eq!("10.0.255.9".to_u32_ip(), Ok(167837449));
}

#[test]
fn dotted_text_at_the_ends_of_the_range() {
    assert_eq!("0.0.0.0".to_u32_ip(), Ok(0));
    assert_eq!("255.255.255.255".to_u32_ip(), Ok(4294967295));
    assert_eq!("0.0.0.1".to_u32_ip(), Ok(1));
    assert_eq!("255.0.0.0".to_u32_ip(), Ok(4278190080));
}

#[test]
fn decimal_text_is_read_as_the_number() {
    assert_eq!("4294408949".to_u32_ip(), Ok(4294408949));
    assert_eq!("32".to_u32_ip(), Ok(32));
    assert_eq!("0".to_u32_ip(), Ok(0));
    assert_eq!("16777221".to_u32_ip(), Ok(16777221));
    assert_eq!("4294967295".to_u32_ip(), Ok(4294967295));
}

#[test]
fn decimal_text_may_carry_a_plus_and_leading_zeros() {
    assert_eq!("+32".to_u32_ip(), Ok(32));
    assert_eq!("00032".to_u32_ip(), Ok(32));
    assert_eq!("+0004294967295".to_u32_ip(), Ok(4294967295));
    assert_eq!("000000000000000000000000000007".to_u32_ip(), Ok(7));
}

#[test]
fn decimal_text_beyond_32_bits_is_rejected() {
    assert_eq!("4294967296".to_u32_ip(), Err(SearchError::InvalidIpFormat));
    assert_eq!("4294967300".to_u32_ip(), Err(SearchError::InvalidIpFormat));
    assert_eq!("42949672950".to_u32_ip(), Err(SearchError::InvalidIpFormat));
    assert_eq!("99999999999999999999999999".to_u32_ip(), Err(SearchError::InvalidIpFormat));
}

#[test]
fn octets_out_of_range_are_rejected() {
    assert_eq!("999.999.999.999".to_u32_ip(), Err(SearchError::InvalidIpFormat));
    assert_eq!("256.1.1.1".to_u32_ip(), Err(SearchError::InvalidIpFormat));
    assert_eq!("1.1.1.256".to_u32_ip(), Err(SearchError::InvalidIpFormat));
    assert_eq!("1.1.1.0255".to_u32_ip(), Err(SearchError::InvalidIpFormat));
}

#[test]
fn octets_with_leading_zeros_are_rejected() {
    assert_eq!("01.1.1.1".to_u32_ip(), Err(SearchError::InvalidIpFormat));
    assert_eq!("1.1.1.01".to_u32_ip(), Err(SearchError::InvalidIpFormat));
    assert_eq!("0.0.0.00".to_u32_ip(), Err(SearchError::InvalidIpFormat));
    assert_eq!("1.010.1.1".to_u32_ip(), Err(SearchError::InvalidIpFormat));
}

#[test]
fn wrong_number_of_octets_is_rejected() {
    assert_eq!("1.1.1".to_u32_ip(), Err(SearchError::InvalidIpFormat));
    assert_eq!("1.1".to_u32_ip(), Err(SearchError::InvalidIpFormat));
    assert_eq!("1.1.1.1.1".to_u32_ip(), Err(SearchError::InvalidIpFormat));
    assert_eq!("1..1.1".to_u32_ip(), Err(SearchError::InvalidIpFormat));
    assert_eq!(".1.1.1".to_u32_ip(), Err(SearchError::InvalidIpFormat));
    assert_eq!("1.1.1.".to_u32_ip(), Err(SearchError::InvalidIpFormat));
    assert_eq!("1.1.1.1.".to_u32_ip(), Err(SearchError::InvalidIpFormat));
    assert_eq!("...".to_u32_ip(), Err(SearchError::InvalidIpFormat));
}

#[test]
fn text_that_is_no_number_is_rejected() {
    assert_eq!("-1".to_u32_ip(), Err(SearchError::InvalidIpFormat));
    assert_eq!("".to_u32_ip(), Err(SearchError::InvalidIpFormat));
    assert_eq!("+".to_u32_ip(), Err(SearchError::InvalidIpFormat));
    assert_eq!("++1".to_u32_ip(), Err(SearchError::InvalidIpFormat));
    assert_eq!("1+".to_u32_ip(), Err(SearchError::InvalidIpFormat));
    assert_eq!(" 1".to_u32_ip(), Err(SearchError::InvalidIpFormat));
    assert_eq!("1.1.1.1 ".to_u32_ip(), Err(SearchError::InvalidIpFormat));
    assert_eq!("+1.1.1.1".to_u32_ip(), Err(SearchError::InvalidIpFormat));
    assert_eq!("0x20".to_u32_ip(), Err(SearchError::InvalidIpFormat));
    assert_eq!("1.a.1.1".to_u32_ip(), Err(SearchError::InvalidIpFormat));
    assert_eq!("localhost".to_u32_ip(), Err(SearchError::InvalidIpFormat));
}

#[test]
fn text_that_is_not_ascii_is_rejected() {
    assert_eq!("１.1.1.1".to_u32_ip(), Err(SearchError::InvalidIpFormat));
    assert_eq!("٣٢".to_u32_ip(), Err(SearchError::InvalidIpFormat));
    assert_eq!("1.1.1.1é".to_u32_ip(), Err(SearchError::InvalidIpFormat));
}

#[test]
fn number_stands_for_itself() {
    assert_eq!(0u32.to_u32_ip(), Ok(0));
    assert_eq!(4294408949u32.to_u32_ip(), Ok(4294408949));
    assert_eq!(u32::MAX.to_u32_ip(), Ok(4294967295));
}

#[test]
fn octets_are_most_significant_first() {
    assert_eq!([1u8, 2, 3, 4].to_u32_ip(), Ok(16909060));
    assert_eq!([1u8, 0, 0, 5].to_u32_ip(), Ok(16777221));
    assert_eq!([0u8, 0, 0, 0].to_u32_ip(), Ok(0));
    assert_eq!([255u8, 255, 255, 255].to_u32_ip(), Ok(4294967295));
    assert_eq!([0u8, 0, 1, 0].to_u32_ip(), Ok(256));
}

#[test]
fn spellings_of_one_address_agree() {
    let octets: [[u8; 4]; 6] =
        [[0, 0, 0, 0], [1, 1, 1, 1], [10, 200, 30, 4], [127, 0, 0, 1], [255, 247, 122, 245], [
            255, 255, 255, 255,
        ]];
    for o in octets {
        let number = u32::from_be_bytes(o);
        let dotted = format!("{}.{}.{}.{}", o[0], o[1], o[2], o[3]);
        let decimal = format!("{}", number);
        assert_eq!(number.to_u32_ip(), Ok(number));
        assert_eq!(o.to_u32_ip(), Ok(number));
        assert_eq!(dotted.as_str().to_u32_ip(), Ok(number));
        assert_eq!(decimal.as_str().to_u32_ip(), Ok(number));
    }
}

#[test]
fn text_parser_returns_the_address_or_nothing() {
    assert_eq!(parse_ip_text("1.0.0.5"), Some(16777221));
    assert_eq!(parse_ip_text("16777221"), Some(16777221));
    assert_eq!(parse_ip_text("1.0.0"), None);
    assert_eq!(parse_ip_text("-1"), None);
}
