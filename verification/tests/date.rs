use bytes::BytesMut;
use coroutine::date::{
    append_date, civil_from_days, days_in_month, days_in_year, is_leap, try_append_date, Date,
    DATE_VALUE_LENGTH,
};

fn line(secs: u64) -> String {
    let date = Date::from_unix(secs).unwrap();
    String::from_utf8(date.as_bytes().to_vec()).unwrap()
}

#[test]
fn epoch_is_a_thursday() {
    assert_eq!(line(0), "Thu, 01 Jan 1970 00:00:00 GMT");
}

#[test]
fn date_line_has_its_fixed_length() {
    assert_eq!(DATE_VALUE_LENGTH, 29);
    assert_eq!("Wed, 01 Jan 2025 00:00:00 GMT".len(), DATE_VALUE_LENGTH);
    assert_eq!(Date::from_unix(0).unwrap().as_bytes().len(), DATE_VALUE_LENGTH);
    assert_eq!(Date::from_unix(253_402_300_799).unwrap().as_bytes().len(), DATE_VALUE_LENGTH);
}

#[test]
fn start_of_2025_is_a_wednesday() {
    assert_eq!(line(1_735_689_600), "Wed, 01 Jan 2025 00:00:00 GMT");
}

#[test]
fn date_line_says_the_time_of_day() {
    assert_eq!(line(784_111_777), "Sun, 06 Nov 1994 08:49:37 GMT");
    assert_eq!(line(59), "Thu, 01 Jan 1970 00:00:59 GMT");
    assert_eq!(line(3_600), "Thu, 01 Jan 1970 01:00:00 GMT");
    assert_eq!(line(86_399), "Thu, 01 Jan 1970 23:59:59 GMT");
    assert_eq!(line(86_400), "Fri, 02 Jan 1970 00:00:00 GMT");
}

#[test]
fn leap_days_are_counted() {
    assert_eq!(line(951_782_400), "Tue, 29 Feb 2000 00:00:00 GMT");
    assert_eq!(line(951_868_800), "Wed, 01 Mar 2000 00:00:00 GMT");
    assert_eq!(line(68_169_600), "Tue, 29 Feb 1972 00:00:00 GMT");
    assert_eq!(line(4_107_456_000), "Sun, 28 Feb 2100 00:00:00 GMT");
    assert_eq!(line(4_107_542_400), "Mon, 01 Mar 2100 00:00:00 GMT");
}

#[test]
fn every_month_and_every_weekday_has_its_name() {
    assert_eq!(line(1_705_276_800), "Mon, 15 Jan 2024 00:00:00 GMT");
    assert_eq!(line(1_707_782_400), "Tue, 13 Feb 2024 00:00:00 GMT");
    assert_eq!(line(1_710_288_000), "Wed, 13 Mar 2024 00:00:00 GMT");
    assert_eq!(line(1_712_793_600), "Thu, 11 Apr 2024 00:00:00 GMT");
    assert_eq!(line(1_715_299_200), "Fri, 10 May 2024 00:00:00 GMT");
    assert_eq!(line(1_717_804_800), "Sat, 08 Jun 2024 00:00:00 GMT");
    assert_eq!(line(1_720_310_400), "Sun, 07 Jul 2024 00:00:00 GMT");
    assert_eq!(line(1_722_816_000), "Mon, 05 Aug 2024 00:00:00 GMT");
    assert_eq!(line(1_725_321_600), "Tue, 03 Sep 2024 00:00:00 GMT");
    assert_eq!(line(1_727_827_200), "Wed, 02 Oct 2024 00:00:00 GMT");
    assert_eq!(line(1_730_332_800), "Thu, 31 Oct 2024 00:00:00 GMT");
    assert_eq!(line(1_732_838_400), "Fri, 29 Nov 2024 00:00:00 GMT");
    assert_eq!(line(1_735_603_200), "Tue, 31 Dec 2024 00:00:00 GMT");
}

#[test]
fn last_second_of_year_9999_has_a_date_line() {
    assert_eq!(line(253_402_300_799), "Fri, 31 Dec 9999 23:59:59 GMT");
}

#[test]
fn year_10000_has_no_date_line() {
    assert!(Date::from_unix(253_402_300_800).is_none());
    assert!(Date::from_unix(u64::MAX).is_none());
}

#[test]
fn leap_years_follow_the_gregorian_rule() {
    assert!(is_leap(2024));
    assert!(!is_leap(2023));
    assert!(!is_leap(1900));
    assert!(is_leap(2000));
    assert!(!is_leap(2100));
    assert_eq!(days_in_year(2024), 366);
    assert_eq!(days_in_year(2025), 365);
}

#[test]
fn months_have_their_lengths() {
    let lengths: Vec<u64> = (1..=12).map(|m| days_in_month(2023, m)).collect();
    assert_eq!(lengths, vec![31, 28, 31, 30, 31, 30, 31, 31, 30, 31, 30, 31]);
    assert_eq!(days_in_month(2024, 2), 29);
    assert_eq!(days_in_month(1900, 2), 28);
    assert_eq!(days_in_month(2000, 2), 29);
}

#[test]
fn days_are_split_into_year_month_and_day() {
    assert_eq!(civil_from_days(0), Some((1970, 1, 1)));
    assert_eq!(civil_from_days(30), Some((1970, 1, 31)));
    assert_eq!(civil_from_days(31), Some((1970, 2, 1)));
    assert_eq!(civil_from_days(364), Some((1970, 12, 31)));
    assert_eq!(civil_from_days(365), Some((1971, 1, 1)));
    assert_eq!(civil_from_days(11_016), Some((2000, 2, 29)));
    assert_eq!(civil_from_days(20_089), Some((2025, 1, 1)));
    assert_eq!(civil_from_days(2_932_896), Some((9999, 12, 31)));
    assert_eq!(civil_from_days(2_932_897), None);
}

#[test]
fn append_date_adds_the_line_to_what_the_buffer_holds() {
    let mut dst = BytesMut::new();
    dst.extend_from_slice(b"Date: ");
    let date = Date::from_unix(784_111_777).unwrap();
    append_date(&mut dst, &date);
    assert_eq!(&dst[..], &b"Date: Sun, 06 Nov 1994 08:49:37 GMT"[..]);
    append_date(&mut dst, &Date::from_unix(0).unwrap());
    assert_eq!(
        &dst[..],
        &b"Date: Sun, 06 Nov 1994 08:49:37 GMTThu, 01 Jan 1970 00:00:00 GMT"[..]
    );
}

#[test]
fn append_date_to_an_empty_buffer_gives_the_line() {
    let mut dst = BytesMut::new();
    let date = Date::from_unix(1_735_689_600).unwrap();
    append_date(&mut dst, &date);
    assert_eq!(dst.len(), DATE_VALUE_LENGTH);
    assert_eq!(&dst[..], date.as_bytes());
}

#[test]
fn try_append_date_appends_where_there_is_room() {
    let mut dst = BytesMut::with_capacity(4);
    dst.extend_from_slice(b"abcd");
    let date = Date::from_unix(86_400).unwrap();
    assert!(try_append_date(&mut dst, &date));
    assert_eq!(&dst[..], &b"abcdFri, 02 Jan 1970 00:00:00 GMT"[..]);
}
