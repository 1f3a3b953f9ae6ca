use cloudevents::timestamp::{rfc3339_ok, Timestamp};

#[test]
fn timestamps_in_the_notation() {
    for t in [
        "2020-03-16T11:50:00Z",
        "1985-04-12T23:20:50.52Z",
        "1996-12-19T16:39:57-08:00",
        "1990-12-31T23:59:60Z",
        "1990-12-31T15:59:60-08:00",
        "1937-01-01T12:00:27.87+00:20",
        "2020-03-16t11:50:00z",
        "0000-01-01T00:00:00Z",
        "9999-12-31T23:59:59.999999999999999999+23:59",
        "2020-02-29T00:00:00Z",
        "2000-02-29T00:00:00Z",
        "2024-02-29T00:00:00+00:00",
        "2021-04-30T00:00:00Z",
        "2021-01-31T00:00:00.0Z",
    ] {
        assert!(rfc3339_ok(t), "{}", t);
        assert_eq!(Timestamp::parse(t).map(|x| x.as_str().to_string()), Some(t.to_string()));
    }
}

#[test]
fn texts_that_are_no_timestamps() {
    for t in [
        "",
        "2020-03-16",
        "2020-03-16T11:50:00",
        "2020-03-16 11:50:00Z",
        "2020-03-16T11:50Z",
        "2020-03-16T11:50:00ZZ",
        "2020-03-16T11:50:00Z ",
        " 2020-03-16T11:50:00Z",
        "2020-3-16T11:50:00Z",
        "20200316T115000Z",
        "2020-13-01T00:00:00Z",
        "2020-00-10T00:00:00Z",
        "2020-01-00T00:00:00Z",
        "2020-01-32T00:00:00Z",
        "2021-02-29T00:00:00Z",
        "1900-02-29T00:00:00Z",
        "2100-02-29T00:00:00Z",
        "2021-04-31T00:00:00Z",
        "2021-06-31T00:00:00Z",
        "2021-09-31T00:00:00Z",
        "2021-11-31T00:00:00Z",
        "2020-03-16T24:00:00Z",
        "2020-03-16T11:60:00Z",
        "2020-03-16T11:50:61Z",
        "2020-03-16T11:50:00.Z",
        "2020-03-16T11:50:00,5Z",
        "2020-03-16T11:50:00+0800",
        "2020-03-16T11:50:00+08",
        "2020-03-16T11:50:00+24:00",
        "2020-03-16T11:50:00+08:60",
        "2020-03-16T11:50:00*08:00",
        "2020-03-16T11:50:00.5",
        "2020-03-16T11:50:00.5+08:0",
        "２０２０-03-16T11:50:00Z",
        "2020-03-16T11:50:00Z\n",
        "yesterday",
    ] {
        assert!(!rfc3339_ok(t), "{}", t);
        assert_eq!(Timestamp::parse(t), None);
    }
}

#[test]
fn timestamp_keeps_its_text() {
    let t = Timestamp::parse("2020-03-16T11:50:00.000+00:00").unwrap();
    assert_eq!(t.as_str(), "2020-03-16T11:50:00.000+00:00");
    assert_eq!(t.duplicate(), t);
    assert_ne!(Timestamp::parse("2020-03-16T11:50:00Z"), Timestamp::parse("2020-03-16T11:50:00z"));
}
