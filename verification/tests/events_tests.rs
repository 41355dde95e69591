use gibtax::asset_events::{von_kontoauszug, AssetEvent, AssetEventList};
use gibtax::error::Error;

fn kind(e: &AssetEvent<u32, u32, u32>) -> (char, u32) {
    match e {
        AssetEvent::Kauf(x) => ('K', *x),
        AssetEvent::Verkauf(x) => ('V', *x),
        AssetEvent::Transfer(x) => ('T', *x),
        AssetEvent::Kapitalmassnahme(x) => ('M', *x),
    }
}

fn days(l: &AssetEventList<u32, u32, u32>) -> Vec<(i64, Vec<(char, u32)>)> {
    l.events().iter().map(|(d, q)| (*d, q.iter().map(kind).collect())).collect()
}

#[test]
fn sells_come_after_the_other_events_of_their_day() {
    let mut l: AssetEventList<u32, u32, u32> = AssetEventList::new();
    l.add(3, AssetEvent::Verkauf(1));
    l.add(3, AssetEvent::Kauf(2));
    l.add(3, AssetEvent::Verkauf(3));
    l.add(3, AssetEvent::Transfer(4));
    l.add(1, AssetEvent::Kapitalmassnahme(5));
    assert_eq!(
        days(&l),
        vec![
            (1, vec![('M', 5)]),
            (3, vec![('T', 4), ('K', 2), ('V', 1), ('V', 3)]),
        ]
    );
}

#[test]
fn events_of_a_statement_are_ordered_by_day() {
    let evs: Vec<(String, AssetEvent<u32, u32, u32>)> = vec![
        ("2024-01-03, 10:00:00".to_string(), AssetEvent::Verkauf(1)),
        ("2024-01-03, 09:00:00".to_string(), AssetEvent::Kauf(2)),
        ("2024-01-02, 15:00:00".to_string(), AssetEvent::Kauf(3)),
        ("2024-01-03".to_string(), AssetEvent::Transfer(4)),
    ];
    let l = von_kontoauszug(evs).unwrap();
    assert_eq!(
        days(&l),
        vec![(19724, vec![('K', 3)]), (19725, vec![('T', 4), ('K', 2), ('V', 1)])]
    );
}

#[test]
fn an_unreadable_date_stops_the_listing() {
    let evs: Vec<(String, AssetEvent<u32, u32, u32>)> = vec![
        ("2024-01-03".to_string(), AssetEvent::Kauf(1)),
        ("2024-02-31".to_string(), AssetEvent::Kauf(2)),
    ];
    assert!(matches!(von_kontoauszug(evs), Err(Error::FailedToParseDate)));
}

#[test]
fn first_events_of_a_day_come_last_added_first() {
    let mut l: AssetEventList<u32, u32, u32> = AssetEventList::new();
    l.add(5, AssetEvent::Kauf(1));
    l.add(5, AssetEvent::Verkauf(2));
    l.add(5, AssetEvent::Kauf(3));
    l.add(5, AssetEvent::Verkauf(4));
    l.add(5, AssetEvent::Transfer(5));
    assert_eq!(days(&l), vec![(5, vec![('T', 5), ('K', 3), ('K', 1), ('V', 2), ('V', 4)])]);
}

#[test]
fn an_unreadable_date_comes_before_a_later_short_one() {
    let evs: Vec<(String, AssetEvent<u32, u32, u32>)> = vec![
        ("2024-02-31".to_string(), AssetEvent::Kauf(1)),
        ("2024".to_string(), AssetEvent::Kauf(2)),
    ];
    assert!(matches!(von_kontoauszug(evs), Err(Error::FailedToParseDate)));
}
