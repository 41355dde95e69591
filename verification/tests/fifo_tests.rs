use gibtax::error::Error;
use gibtax::fifo::{FifoStore, TransferBuchung};

#[test]
fn purchases_leave_in_the_order_they_came() {
    let mut f: FifoStore<u32> = FifoStore::new(0);
    assert_eq!(f.add("AAPL", 5, 1), Ok(()));
    assert_eq!(f.add("MSFT", 6, 7), Ok(()));
    assert_eq!(f.add("AAPL", 6, 2), Ok(()));
    assert!(f.contains("AAPL"));
    assert!(!f.contains("SAP"));
    assert_eq!(f.get_timestamp(), 6);
    let lots = f.take_lots("AAPL", 8).unwrap();
    assert_eq!(lots.iter().copied().collect::<Vec<u32>>(), vec![1, 2]);
    assert_eq!(f.get_timestamp(), 6);
    // The asset keeps an empty list until the rest comes back.
    assert_eq!(f.take_lots("AAPL", 8).unwrap().len(), 0);
    let mut rest = lots;
    rest.pop_front();
    f.put_lots("AAPL", rest, Some(8));
    assert_eq!(f.get_timestamp(), 8);
    assert_eq!(f.take_lots("AAPL", 8).unwrap().iter().copied().collect::<Vec<u32>>(), vec![2]);
    assert_eq!(f.take_lots("MSFT", 9).unwrap().iter().copied().collect::<Vec<u32>>(), vec![7]);
}

#[test]
fn older_days_are_refused() {
    let mut f: FifoStore<u32> = FifoStore::new(10);
    assert_eq!(f.add("AAPL", 9, 1), Err(Error::FifoIstNeuer));
    assert!(!f.contains("AAPL"));
    assert_eq!(f.get_timestamp(), 10);
    assert_eq!(f.add("AAPL", 10, 1), Ok(()));
    assert!(matches!(f.take_lots("AAPL", 9), Err(Error::FifoIstNeuer)));
    assert!(f.contains("AAPL"));
}

#[test]
fn short_sales_are_refused() {
    let mut f: FifoStore<u32> = FifoStore::new(0);
    assert!(matches!(f.take_lots("AAPL", 19797), Err(Error::KeineLeerverkaeufe)));
    assert!(matches!(f.take_lots("AAPL", i64::MAX), Err(Error::FailedToConvertDate)));
    assert!(!f.contains("AAPL"));
}

#[test]
fn history_lists_each_asset_once() {
    let mut f: FifoStore<u32> = FifoStore::new(0);
    f.add("A", 1, 1).unwrap();
    f.add("B", 2, 2).unwrap();
    f.add("A", 3, 3).unwrap();
    let h = f.history();
    assert_eq!(h.len(), 2);
    assert_eq!(h[0].symbol, "A");
    assert_eq!(h[0].fifo.iter().copied().collect::<Vec<u32>>(), vec![1, 3]);
    assert_eq!(h[1].symbol, "B");
}

#[test]
fn putting_back_without_a_day_keeps_the_day() {
    let mut f: FifoStore<u32> = FifoStore::new(0);
    f.add("A", 4, 1).unwrap();
    let lots = f.take_lots("A", 5).unwrap();
    f.put_lots("A", lots, None);
    assert_eq!(f.get_timestamp(), 4);
    assert_eq!(f.take_lots("A", 5).unwrap().len(), 1);
}

#[test]
fn trades_are_booked_from_the_store_day_up_to_the_limit() {
    let f: FifoStore<u32> = FifoStore::new(10);
    assert!(!f.books(9, 20));
    assert!(f.books(10, 20));
    assert!(f.books(19, 20));
    assert!(!f.books(20, 20));
}

#[test]
fn transfers_in_at_known_cost_are_booked() {
    let mut f: FifoStore<u32> = FifoStore::new(0);
    f.add("AAPL", 1, 1).unwrap();
    assert_eq!(f.transfer_buchung("Out", "SAP", true), TransferBuchung::RichtungNichtUnterstuetzt);
    assert_eq!(f.transfer_buchung("In", "AAPL", true), TransferBuchung::PositionExistiert);
    assert_eq!(f.transfer_buchung("In", "SAP", true), TransferBuchung::Einbuchen);
    assert_eq!(f.transfer_buchung("In", "SAP", false), TransferBuchung::EinstandskostenFehlen);
}

#[test]
fn a_sale_takes_the_oldest_purchases_and_keeps_the_rest() {
    let mut f: FifoStore<u32> = FifoStore::new(0);
    f.add("A", 1, 5).unwrap();
    f.add("A", 2, 7).unwrap();
    let cost = f.reduce("A", 3, |mut q| {
        let first = q.pop_front().unwrap();
        (q, Ok::<u32, Error>(first))
    });
    assert_eq!(cost, Ok(5));
    assert_eq!(f.get_timestamp(), 3);
    assert_eq!(f.history()[0].fifo.iter().copied().collect::<Vec<u32>>(), vec![7]);
}

#[test]
fn a_failed_sale_keeps_the_day_and_what_is_left() {
    let mut f: FifoStore<u32> = FifoStore::new(0);
    f.add("A", 1, 5).unwrap();
    let r = f.reduce("A", 4, |mut q| {
        q.clear();
        (q, Err::<u32, Error>(Error::KeineLeerverkaeufe))
    });
    assert_eq!(r, Err(Error::KeineLeerverkaeufe));
    assert_eq!(f.get_timestamp(), 1);
    assert!(f.contains("A"));
    assert_eq!(f.history()[0].fifo.len(), 0);
    let older = f.reduce("A", 0, |q| (q, Ok::<u32, Error>(1)));
    assert_eq!(older, Err(Error::FifoIstNeuer));
    let unknown = f.reduce("B", 2, |q| (q, Ok::<u32, Error>(1)));
    assert_eq!(unknown, Err(Error::KeineLeerverkaeufe));
}
