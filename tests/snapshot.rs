use market_ticker::snapshot::{
    cache_is_fresh, collect_instruments, day_before, effective_cache_max_age, last_candle_at_or_before,
    rotation_index, InstrumentKind,
};

#[test]
fn instruments_list_stocks_then_pairs() {
    let tickers = vec!["AAPL".to_string(), "MSFT".to_string()];
    let pairs = vec!["XBTEUR".to_string(), "ETHEUR".to_string()];
    let signs = vec!["BTC".to_string()];
    let r = collect_instruments(&tickers, &pairs, &signs);
    assert_eq!(r.len(), 4);
    assert_eq!(r[0].kind, InstrumentKind::Stock);
    assert_eq!(r[1].symbol, "MSFT");
    assert_eq!(r[1].sign, "");
    assert_eq!(r[2].kind, InstrumentKind::Crypto);
    assert_eq!(r[2].symbol, "XBTEUR");
    assert_eq!(r[2].sign, "BTC");
    assert_eq!(r[3].sign, "");
}

#[test]
fn instruments_empty() {
    assert!(collect_instruments(&vec![], &vec![], &vec![]).is_empty());
}

#[test]
fn rotation_picks_by_time_slot() {
    assert_eq!(rotation_index(0, 10, 3), 0);
    assert_eq!(rotation_index(29, 10, 3), 2);
    assert_eq!(rotation_index(30, 10, 3), 0);
    assert_eq!(rotation_index(1_700_000_005, 5, 4), 1);
}

#[test]
fn weekend_cache_age() {
    assert_eq!(effective_cache_max_age(0, 60, 3600), 60);
    assert_eq!(effective_cache_max_age(4, 60, 3600), 60);
    assert_eq!(effective_cache_max_age(5, 60, 3600), 3600);
    assert_eq!(effective_cache_max_age(6, 60, 3600), 3600);
}

#[test]
fn cache_freshness() {
    assert!(cache_is_fresh(Some(59), 60));
    assert!(!cache_is_fresh(Some(60), 60));
    assert!(!cache_is_fresh(None, 60));
    assert!(!cache_is_fresh(Some(u64::MAX), u64::MAX));
}

#[test]
fn one_day_earlier() {
    assert_eq!(day_before(100_000), Some(13_600));
    assert_eq!(day_before(86_400), Some(0));
    assert_eq!(day_before(5), None);
}

#[test]
fn last_counting_candle() {
    let stamps = vec![Some(10), Some(20), None, Some(30), Some(15)];
    let closes = vec![true, true, true, true, false];
    assert_eq!(last_candle_at_or_before(&stamps, &closes, 25), Some(1));
    assert_eq!(last_candle_at_or_before(&stamps, &closes, 30), Some(3));
    assert_eq!(last_candle_at_or_before(&stamps, &closes, 5), None);
    assert_eq!(last_candle_at_or_before(&vec![], &vec![], 5), None);
}
