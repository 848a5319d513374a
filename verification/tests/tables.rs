use price_scout::ledger::{Ledger, StorageError};
use price_scout::models::{ProductSpecs, Store, StorePrice};

fn store(id: i32, name: &str, unstable: bool) -> Store {
    Store {
        id,
        name: name.to_string(),
        base_url: format!("https://{}.example", name),
        method: "firefox".to_string(),
        parser: "generic".to_string(),
        unstable,
        created_at: 100,
    }
}

fn specs() -> ProductSpecs {
    ProductSpecs {
        screen: Some("16".to_string()),
        cpu: Some("M1 Pro".to_string()),
        ram: Some(32),
        ssd: Some(512),
        article: None,
        color: None,
        condition: None,
        warranty: None,
        year: None,
    }
}

fn observation(product_id: i64, store_id: i32, price: i32, at: i64) -> StorePrice {
    StorePrice {
        id: 0,
        product_id,
        store_id,
        price,
        url: Some("https://x.example/p".to_string()),
        available: true,
        scraped_at: at,
    }
}

#[test]
fn test_upsert_price_last_write_wins() {
    // Upserting the same (product, store) pair twice leaves exactly one
    // row with the latest values, and one history row per upsert.
    let mut ledger = Ledger::new();
    let first = ledger.upsert_store_price(&observation(42, 7, 100_00, 1000));
    let second = ledger.upsert_store_price(&observation(42, 7, 95_00, 2000));
    assert_eq!(first, second);
    assert_eq!(ledger.store_prices.len(), 1);
    assert_eq!(ledger.store_prices[0].price, 95_00);
    assert_eq!(ledger.store_prices[0].scraped_at, 2000);
    assert_eq!(ledger.price_history.len(), 2);
    assert_eq!(ledger.price_history[0].price, 100_00);
    assert_eq!(ledger.price_history[1].price, 95_00);
}

#[test]
fn test_upsert_price_distinct_pairs() {
    let mut ledger = Ledger::new();
    let a = ledger.upsert_store_price(&observation(42, 7, 100, 1));
    let b = ledger.upsert_store_price(&observation(42, 8, 200, 2));
    assert_ne!(a, b);
    assert_eq!(ledger.store_prices.len(), 2);
}

#[test]
fn test_best_prices_order_and_limit() {
    let mut ledger = Ledger::new();
    ledger.upsert_store_price(&observation(1, 3, 300, 10));
    ledger.upsert_store_price(&observation(1, 1, 100, 10));
    ledger.upsert_store_price(&observation(1, 2, 100, 10));
    ledger.upsert_store_price(&StorePrice { available: false, ..observation(1, 4, 50, 10) });
    ledger.upsert_store_price(&observation(2, 1, 10, 10));

    let best = ledger.get_best_prices(1, 10);
    // the unavailable row and the other product stay out; equal prices
    // are ordered by store id
    assert_eq!(best.len(), 3);
    assert_eq!((best[0].store_id, best[0].price), (1, 100));
    assert_eq!((best[1].store_id, best[1].price), (2, 100));
    assert_eq!((best[2].store_id, best[2].price), (3, 300));

    let top = ledger.get_best_prices(1, 2);
    assert_eq!(top.len(), 2);
    assert_eq!(top[1].price, 100);
}

#[test]
fn test_price_lookup_by_store() {
    let mut ledger = Ledger::new();
    ledger.upsert_store_price(&observation(1, 3, 300, 10));
    assert!(ledger.get_product_price_by_store(1, 3).is_some());
    assert!(ledger.get_product_price_by_store(1, 4).is_none());
    assert!(ledger.get_product_price_by_store(2, 3).is_none());
}

#[test]
fn test_add_store_and_lookups() {
    let mut ledger = Ledger::new();
    assert!(ledger.add_store(store(3, "ozon", false)).is_ok());
    assert!(ledger.add_store(store(1, "dns", false)).is_ok());
    assert!(ledger.add_store(store(2, "avito", true)).is_ok());
    assert_eq!(ledger.add_store(store(2, "again", false)), Err(StorageError::Conflict));

    let all = ledger.get_stores();
    let ids: Vec<i32> = all.iter().map(|s| s.id).collect();
    assert_eq!(ids, vec![1, 2, 3]);

    let stable = ledger.get_stable_stores();
    let stable_ids: Vec<i32> = stable.iter().map(|s| s.id).collect();
    assert_eq!(stable_ids, vec![1, 3]);

    assert_eq!(ledger.get_store_by_name("dns").unwrap().id, 1);
    assert!(ledger.get_store_by_name("unknown").is_none());
    assert_eq!(ledger.get_store(3).unwrap().name, "ozon");
    assert_eq!(ledger.get_store(9).unwrap_err(), StorageError::NotFound);
}

#[test]
fn test_create_and_get_product() {
    let mut ledger = Ledger::new();
    let id = ledger.create_product("MacBook Pro 16", Some("laptops"), &specs(), Some("macbook"), 500);
    let got = ledger.get_product(id).unwrap();
    assert_eq!(got.name, "MacBook Pro 16");
    assert_eq!(got.category.as_deref(), Some("laptops"));
    assert_eq!(got.specs.ram, Some(32));
    assert_eq!(got.created_at, 500);
    assert_eq!(ledger.get_product(id + 1).unwrap_err(), StorageError::NotFound);
}

#[test]
fn test_search_products_case_insensitive_and_ordered() {
    let mut ledger = Ledger::new();
    ledger.create_product("MacBook Pro 16", None, &specs(), None, 100);
    ledger.create_product("ThinkPad X1", None, &specs(), None, 300);
    ledger.create_product("macbook air", None, &specs(), None, 200);

    let hits = ledger.search_products("MACBOOK");
    assert_eq!(hits.len(), 2);
    // most recently updated first
    assert_eq!(hits[0].name, "macbook air");
    assert_eq!(hits[1].name, "MacBook Pro 16");

    assert_eq!(ledger.search_products("thinkpad").len(), 1);
    assert_eq!(ledger.search_products("nothing").len(), 0);
    // the empty query matches everything
    assert_eq!(ledger.search_products("").len(), 3);
}

#[test]
fn test_upsert_user() {
    let mut ledger = Ledger::new();
    let a = ledger.upsert_user(555, Some("ada"), 100);
    let b = ledger.upsert_user(555, Some("ada_l"), 200);
    assert_eq!(a, b);
    assert_eq!(ledger.users.len(), 1);
    let u = ledger.get_user_by_telegram_id(555).unwrap();
    assert_eq!(u.username.as_deref(), Some("ada_l"));
    assert_eq!(u.created_at, 100);
    assert_eq!(u.last_active_at, Some(200));
    assert!(ledger.get_user_by_telegram_id(556).is_none());

    let c = ledger.upsert_user(777, None, 300);
    assert_ne!(a, c);
    assert_eq!(ledger.users.len(), 2);
}

#[test]
fn test_trackings() {
    let mut ledger = Ledger::new();
    let t1 = ledger.create_tracking(1, 42, Some(90_000), 100);
    let t2 = ledger.create_tracking(1, 42, Some(80_000), 200);
    assert_eq!(t1, t2);
    assert_eq!(ledger.trackings.len(), 1);
    assert_eq!(ledger.trackings[0].target_price, Some(80_000));
    // the subscription keeps its original creation time
    assert_eq!(ledger.trackings[0].created_at, 100);

    let t3 = ledger.create_tracking(1, 43, None, 300);
    ledger.create_tracking(2, 42, None, 400);

    let mine = ledger.get_user_trackings(1);
    assert_eq!(mine.len(), 2);
    // newest first
    assert_eq!(mine[0].id, t3);
    assert_eq!(mine[1].id, t1);

    assert_eq!(ledger.get_tracking(t3).unwrap().product_id, 43);
    assert_eq!(ledger.get_tracking(99).unwrap_err(), StorageError::NotFound);
}
