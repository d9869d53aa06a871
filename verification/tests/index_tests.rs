use computerhardwaredb::index::pindex_by;
use computerhardwaredb::index::pindex_by_foreign;
use computerhardwaredb::index::ForeignIndexError;
use computerhardwaredb::multi::mindex_by_foreign;
use computerhardwaredb::multi::MultiIndexError;
use computerhardwaredb::name::ArticleName;
use computerhardwaredb::types::Price;
use computerhardwaredb::types::Shop;
use computerhardwaredb::types::SoldAt;
use computerhardwaredb::value::Value;
use computerhardwaredb::types::CPU;

fn offer(article: &str, url: &str, chf: u16) -> SoldAt {
    SoldAt {
        article_name: ArticleName::new(article),
        desc: String::new(),
        shop: Shop::Digitec,
        url: url.to_string(),
        price: Price::CHF(chf),
        is_tray_version: false,
        is_used: false,
        delivered: String::new(),
    }
}

fn cpu(name: &str) -> CPU {
    CPU {
        name: ArticleName::new(name),
        url: String::new(),
        market_segment: Value::Missing,
        product_line: Value::Missing,
        architecture: Value::Missing,
        desc: String::new(),
        cores: Value::Present(16),
        threads: Value::Present(32),
        l1cache: Value::Missing,
        l2cache: Value::Missing,
        l3cache: Value::Missing,
        tdp: Value::Missing,
        base_clock: Value::Missing,
        max_boost_clock: Value::Missing,
        cooler: Value::Missing,
        launch_date: Value::Missing,
        cpu_socket: Value::Missing,
        memory_channels: Value::Missing,
        pci_express_version: Value::Missing,
        system_memory_type: Value::Missing,
        system_memory_subtype: Value::Missing,
        system_memory_specification: Value::Missing,
        ecc_support: Value::Missing,
        graphics_model: Value::Missing,
        pcie_dma_security: Value::Missing,
        usb_dma_security: Value::Missing,
        amd_enhanced_virus_protection_nx_bit: Value::Missing,
    }
}

#[test]
fn pindex_distinct_keys_builds_and_finds() {
    let offers = vec![
        offer("a", "https://shop/1", 100),
        offer("b", "https://shop/2", 200),
        offer("c", "https://shop/3", 300),
    ];
    let ix = pindex_by::<String, SoldAt>(&offers).unwrap();
    let hit = ix.get(&"https://shop/2".to_string()).unwrap();
    assert_eq!(hit.price, Price::CHF(200));
    assert_eq!(hit.article_name, ArticleName::new("b"));
    assert!(ix.contains(&"https://shop/1".to_string()));
    assert!(!ix.contains(&"https://shop/9".to_string()));
    assert!(ix.get(&"https://shop/9".to_string()).is_none());
}

#[test]
fn pindex_duplicate_key_fails_naming_both_records() {
    let offers = vec![
        offer("a", "https://shop/1", 100),
        offer("b", "https://shop/2", 200),
        offer("c", "https://shop/1", 300),
    ];
    let e = pindex_by::<String, SoldAt>(&offers).unwrap_err();
    assert_eq!(e.key, "https://shop/1");
    assert_eq!(e.new_record.price, Price::CHF(300));
    assert_eq!(e.old_record.price, Price::CHF(100));
}

#[test]
fn pindex_foreign_checks_the_referenced_index_first() {
    // detail records keyed by article name, referencing the catalog
    let cpus = vec![cpu("ryzen"), cpu("epyc")];
    let catalog = pindex_by::<ArticleName, CPU>(&cpus).unwrap();

    let good = vec![cpu("ryzen"), cpu("epyc")];
    assert!(pindex_by_foreign::<ArticleName, CPU, CPU>(
        &good,
        &catalog,
        "details.name -> CPU.name",
    )
    .is_ok());

    let broken = vec![cpu("ryzen"), cpu("missing")];
    match pindex_by_foreign::<ArticleName, CPU, CPU>(&broken, &catalog, "details.name -> CPU.name")
    {
        Err(ForeignIndexError::BrokenForeignKey(b)) => {
            assert_eq!(b.key, &ArticleName::new("missing"));
            assert_eq!(b.relation_name, "details.name -> CPU.name");
        }
        _ => panic!("expected a broken foreign key"),
    }

    let duplicated = vec![cpu("ryzen"), cpu("ryzen")];
    match pindex_by_foreign::<ArticleName, CPU, CPU>(
        &duplicated,
        &catalog,
        "details.name -> CPU.name",
    ) {
        Err(ForeignIndexError::DuplicateKey(d)) => {
            assert_eq!(d.key, &ArticleName::new("ryzen"));
        }
        _ => panic!("expected a duplicate key"),
    }
}

#[test]
fn mindex_groups_by_foreign_key() {
    let cpus = vec![cpu("ryzen"), cpu("epyc"), cpu("unsold")];
    let catalog = pindex_by::<ArticleName, CPU>(&cpus).unwrap();
    let offers = vec![
        offer("ryzen", "u1", 100),
        offer("epyc", "u2", 200),
        offer("ryzen", "u3", 300),
    ];
    let m = mindex_by_foreign::<ArticleName, String, SoldAt, CPU>(
        &offers,
        &catalog,
        "SoldAt.article_name -> CPU.name",
    )
    .unwrap();
    let ryzen_group = m.get(&ArticleName::new("ryzen")).unwrap();
    assert_eq!(
        ryzen_group.get(&"u1".to_string()).unwrap().price,
        Price::CHF(100)
    );
    assert_eq!(
        ryzen_group.get(&"u3".to_string()).unwrap().price,
        Price::CHF(300)
    );
    assert!(ryzen_group.get(&"u2".to_string()).is_none());
    assert!(m.contains(&ArticleName::new("epyc")));
    // the unsold catalog entry has no group: the caller's warning check
    assert!(!m.contains(&ArticleName::new("unsold")));
}

#[test]
fn mindex_absent_foreign_key_fails_with_broken_error() {
    let cpus = vec![cpu("ryzen")];
    let catalog = pindex_by::<ArticleName, CPU>(&cpus).unwrap();
    let offers = vec![offer("ryzen", "u1", 100), offer("ghost", "u2", 200)];
    match mindex_by_foreign::<ArticleName, String, SoldAt, CPU>(
        &offers,
        &catalog,
        "SoldAt.article_name -> CPU.name",
    ) {
        Err(MultiIndexError::BrokenForeignKey(b)) => {
            assert_eq!(b.key, &ArticleName::new("ghost"));
            assert_eq!(b.relation_name, "SoldAt.article_name -> CPU.name");
        }
        _ => panic!("expected a broken foreign key"),
    }
}

#[test]
fn mindex_present_foreign_keys_never_break() {
    let cpus = vec![cpu("ryzen"), cpu("epyc")];
    let catalog = pindex_by::<ArticleName, CPU>(&cpus).unwrap();
    let offers = vec![
        offer("ryzen", "u1", 100),
        offer("epyc", "u2", 200),
        offer("epyc", "u3", 300),
    ];
    assert!(mindex_by_foreign::<ArticleName, String, SoldAt, CPU>(
        &offers,
        &catalog,
        "SoldAt.article_name -> CPU.name",
    )
    .is_ok());
}

#[test]
fn mindex_duplicate_primary_key_within_group() {
    let cpus = vec![cpu("ryzen")];
    let catalog = pindex_by::<ArticleName, CPU>(&cpus).unwrap();
    let offers = vec![offer("ryzen", "u1", 100), offer("ryzen", "u1", 200)];
    match mindex_by_foreign::<ArticleName, String, SoldAt, CPU>(
        &offers,
        &catalog,
        "SoldAt.article_name -> CPU.name",
    ) {
        Err(MultiIndexError::DuplicatePrimaryKey(d)) => {
            assert_eq!(d.key, "u1");
            assert_eq!(d.new_record.price, Price::CHF(200));
            assert_eq!(d.old_record.price, Price::CHF(100));
        }
        _ => panic!("expected a duplicate primary key"),
    }
}

#[test]
fn names_index_equal_after_normalization() {
    // the two article names differ only by a trademark sign, so they clash
    let offers = vec![
        offer("AMD Ryzen\u{2122} 9 5950X", "u1", 100),
        offer("AMD Ryzen 9 5950X", "u2", 200),
    ];
    let cpus = vec![cpu("AMD Ryzen 9 5950X")];
    let catalog = pindex_by::<ArticleName, CPU>(&cpus).unwrap();
    let m = mindex_by_foreign::<ArticleName, String, SoldAt, CPU>(
        &offers,
        &catalog,
        "SoldAt.article_name -> CPU.name",
    )
    .unwrap();
    let group = m.get(&ArticleName::new("AMD Ryzen 9 5950X")).unwrap();
    assert!(group.get(&"u1".to_string()).is_some());
    assert!(group.get(&"u2".to_string()).is_some());
}
