use host::settings::{Opt, DEFAULT_CONCURRENCY_LIMIT};
use host::value::StructuredValue;

#[test]
fn default_settings() {
    let opt = Opt::default();
    assert_eq!(opt.address, "0.0.0.0:8080");
    assert_eq!(opt.concurrency_limit, 16);
    assert_eq!(opt.concurrency_limit, DEFAULT_CONCURRENCY_LIMIT);
    assert_eq!(opt.config_path, "host/config/config.json");
    assert_eq!(opt.cache, None);
    assert_eq!(opt.log_level, "info");
}

#[test]
fn settings_are_written_down_field_by_field() {
    let opt = Opt {
        address: "[::1]:9000".to_string(),
        concurrency_limit: 250,
        config_path: "/etc/host.json".to_string(),
        cache: Some("./cache dir".to_string()),
        log_level: "debug,hyper=warn".to_string(),
    };
    match opt.to_value() {
        StructuredValue::Mapping(m) => {
            assert_eq!(m.len(), 5);
            assert_eq!(m.get("address"), Some(&StructuredValue::String("[::1]:9000".to_string())));
            assert_eq!(
                m.get("concurrency_limit"),
                Some(&StructuredValue::Number("250".to_string()))
            );
            assert_eq!(
                m.get("config_path"),
                Some(&StructuredValue::String("/etc/host.json".to_string()))
            );
            assert_eq!(m.get("cache"), Some(&StructuredValue::String("./cache dir".to_string())));
            assert_eq!(
                m.get("log_level"),
                Some(&StructuredValue::String("debug,hyper=warn".to_string()))
            );
        }
        other => panic!("not a mapping: {:?}", other),
    }
}

#[test]
fn an_absent_cache_directory_is_written_as_null() {
    match Opt::default().to_value() {
        StructuredValue::Mapping(m) => {
            assert_eq!(m.get("cache"), Some(&StructuredValue::Null));
            assert_eq!(
                m.get("concurrency_limit"),
                Some(&StructuredValue::Number("16".to_string()))
            );
        }
        other => panic!("not a mapping: {:?}", other),
    }
}

#[test]
fn a_limit_of_zero_and_the_largest_limit_are_written_in_full() {
    let mut opt = Opt::default();
    opt.concurrency_limit = 0;
    match opt.to_value() {
        StructuredValue::Mapping(m) => {
            assert_eq!(m.get("concurrency_limit"), Some(&StructuredValue::Number("0".to_string())))
        }
        other => panic!("not a mapping: {:?}", other),
    }
    opt.concurrency_limit = usize::MAX;
    match opt.to_value() {
        StructuredValue::Mapping(m) => assert_eq!(
            m.get("concurrency_limit"),
            Some(&StructuredValue::Number(format!("{}", usize::MAX)))
        ),
        other => panic!("not a mapping: {:?}", other),
    }
}

#[test]
fn settings_need_a_positive_limit() {
    let mut opt = Opt::default();
    assert!(opt.is_valid());
    opt.concurrency_limit = 1;
    assert!(opt.is_valid());
    opt.concurrency_limit = 0;
    assert!(!opt.is_valid());
}

#[test]
fn a_clone_of_the_settings_holds_the_same_fields() {
    let opt = Opt {
        address: "a:1".to_string(),
        concurrency_limit: 9,
        config_path: "p".to_string(),
        cache: Some("c".to_string()),
        log_level: "l".to_string(),
    };
    let copy = opt.clone();
    assert_eq!(copy.address, "a:1");
    assert_eq!(copy.concurrency_limit, 9);
    assert_eq!(copy.config_path, "p");
    assert_eq!(copy.cache, Some("c".to_string()));
    assert_eq!(copy.log_level, "l");
    assert_eq!(copy.to_value(), opt.to_value());
}
