use cf::config::{CfConfig, ServiceConfig};

#[test]
fn urls_of_the_services() {
    let cf = CfConfig::new(
        ServiceConfig::new("127.0.0.1".to_string(), 27017),
        ServiceConfig::new("127.0.0.1".to_string(), 18080),
    );
    assert_eq!(cf.db.host, "127.0.0.1");
    assert_eq!(cf.db.port, 27017);
    assert_eq!(cf.db_url(), "mongodb://127.0.0.1:27017");
    assert_eq!(cf.service_url(), "http://127.0.0.1:18080");
}

#[test]
fn url_ports_in_decimal() {
    let cf = CfConfig::new(
        ServiceConfig::new("db".to_string(), 0),
        ServiceConfig::new("".to_string(), usize::MAX),
    );
    assert_eq!(cf.db_url(), "mongodb://db:0");
    assert_eq!(cf.service_url(), format!("http://:{}", usize::MAX));
}
