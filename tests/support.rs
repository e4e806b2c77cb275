use lan_sync::config::{
    get_platform_config, platform_config_for, AggregatorConfig, AttributeConfig, ExtractionConfig,
    GlobalConfig, PlatformConfig, PlatformsConfig, PollingConfig, SelectorConfig,
};
use lan_sync::discovery::{filter_servers, get_mdns_service_name, get_mdns_service_type, instance_name, tenant_matches};
use lan_sync::staff::{is_valid_pin, StaffSessionState, StaffUser};
use lan_sync::storage::{DeviceRegistration, ManagerSession, SecureStorage};
use lan_sync::types::DiscoveredServer;

fn selectors(tag: &str) -> SelectorConfig {
    let s = |x: &str| format!("{}-{}", tag, x);
    SelectorConfig {
        order_container: s("oc"),
        order_id: s("oi"),
        order_number: s("on"),
        customer_name: s("cn"),
        customer_phone: s("cp"),
        customer_address: s("ca"),
        items_list: s("il"),
        item_row: s("ir"),
        item_name: s("in"),
        item_quantity: s("iq"),
        item_price: s("ip"),
        item_modifiers: s("im"),
        special_instructions: s("si"),
        order_total: s("ot"),
        order_status: s("os"),
        order_time: s("ti"),
        accept_button: s("ab"),
        reject_button: s("rb"),
        ready_button: s("rd"),
    }
}

fn platform(tag: &str) -> PlatformConfig {
    PlatformConfig {
        enabled: true,
        dashboard_url: format!("https://{}.example", tag),
        selectors: selectors(tag),
        attributes: AttributeConfig {
            order_id: "a".to_string(),
            order_number: "b".to_string(),
            order_status: "c".to_string(),
            item_quantity: "d".to_string(),
        },
        polling: PollingConfig { enabled: true, interval_ms: 5000, use_observer: false },
        extraction: ExtractionConfig { skip_processed_orders: true, max_orders_per_scan: 10, parse_numeric_values: true },
    }
}

fn config() -> AggregatorConfig {
    AggregatorConfig {
        version: "1".to_string(),
        last_updated: "today".to_string(),
        platforms: PlatformsConfig { swiggy: platform("swiggy"), zomato: platform("zomato") },
        global: GlobalConfig { debug_mode: false, log_extractions: false, notify_on_new_order: true, auto_accept_orders: false },
    }
}

#[test]
fn platform_lookup_ignores_case() {
    let c = config();
    assert_eq!(get_platform_config(&c, "Swiggy").unwrap().dashboard_url, "https://swiggy.example");
    assert_eq!(get_platform_config(&c, "ZOMATO").unwrap().dashboard_url, "https://zomato.example");
    assert!(get_platform_config(&c, "ubereats").is_none());
    assert!(platform_config_for(&c, "Swiggy").is_none());
    assert_eq!(platform_config_for(&c, "zomato").unwrap().selectors.order_id, "zomato-oi");
}

#[test]
fn service_names() {
    assert_eq!(get_mdns_service_type(), "_handsfree._tcp.local.");
    assert_eq!(get_mdns_service_name(), "Handsfree POS");
    assert_eq!(instance_name("restaurant-42"), "Handsfree POS-restaura");
    assert_eq!(instance_name("ÄÄÄÄÄ"), "Handsfree POS-ÄÄÄÄ");
    assert_eq!(instance_name("aÄÖÜÄÖ"), "Handsfree POS-aÄÖÜ");
    assert_eq!(instance_name("ab€€"), "Handsfree POS-ab€€");
    assert_eq!(instance_name("abc€€"), "Handsfree POS-abc€");
    assert_eq!(instance_name("t1"), "Handsfree POS-t1");
    assert_eq!(instance_name(""), "Handsfree POS-");
}

fn found(name: &str, tenant: Option<&str>) -> DiscoveredServer {
    DiscoveredServer { name: name.to_string(), ip_address: "10.0.0.1".to_string(), port: 3847, tenant_id: tenant.map(|t| t.to_string()) }
}

#[test]
fn discovery_filters_by_tenant() {
    let all = vec![found("a", Some("t1")), found("b", Some("t2")), found("c", None), found("d", Some("t1"))];
    let kept = filter_servers(all.clone(), &Some("t1".to_string()));
    assert_eq!(kept.iter().map(|s| s.name.as_str()).collect::<Vec<_>>(), vec!["a", "d"]);
    let every = filter_servers(all, &None);
    assert_eq!(every.iter().map(|s| s.name.as_str()).collect::<Vec<_>>(), vec!["a", "b", "c", "d"]);
    assert!(filter_servers(vec![], &Some("t1".to_string())).is_empty());
    assert!(tenant_matches(&None, &None));
    assert!(!tenant_matches(&Some("t1".to_string()), &None));
}

#[test]
fn pins_are_four_to_six_digits() {
    assert!(is_valid_pin("1234"));
    assert!(is_valid_pin("123456"));
    assert!(!is_valid_pin("123"));
    assert!(!is_valid_pin("1234567"));
    assert!(!is_valid_pin("12a4"));
    assert!(!is_valid_pin("١٢٣٤"));
}

#[test]
fn third_failure_locks_out() {
    let mut st = StaffSessionState::new();
    assert_eq!(st.check_rate_limit("ann", 100), Ok(()));
    st.record_failed_attempt("ann", 100);
    st.record_failed_attempt("ann", 101);
    assert_eq!(st.check_rate_limit("ann", 101), Ok(()));
    st.record_failed_attempt("ann", 102);
    assert_eq!(
        st.check_rate_limit("ann", 110),
        Err("Too many failed attempts. Try again in 22 seconds".to_string())
    );
    assert_eq!(st.check_rate_limit("bob", 110), Ok(()));
    assert_eq!(st.check_rate_limit("ann", 132), Ok(()));
    st.record_failed_attempt("bob", 110);
    st.clear_failed_attempts("ann");
    assert_eq!(st.check_rate_limit("ann", 110), Ok(()));
}

#[test]
fn staff_session_lifecycle() {
    let mut st = StaffSessionState::new();
    assert!(!st.is_authenticated());
    st.set_session(
        StaffUser {
            id: "u1".to_string(),
            tenant_id: "t1".to_string(),
            name: "Ann".to_string(),
            role: "cashier".to_string(),
            is_active: true,
            permissions: vec!["orders".to_string()],
            created_at: 1,
            last_login_at: None,
        },
        500,
    );
    assert!(st.is_authenticated());
    let s = st.current_session().clone().unwrap();
    assert_eq!(s.staff_id, "u1");
    assert_eq!(s.logged_in_at, 500);
    st.logout();
    assert!(!st.is_authenticated());
}

#[test]
fn storage_lookups() {
    let reg = DeviceRegistration {
        device_id: "test-device-123".to_string(),
        device_name: "Test POS Terminal".to_string(),
        tenant_id: "test-tenant".to_string(),
        tenant_name: "Test Restaurant".to_string(),
        registered_at: 0,
    };
    assert!(SecureStorage::is_device_registered(&Ok(Some(reg))));
    assert!(!SecureStorage::is_device_registered(&Ok(None)));
    assert!(!SecureStorage::is_device_registered(&Err("locked".to_string())));
    let session = ManagerSession {
        user_id: "m".to_string(),
        tenant_id: "t".to_string(),
        access_token: "a".to_string(),
        refresh_token: "r".to_string(),
        expires_at: 1000,
    };
    assert!(SecureStorage::has_valid_manager_session(&Ok(Some(session.clone())), 999));
    assert!(!SecureStorage::has_valid_manager_session(&Ok(Some(session)), 1000));
    assert!(!SecureStorage::has_valid_manager_session(&Ok(None), 0));
}
