//! Aggregator dashboard configuration and its lookup by platform.

use vstd::prelude::*;
use crate::outside::{lower_of, lowercase};
use crate::text::text_eq;

verus! {

/// Page selectors of an aggregator dashboard.
#[derive(Debug, Clone)]
pub struct SelectorConfig {
    pub order_container: String,
    pub order_id: String,
    pub order_number: String,
    pub customer_name: String,
    pub customer_phone: String,
    pub customer_address: String,
    pub items_list: String,
    pub item_row: String,
    pub item_name: String,
    pub item_quantity: String,
    pub item_price: String,
    pub item_modifiers: String,
    pub special_instructions: String,
    pub order_total: String,
    pub order_status: String,
    pub order_time: String,
    pub accept_button: String,
    pub reject_button: String,
    pub ready_button: String,
}

/// Element attributes read from a dashboard.
#[derive(Debug, Clone)]
pub struct AttributeConfig {
    pub order_id: String,
    pub order_number: String,
    pub order_status: String,
    pub item_quantity: String,
}

/// How a dashboard is watched.
#[derive(Debug, Clone)]
pub struct PollingConfig {
    pub enabled: bool,
    pub interval_ms: u64,
    pub use_observer: bool,
}

/// How orders are read from a dashboard.
#[derive(Debug, Clone)]
pub struct ExtractionConfig {
    pub skip_processed_orders: bool,
    pub max_orders_per_scan: usize,
    pub parse_numeric_values: bool,
}

/// The configuration of one aggregator platform.
#[derive(Debug, Clone)]
pub struct PlatformConfig {
    pub enabled: bool,
    pub dashboard_url: String,
    pub selectors: SelectorConfig,
    pub attributes: AttributeConfig,
    pub polling: PollingConfig,
    pub extraction: ExtractionConfig,
}

/// Settings that apply to every platform.
#[derive(Debug, Clone)]
pub struct GlobalConfig {
    pub debug_mode: bool,
    pub log_extractions: bool,
    pub notify_on_new_order: bool,
    pub auto_accept_orders: bool,
}

/// The known platforms.
#[derive(Debug, Clone)]
pub struct PlatformsConfig {
    pub swiggy: PlatformConfig,
    pub zomato: PlatformConfig,
}

/// The whole aggregator configuration.
#[derive(Debug, Clone)]
pub struct AggregatorConfig {
    pub version: String,
    pub last_updated: String,
    pub platforms: PlatformsConfig,
    pub global: GlobalConfig,
}

/// The platform configuration for a lower-case platform name.
pub fn platform_config_for<'a>(config: &'a AggregatorConfig, lowered: &str) -> (r: Option<
    &'a PlatformConfig,
>)
    ensures
        lowered@ == "swiggy"@ ==> r == Some(&config.platforms.swiggy),
        lowered@ == "zomato"@ ==> r == Some(&config.platforms.zomato),
        lowered@ != "swiggy"@ && lowered@ != "zomato"@ ==> r is None,
{
    proof {
        reveal_strlit("swiggy");
        reveal_strlit("zomato");
        assert("swiggy"@[0] != "zomato"@[0]);
    }
    if text_eq(lowered, "swiggy") {
        Some(&config.platforms.swiggy)
    } else if text_eq(lowered, "zomato") {
        Some(&config.platforms.zomato)
    } else {
        None
    }
}

/// The platform configuration for a platform name, in any case.
pub fn get_platform_config<'a>(config: &'a AggregatorConfig, platform: &str) -> (r: Option<
    &'a PlatformConfig,
>)
    ensures
        lower_of(platform@) == "swiggy"@ ==> r == Some(&config.platforms.swiggy),
        lower_of(platform@) == "zomato"@ ==> r == Some(&config.platforms.zomato),
        lower_of(platform@) != "swiggy"@ && lower_of(platform@) != "zomato"@ ==> r is None,
{
    let lowered = lowercase(platform);
    platform_config_for(config, lowered.as_str())
}

} // verus!
