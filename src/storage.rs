//! Records kept in secure storage, and the decisions made on a lookup.

use vstd::prelude::*;

verus! {

/// A device's registration with its tenant, as kept in secure storage.
#[derive(Debug, Clone)]
pub struct DeviceRegistration {
    pub device_id: String,
    pub device_name: String,
    pub tenant_id: String,
    pub tenant_name: String,
    pub registered_at: i64,
}

/// A manager's session, as kept in secure storage.
#[derive(Debug, Clone)]
pub struct ManagerSession {
    pub user_id: String,
    pub tenant_id: String,
    pub access_token: String,
    pub refresh_token: String,
    pub expires_at: i64,
}

/// Decisions on what the platform's secure storage returned.
pub struct SecureStorage;

impl SecureStorage {
    /// The device is registered when the lookup found a registration.
    pub fn is_device_registered(lookup: &Result<Option<DeviceRegistration>, String>) -> (r: bool)
        ensures
            r == (lookup is Ok && lookup->Ok_0 is Some),
    {
        match lookup {
            Ok(Some(_)) => true,
            _ => false,
        }
    }

    /// A manager session is valid when the lookup found one that expires
    /// after `now`.
    pub fn has_valid_manager_session(
        lookup: &Result<Option<ManagerSession>, String>,
        now: i64,
    ) -> (r: bool)
        ensures
            r == (lookup is Ok && lookup->Ok_0 is Some && lookup->Ok_0->0.expires_at > now),
    {
        match lookup {
            Ok(Some(session)) => session.expires_at > now,
            _ => false,
        }
    }
}

/// A menu category.
#[derive(Debug, Clone)]
pub struct MenuCategory {
    pub id: String,
    pub name: String,
    pub sort_order: i32,
    pub active: bool,
    pub icon: Option<String>,
}

} // verus!
