//! The messages of the contract that keeps the register of admins, and the
//! names of the permissions it knows.

use vstd::prelude::*;

verus! {

/// What the admin register currently allows.
#[derive(Debug, Clone, Copy, PartialEq, Eq)]
pub enum AdminAuthStatus {
    Active,
    Maintenance,
    Shutdown,
}

/// A change to the admin register.
#[derive(Debug, Clone, PartialEq, Eq)]
pub enum RegistryAction {
    RegisterAdmin { user: String },
    GrantAccess { permissions: Vec<String>, user: String },
    RevokeAccess { permissions: Vec<String>, user: String },
    DeleteAdmin { user: String },
}

/// The permissions that a user holds.
#[derive(Debug, Clone, PartialEq, Eq)]
pub struct PermissionsResponse {
    pub permissions: Vec<String>,
}

/// Whether a user holds a permission.
#[derive(Debug, Clone, Copy, PartialEq, Eq)]
pub struct ValidateAdminPermissionResponse {
    pub has_permission: bool,
}

/// The permissions that the register knows by name.
#[derive(Debug, Clone, Copy, PartialEq, Eq)]
pub enum AdminPermissions {
    QueryAuthAdmin,
    ScrtStakingAdmin,
    TreasuryManager,
    TreasuryAdmin,
    StabilityAdmin,
    SkyAdmin,
    LendAdmin,
    OraclesAdmin,
    OraclesPriceBot,
    SilkAdmin,
    ShadeSwapAdmin,
    StakingAdmin,
    DerivativeAdmin,
    Snip20MigrationAdmin,
}

impl AdminPermissions {
    /// The name under which the register keeps the permission.
    pub open spec fn name(self) -> Seq<char> {
        match self {
            AdminPermissions::QueryAuthAdmin => "SHADE_QUERY_AUTH_ADMIN"@,
            AdminPermissions::ScrtStakingAdmin => "SHADE_SCRT_STAKING_ADMIN"@,
            AdminPermissions::TreasuryManager => "SHADE_TREASURY_MANAGER"@,
            AdminPermissions::TreasuryAdmin => "SHADE_TREASURY_ADMIN"@,
            AdminPermissions::StabilityAdmin => "SHADE_STABILITY_ADMIN"@,
            AdminPermissions::SkyAdmin => "SHADE_SKY_ADMIN"@,
            AdminPermissions::LendAdmin => "SHADE_LEND_ADMIN"@,
            AdminPermissions::OraclesAdmin => "SHADE_ORACLES_ADMIN"@,
            AdminPermissions::OraclesPriceBot => "SHADE_ORACLES_PRICE_BOT"@,
            AdminPermissions::SilkAdmin => "SHADE_SILK_ADMIN"@,
            AdminPermissions::ShadeSwapAdmin => "SHADE_SWAP_ADMIN"@,
            AdminPermissions::StakingAdmin => "SHADE_STAKING_ADMIN"@,
            AdminPermissions::DerivativeAdmin => "SHADE_DERIVATIVE_ADMIN"@,
            AdminPermissions::Snip20MigrationAdmin => "SNIP20_MIGRATION_ADMIN"@,
        }
    }

    /// The name under which the register keeps the permission.
    pub fn into_string(self) -> (name: String)
        ensures
            name@ == self.name(),
    {
        let name: &str = match self {
            AdminPermissions::QueryAuthAdmin => "SHADE_QUERY_AUTH_ADMIN",
            AdminPermissions::ScrtStakingAdmin => "SHADE_SCRT_STAKING_ADMIN",
            AdminPermissions::TreasuryManager => "SHADE_TREASURY_MANAGER",
            AdminPermissions::TreasuryAdmin => "SHADE_TREASURY_ADMIN",
            AdminPermissions::StabilityAdmin => "SHADE_STABILITY_ADMIN",
            AdminPermissions::SkyAdmin => "SHADE_SKY_ADMIN",
            AdminPermissions::LendAdmin => "SHADE_LEND_ADMIN",
            AdminPermissions::OraclesAdmin => "SHADE_ORACLES_ADMIN",
            AdminPermissions::OraclesPriceBot => "SHADE_ORACLES_PRICE_BOT",
            AdminPermissions::SilkAdmin => "SHADE_SILK_ADMIN",
            AdminPermissions::ShadeSwapAdmin => "SHADE_SWAP_ADMIN",
            AdminPermissions::StakingAdmin => "SHADE_STAKING_ADMIN",
            AdminPermissions::DerivativeAdmin => "SHADE_DERIVATIVE_ADMIN",
            AdminPermissions::Snip20MigrationAdmin => "SNIP20_MIGRATION_ADMIN",
        };
        name.to_owned()
    }
}

/// A user who lacks a permission.
#[derive(Debug, Clone, PartialEq, Eq)]
pub struct Unauthorized {
    pub user: String,
    pub permission: String,
}

/// Whether the user holds the permission, as the register answered. An
/// error in place of an answer is handed on.
pub fn admin_is_valid<E>(answer: Result<ValidateAdminPermissionResponse, E>) -> (r: Result<
    bool,
    E,
>)
    ensures
        match answer {
            Ok(response) => r == Ok::<bool, E>(response.has_permission),
            Err(e) => r == Err::<bool, E>(e),
        },
{
    match answer {
        Ok(response) => Ok(response.has_permission),
        Err(e) => Err(e),
    }
}

/// Reports the user as unauthorized unless it holds the permission.
pub fn validate_admin(valid: bool, permission: AdminPermissions, user: String) -> (r: Result<
    (),
    Unauthorized,
>)
    ensures
        valid ==> r is Ok,
        !valid ==> (r matches Err(e) && e.user == user && e.permission@ == permission.name()),
{
    if valid {
        Ok(())
    } else {
        Err(Unauthorized { user, permission: permission.into_string() })
    }
}

} // verus!
