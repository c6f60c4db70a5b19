//! Request and response bodies of the management HTTP API, as plain values.
//! Serialising them is left to the program that serves the API.
use vstd::prelude::*;

verus! {

/// Reply to an agent's registration.
#[derive(Debug, Clone)]
pub struct RegistrationResponse {
    pub success: bool,
    pub message: String,
}

/// A container as the Docker service reports it.
#[derive(Debug, Clone)]
pub struct ContainerInfo {
    pub id: String,
    pub name: String,
    pub image: String,
    pub state: String,
    pub status: String,
}

/// Asks for an action on a resource: `start`, `stop` or `restart`.
#[derive(Debug, Clone)]
pub struct ResourceActionRequest {
    pub action: String,
}

/// What the host reports about itself.
#[derive(Debug, Clone)]
pub struct SystemInfoResponse {
    pub hostname: String,
    pub os_name: String,
    pub os_version: String,
    pub kernel_version: String,
    pub uptime_seconds: u64,
    pub cpu_model: String,
    pub cpu_cores: u32,
    pub cpu_threads: u32,
}

/// The installed version and the latest released one.
#[derive(Debug, Clone)]
pub struct VersionInfo {
    pub current_version: String,
    pub current_commit: Option<String>,
    pub latest_version: String,
    pub latest_commit: Option<String>,
    pub update_available: bool,
    pub download_url: Option<String>,
    pub release_notes: Option<String>,
    pub published_at: Option<String>,
}

/// A release as the GitHub API describes it.
#[derive(Debug, Clone)]
pub struct GitHubRelease {
    pub tag_name: String,
    pub name: String,
    pub body: String,
    pub published_at: String,
    pub assets: Vec<GitHubAsset>,
}

/// One downloadable file of a release.
#[derive(Debug, Clone)]
pub struct GitHubAsset {
    pub name: String,
    pub browser_download_url: String,
}

/// Changes to an organization.
#[derive(Debug, Clone)]
pub struct UpdateOrganizationRequest {
    pub name: String,
    pub description: Option<String>,
}

/// Changes to a user of an organization.
#[derive(Debug, Clone)]
pub struct UpdateUserRequest {
    pub email: Option<String>,
    pub force_password_change: Option<bool>,
}

/// A new account: the user name and the RSA-encrypted password.
#[derive(Debug, Clone)]
pub struct RegisterRequest {
    pub username: String,
    pub encrypted_password: String,
}

/// A login: the user name, the RSA-encrypted password and, if enabled, a 2FA code.
#[derive(Debug, Clone)]
pub struct LoginRequest {
    pub username: String,
    pub encrypted_password: String,
    pub two_factor_code: Option<String>,
}

/// A successful login.
#[derive(Debug, Clone)]
pub struct AuthResponse {
    pub token: String,
    pub user_id: String,
    pub username: String,
    pub two_factor_enabled: bool,
    pub force_password_change: bool,
}

/// The RSA public key, in PEM form, that clients encrypt passwords with.
#[derive(Debug, Clone)]
pub struct PublicKeyResponse {
    pub public_key: String,
}

/// A user's own profile.
#[derive(Debug, Clone)]
pub struct UserProfileResponse {
    pub id: String,
    pub username: String,
    pub email: Option<String>,
    pub two_factor_enabled: bool,
    pub force_password_change: bool,
}

/// The secret and QR code for setting up 2FA.
#[derive(Debug, Clone)]
pub struct Setup2FAResponse {
    pub secret: String,
    pub qr_code: String,
}

/// A 2FA code.
#[derive(Debug, Clone)]
pub struct TwoFactorCodeRequest {
    pub code: String,
}

/// A password change.
#[derive(Debug, Clone)]
pub struct ChangePasswordRequest {
    pub old_password: String,
    pub new_password: String,
}

/// An email change.
#[derive(Debug, Clone)]
pub struct ChangeEmailRequest {
    pub new_email: String,
}

} // verus!
