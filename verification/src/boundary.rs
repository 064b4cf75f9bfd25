//! The typed requests and responses of the REST boundary.
//!
//! The boundary layer parses HTTP into these values and hands them over;
//! the library's operations answer with the entities of the data model or
//! with a typed failure.  External collaborators (identity, contacts, key
//! bundles, stickers, avatars) appear here only through the shapes of
//! their requests.

use vstd::prelude::*;

verus! {

/// Page selection for conversation listings.
pub struct PaginationQuery {
    pub limit: i32,
    pub offset: i32,
}

/// Page selection for message listings, with the optional pagination
/// bound: only messages strictly older than the named one.
pub struct MessagesQuery {
    pub limit: i32,
    pub offset: i32,
    pub before: Option<u128>,
}

/// The default page size of conversation listings.
pub fn default_limit() -> (r: i32)
    ensures
        r == 20,
{
    20
}

/// The default page size of message listings.
pub fn default_message_limit() -> (r: i32)
    ensures
        r == 50,
{
    50
}

/// A direct-conversation creation request.
pub struct CreateDirectRequest {
    pub user_id: u128,
}

/// A group-conversation creation request.
pub struct CreateGroupRequest {
    pub name: String,
    pub member_ids: Vec<u128>,
}

/// A message send request.
pub struct SendMessageRequest {
    pub message_type: String,
    pub content: Vec<u8>,
    pub sticker_id: Option<u128>,
    pub reply_to_id: Option<u128>,
}

/// A typing signal.
pub struct TypingRequest {
    pub is_typing: bool,
}

/// A plain confirmation message.
pub struct MessageResponse {
    pub message: String,
}

/// The claims of a validated access token.
pub struct Claims {
    pub sub: String,
    pub device_id: String,
    pub iss: String,
    pub exp: i64,
    pub iat: i64,
}

/// The channel a one-time code travels over.
#[derive(Clone, Copy, Debug, PartialEq, Eq, Structural)]
pub enum OtpType {
    Phone,
    Email,
}

/// A one-time-code request.
pub struct SendOtpRequest {
    pub target: String,
    pub otp_type: String,
}

/// A one-time-code verification request.
pub struct VerifyOtpRequest {
    pub target: String,
    pub otp_type: String,
    pub code: String,
}

/// The answer to a one-time-code verification.
pub struct VerifyResponse {
    pub verified: bool,
}

/// A registration request.
pub struct RegisterRequest {
    pub phone: Option<String>,
    pub email: Option<String>,
    pub username: String,
    pub display_name: String,
    pub device_name: String,
    pub platform: String,
}

/// A login request.
pub struct LoginRequest {
    pub target: String,
    pub otp_type: String,
    pub device_name: String,
    pub platform: String,
}

/// A token refresh request.
pub struct RefreshRequest {
    pub refresh_token: String,
}

/// A contact listing query.
pub struct GetContactsQuery {
    pub include_blocked: bool,
}

/// A contact update request.
pub struct UpdateContactRequest {
    pub nickname: Option<String>,
    pub is_favorite: Option<bool>,
}

/// A contact synchronisation request.
pub struct SyncContactsRequest {
    pub identifiers: Vec<String>,
}

/// A pre-key count query.
pub struct PreKeyCountQuery {
    pub device_id: Option<i32>,
}

/// The answer to a pre-key count query.
pub struct PreKeyCountResponse {
    pub count: i64,
}

/// A signed pre-key, as the key bundle store presents it.
pub struct SignedPreKeyBundle {
    pub key_id: i32,
    pub public_key: String,
    pub signature: String,
}

/// A one-time pre-key, as the key bundle store presents it.
pub struct PreKeyBundle {
    pub key_id: i32,
    pub public_key: String,
}

/// A key registration request.
pub struct RegisterKeysRequest {
    pub device_id: i32,
    pub registration_id: i32,
    pub identity_key: String,
    pub signed_pre_key: SignedPreKeyBundle,
    pub pre_keys: Vec<PreKeyBundle>,
}

/// A pre-key replenishment request.
pub struct RefreshPreKeysRequest {
    pub device_id: i32,
    pub pre_keys: Vec<PreKeyBundle>,
}

/// A sticker catalog query.
pub struct CatalogQuery {
    pub limit: i32,
    pub offset: i32,
    pub official: Option<bool>,
}

/// A text search query.
pub struct SearchQuery {
    pub q: String,
    pub limit: i32,
}

/// A sticker pack creation request.
pub struct CreatePackRequest {
    pub name: String,
    pub author: String,
    pub description: Option<String>,
    pub is_official: bool,
    pub is_animated: bool,
}

/// The answer to a pack cover upload.
pub struct CoverResponse {
    pub cover_url: String,
}

/// A profile update request.
pub struct UpdateUserRequest {
    pub display_name: Option<String>,
    pub username: Option<String>,
    pub bio: Option<String>,
}

/// The answer to an avatar upload.
pub struct AvatarResponse {
    pub avatar_url: String,
}

} // verus!
