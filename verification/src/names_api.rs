//! Response types of the read API of the names registry.
use vstd::prelude::*;

verus! {

/// Version of every response.
pub const RESPONSE_VERSION: u16 = 1;

/// Version of the label policy: lowercase ASCII letters, digits and internal
/// hyphens.
pub const LABEL_POLICY_VERSION: u16 = 1;

/// Most names in one page of an owner's names.
pub const MAX_OWNER_NAMES_PAGE_SIZE: u32 = 100;

/// Most controllers of a name.
pub const MAX_CONTROLLERS: u32 = 32;

/// Longest label.
pub const MAX_LABEL_LENGTH: u32 = 63;

/// Longest address.
pub const MAX_ADDRESS_LENGTH: u32 = 128;

/// Longest text-record key.
pub const MAX_TEXT_KEY_LENGTH: u32 = 32;

/// Longest text-record value.
pub const MAX_TEXT_VALUE_LENGTH: u32 = 256;

/// A response with its version.
#[derive(Clone, Debug, PartialEq, Eq)]
pub struct Versioned<T> {
    pub version: u16,
    pub value: Option<T>,
}

impl<T> Versioned<T> {
    /// A response of the current version.
    pub fn new(value: Option<T>) -> (r: Versioned<T>)
        ensures
            r.version == RESPONSE_VERSION,
            r.value == value,
    {
        Versioned { version: RESPONSE_VERSION, value }
    }
}

/// Stable metadata of a stored name.
#[derive(Clone, Debug, PartialEq, Eq)]
pub struct NameView<AccountId, BlockNumber, NameId> {
    pub name: NameId,
    pub parent: Option<NameId>,
    pub label: Vec<u8>,
    pub owner: AccountId,
    pub expires_at: BlockNumber,
    pub depth: u32,
}

/// Metadata of a stored name as a client decodes it.
#[derive(Clone, Debug, PartialEq, Eq)]
pub struct ClientNameView<AccountId, BlockNumber, NameId> {
    pub name: NameId,
    pub parent: Option<NameId>,
    pub label: Vec<u8>,
    pub owner: AccountId,
    pub expires_at: BlockNumber,
    pub depth: u32,
}

/// A page of the names of an owner.
#[derive(Clone, Debug, PartialEq, Eq)]
pub struct OwnerNamesPage<NameId> {
    pub version: u16,
    pub names: Vec<NameId>,
    pub next_cursor: Option<u32>,
}

impl<NameId> OwnerNamesPage<NameId> {
    /// A page of the current version.
    pub fn new(names: Vec<NameId>, next_cursor: Option<u32>) -> (r: OwnerNamesPage<NameId>)
        ensures
            r.version == RESPONSE_VERSION,
            r.names == names,
            r.next_cursor == next_cursor,
    {
        OwnerNamesPage { version: RESPONSE_VERSION, names, next_cursor }
    }
}

/// A page of the names of an owner as a client decodes it.
#[derive(Clone, Debug, PartialEq, Eq)]
pub struct ClientOwnerNamesPage<NameId> {
    pub version: u16,
    pub names: Vec<NameId>,
    pub next_cursor: Option<u32>,
}

/// Existence, activity and expiry of a name.
#[derive(Clone, Debug, PartialEq, Eq)]
pub struct NameStatus<BlockNumber> {
    pub version: u16,
    pub exists: bool,
    pub active: bool,
    pub expires_at: Option<BlockNumber>,
}

/// Content of a name with its revision.
#[derive(Clone, Debug, PartialEq, Eq)]
pub struct ContentPublication<ContentCommitment> {
    pub content: ContentCommitment,
    pub revision: u64,
}

} // verus!
