//! Record types held by the store, their mathematical models, and the
//! error conditions that operations report.
use vstd::prelude::*;

verus! {

/// A storage location. Text fields hold UTF-8 bytes.
#[derive(Clone, Debug, PartialEq, Eq)]
pub struct Container {
    pub id: u64,
    pub name: Vec<u8>,
    pub address: Vec<u8>,
}

/// Mathematical model of a [`Container`].
pub struct ContainerModel {
    pub id: u64,
    pub name: Seq<u8>,
    pub address: Seq<u8>,
}

impl View for Container {
    type V = ContainerModel;

    open spec fn view(&self) -> ContainerModel {
        ContainerModel { id: self.id, name: self.name@, address: self.address@ }
    }
}

/// A stocked item. It embeds a snapshot of the container it was created
/// against; later edits of that container do not reach this copy.
#[derive(Clone, Debug, PartialEq, Eq)]
pub struct Item {
    pub id: u64,
    pub name: Vec<u8>,
    pub quantity: u32,
    pub category: Vec<u8>,
    pub container: Container,
    pub added_at: u64,
    pub restocked_at: u64,
}

/// Mathematical model of an [`Item`].
pub struct ItemModel {
    pub id: u64,
    pub name: Seq<u8>,
    pub quantity: u32,
    pub category: Seq<u8>,
    pub container: ContainerModel,
    pub added_at: u64,
    pub restocked_at: u64,
}

impl View for Item {
    type V = ItemModel;

    open spec fn view(&self) -> ItemModel {
        ItemModel {
            id: self.id,
            name: self.name@,
            quantity: self.quantity,
            category: self.category@,
            container: self.container@,
            added_at: self.added_at,
            restocked_at: self.restocked_at,
        }
    }
}

/// A name or address passes validation when it has at least three
/// characters, counted over its UTF-8 bytes.
pub open spec fn valid_text(s: Seq<u8>) -> bool {
    crate::text::char_count(s) >= 3
}

/// The error conditions an operation can report. Every one carries a
/// human-readable message.
#[derive(Clone, Debug, PartialEq, Eq)]
pub enum Error {
    NotFound { msg: String },
    AlreadyInit { msg: String },
    InvalidPayload { msg: String },
    Unauthorized { msg: String },
}

impl Error {
    /// The message the error carries, whichever condition it is.
    pub open spec fn msg_spec(&self) -> Seq<char> {
        match self {
            Error::NotFound { msg } => msg@,
            Error::AlreadyInit { msg } => msg@,
            Error::InvalidPayload { msg } => msg@,
            Error::Unauthorized { msg } => msg@,
        }
    }

    /// The message carried by the error, whichever condition it is.
    pub fn message(&self) -> (m: &String)
        ensures
            m@ == self.msg_spec(),
    {
        match self {
            Error::NotFound { msg } => msg,
            Error::AlreadyInit { msg } => msg,
            Error::InvalidPayload { msg } => msg,
            Error::Unauthorized { msg } => msg,
        }
    }
}

} // verus!
