//! The record mapper: native types are written as tokens and read back
//! from them.
//!
//! [`des`] holds the way from a record to tokens, [`ser`] the way from
//! tokens to a record. The types below are the domain types of the format
//! that are no plain Rust types.

use vstd::prelude::*;

pub mod des;
pub mod map;
pub mod ser;
pub mod round_trip;

verus! {

/// TDF Object type
#[derive(Debug, PartialEq, Eq, Clone, Copy, Structural)]
pub struct ObjectType(pub i64, pub i64);

/// TDF Object id
#[derive(Debug, PartialEq, Eq, Clone, Copy, Structural)]
pub struct ObjectId(pub i64, pub i64, pub i64);

/// TDF Integer list
#[derive(Debug, PartialEq, Eq, Clone)]
pub struct IntList(pub Vec<i64>);

/// A float, held by the bits of its IEEE-754 single precision form.
#[derive(Debug, PartialEq, Eq, Clone, Copy, Structural)]
pub struct FloatBits(pub u32);

/// Network IP address
#[derive(Debug, PartialEq, Eq, Clone, Copy, Structural)]
pub struct IpAddress {
    pub ip: u64,
    pub maci: u64,
    pub port: u64,
}

/// Network Union
#[derive(Debug, PartialEq, Eq, Clone, Copy, Structural)]
pub enum Union {
    /// Client address specific for Xbox
    XboxClientAddr { dctx: i64 },
    /// Server address specific for Xbox
    XboxServerAddr {  },
    /// Pair of IPs
    IpPairAddr { internal: IpAddress, external: IpAddress, mac_addr: i64 },
    /// Info about IP address
    IpAddr { addr: IpAddress },
    /// Address of game server
    HostnameAddr {  },
    /// None is specified in this Union
    Unset,
}

/// A locale tag of four bytes, carried on the wire as one integer.
#[derive(Debug, PartialEq, Eq, Clone)]
pub struct Localization(pub String);

/// The id of the type that a generic holds.
pub type GenericTdfId = i64;

/// The label of a field.
pub type Label = String;

/// A dynamically typed slot: nothing, or an id with an optional value.
#[derive(Debug, PartialEq, Eq, Clone)]
pub enum Generic {
    Valid(GenericTdfId, GenericContent),
    Invalid,
}

/// What a valid generic holds.
#[derive(Debug, PartialEq, Eq, Clone)]
pub enum GenericContent {
    Labeled(Label, GenericType),
    Empty,
}

/// The value of a labeled generic.
#[derive(Debug, PartialEq, Eq, Clone)]
pub enum GenericType {
    Int(i64),
    String(String),
}

} // verus!
