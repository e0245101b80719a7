//! Data-link / subnetwork facing types: the quality-of-service code and the
//! unit-data request primitive that the network layer hands down for
//! transmission.
use vstd::prelude::*;

verus! {

/// EtherType under which CLNP frames travel on an Ethernet subnetwork.
pub const ETHER_TYPE_CLNP: u16 = 0x8872;

/// Subnetwork-dependent quality-of-service code, distinct from the
/// network-service quality-of-service code.
#[derive(Debug)]
pub struct Qos {}

impl Qos {
    /// Maps a network-service quality-of-service code onto the subnetwork one.
    pub fn from_ns_quality_of_service(ns_quality_of_service: &crate::n::Qos) -> (r: Qos) {
        Qos {}
    }
}

/// One frame waiting to cross from the network layer down to the subnetwork
/// layer: subnetwork point-of-attachment addresses and the encoded PDU bytes.
#[derive(Debug)]
pub struct SNUnitDataRequest {
    pub sn_source_address: [u8; 6],
    pub sn_destination_address: [u8; 6],
    pub sn_quality_of_service: Qos,
    pub sn_userdata: Vec<u8>,
}

impl SNUnitDataRequest {
    /// Mathematical content of the request: source, destination, payload bytes.
    pub open spec fn model(&self) -> (Seq<u8>, Seq<u8>, Seq<u8>) {
        (self.sn_source_address@, self.sn_destination_address@, self.sn_userdata@)
    }
}

} // verus!
