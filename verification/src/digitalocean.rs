//! DigitalOcean's instance metadata document (`/metadata/v1.json`), in part.
use vstd::prelude::*;
use crate::metadata::{Metadata, MetadataView, Region, RegionView};

verus! {

/// An address of a network interface.
pub struct IP {
    pub address: String,
    pub netmask: String,
    pub gateway: String,
    pub cidr: u8,
}

/// A network interface of the droplet.
pub struct Interface {
    pub ipv4: IP,
    pub ipv6: IP,
    pub addr_type: String,
    pub mac: String,
}

/// The droplet's public and private network interfaces.
pub struct Interfaces {
    pub public: Vec<Interface>,
    pub private: Vec<Interface>,
}

/// The parts of DigitalOcean's metadata document that the provider reads.
pub struct DOMetadata {
    pub region: String,
    pub id: String,
    pub interfaces: Interfaces,
}

/// The metadata record of a droplet: its id, its region (as name and code,
/// with no city), the IPv4 address of its first public interface as public
/// address and that of its first private interface as private address.
pub open spec fn digitalocean_metadata(meta: DOMetadata) -> MetadataView {
    MetadataView {
        id: meta.id@,
        region: RegionView { name: meta.region@, code: Some(meta.region@), city: None },
        public_ip: Some(meta.interfaces.public@[0].ipv4.address@),
        private_ip: meta.interfaces.private@[0].ipv4.address@,
    }
}

/// The record of a droplet that lists a public and a private interface: the
/// public address is always there, and is the IPv4 address of the first
/// public interface; the private address is that of the first private
/// interface; the id is the droplet's; the region, as name and as code, is
/// the droplet's region, with no city.
pub proof fn lemma_digitalocean_addresses(meta: DOMetadata)
    requires
        meta.interfaces.public@.len() > 0,
        meta.interfaces.private@.len() > 0,
    ensures
        digitalocean_metadata(meta).public_ip == Some(meta.interfaces.public@[0].ipv4.address@),
        digitalocean_metadata(meta).private_ip == meta.interfaces.private@[0].ipv4.address@,
        digitalocean_metadata(meta).id == meta.id@,
        digitalocean_metadata(meta).region.name == meta.region@,
        digitalocean_metadata(meta).region.code == Some(meta.region@),
        digitalocean_metadata(meta).region.city is None,
{
}

impl Metadata {
    /// The metadata record of a droplet, from DigitalOcean's document, which
    /// must list a public and a private interface.
    pub fn from_digitalocean(meta: DOMetadata) -> (m: Metadata)
        requires
            meta.interfaces.public@.len() > 0,
            meta.interfaces.private@.len() > 0,
        ensures
            m@ == digitalocean_metadata(meta),
    {
        let public_ip = meta.interfaces.public[0].ipv4.address.clone();
        let private_ip = meta.interfaces.private[0].ipv4.address.clone();
        Metadata {
            id: meta.id,
            region: Region { name: meta.region.clone(), code: Some(meta.region), city: None },
            public_ip: Some(public_ip),
            private_ip,
        }
    }
}

} // verus!
