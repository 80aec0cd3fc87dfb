//! Google Compute Engine's instance metadata (`computeMetadata/v1/instance`), in part.
use vstd::prelude::*;
use crate::metadata::{Metadata, MetadataView, Region, RegionView};
use crate::text::{has_char, last_piece, last_piece_of, lemma_last_piece_tail};

verus! {

/// An external (NAT) address of a network interface.
pub struct AccessConfig {
    pub external_ip: String,
}

/// A network interface of the instance.
pub struct Interfaces {
    pub access_configs: Vec<AccessConfig>,
    pub ip: String,
}

/// The parts of the metadata that the provider reads; `zone` is a path such
/// as `projects/1234/zones/us-central1-a`.
pub struct GCPMetadata {
    pub zone: String,
    pub name: String,
    pub interfaces: Vec<Interfaces>,
}

/// The metadata record of a GCE instance: its name as id; as region, name and
/// code, the last `/`-separated piece of its zone; as public address, the
/// external address of the first access config of its first interface, if
/// any; as private address, the address of its first interface, or the empty
/// text when it has none.
pub open spec fn gcp_metadata(meta: GCPMetadata) -> MetadataView {
    let region = last_piece(meta.zone@, '/');
    MetadataView {
        id: meta.name@,
        region: RegionView { name: region, code: Some(region), city: None },
        public_ip: if meta.interfaces@.len() > 0 && meta.interfaces@[0].access_configs@.len() > 0 {
            Some(meta.interfaces@[0].access_configs@[0].external_ip@)
        } else {
            None
        },
        private_ip: if meta.interfaces@.len() > 0 {
            meta.interfaces@[0].ip@
        } else {
            Seq::empty()
        },
    }
}

/// The region of a GCE instance's record, as name and as code, is exactly
/// the end of its zone after the last `/`, whatever its length: the zone ends
/// with it, it holds no `/`, and a `/` stands just before it unless it is the
/// whole zone. The id is the instance's name, and there is no city.
pub proof fn lemma_gcp_region_is_zone_tail(meta: GCPMetadata)
    ensures
        gcp_metadata(meta).region.code == Some(gcp_metadata(meta).region.name),
        gcp_metadata(meta).region.name.len() <= meta.zone@.len(),
        meta.zone@.subrange(
            meta.zone@.len() - gcp_metadata(meta).region.name.len(),
            meta.zone@.len() as int,
        ) == gcp_metadata(meta).region.name,
        !has_char(gcp_metadata(meta).region.name, '/'),
        gcp_metadata(meta).region.name.len() < meta.zone@.len() ==> meta.zone@[meta.zone@.len()
            - gcp_metadata(meta).region.name.len() - 1] == '/',
        gcp_metadata(meta).region.city is None,
        gcp_metadata(meta).id == meta.name@,
{
    lemma_last_piece_tail(meta.zone@, '/');
}

/// The addresses of a GCE instance's record: with an interface, its address
/// is the private one, and with an access config on it, the first config's
/// external address is the public one; with no interface, the private
/// address is empty, and with no access config there is no public one.
pub proof fn lemma_gcp_addresses(meta: GCPMetadata)
    ensures
        meta.interfaces@.len() > 0 ==> gcp_metadata(meta).private_ip == meta.interfaces@[0].ip@,
        meta.interfaces@.len() == 0 ==> gcp_metadata(meta).private_ip.len() == 0,
        (meta.interfaces@.len() > 0 && meta.interfaces@[0].access_configs@.len() > 0)
            ==> gcp_metadata(meta).public_ip == Some(meta.interfaces@[0].access_configs@[0].external_ip@),
        (meta.interfaces@.len() == 0 || meta.interfaces@[0].access_configs@.len() == 0)
            ==> gcp_metadata(meta).public_ip is None,
{
}

impl Metadata {
    /// The metadata record of a GCE instance, from its metadata.
    pub fn from_gcp(meta: GCPMetadata) -> (m: Metadata)
        ensures
            m@ == gcp_metadata(meta),
    {
        let region = last_piece_of(meta.zone.as_str(), '/');
        let public_ip = if meta.interfaces.len() > 0 {
            if meta.interfaces[0].access_configs.len() > 0 {
                Some(meta.interfaces[0].access_configs[0].external_ip.clone())
            } else {
                None
            }
        } else {
            None
        };
        let private_ip = if meta.interfaces.len() > 0 {
            meta.interfaces[0].ip.clone()
        } else {
            String::new()
        };
        Metadata {
            id: meta.name,
            region: Region { name: region.clone(), code: Some(region), city: None },
            public_ip,
            private_ip,
        }
    }
}

} // verus!
