//! Metadata of a node of a local `kind` (Kubernetes in Docker) cluster.
use vstd::prelude::*;
use crate::metadata::{Metadata, MetadataView, Region, RegionView};

verus! {

/// The record of the node `hostname` of a kind cluster whose host address is
/// `host_ip` (the `HOST_IP` setting, if set): region `kind` (as name and
/// code, with no city), no public address, the host address (empty when
/// unset) as private address, and the host name as id.
pub open spec fn kind_metadata_spec(hostname: Seq<char>, host_ip: Option<Seq<char>>) -> MetadataView {
    MetadataView {
        region: RegionView { name: "kind"@, code: Some("kind"@), city: None },
        public_ip: None,
        private_ip: match host_ip {
            Some(ip) => ip,
            None => Seq::empty(),
        },
        id: hostname,
    }
}

/// A kind node's record keeps the host address unchanged as its private
/// address when it is set, and has an empty one when it is not; its id is the
/// host name; it has no public address; its region is `kind`, as name and as
/// code, with no city.
pub proof fn lemma_kind_record(hostname: Seq<char>, host_ip: Option<Seq<char>>)
    ensures
        host_ip matches Some(ip) ==> kind_metadata_spec(hostname, host_ip).private_ip == ip,
        host_ip is None ==> kind_metadata_spec(hostname, host_ip).private_ip.len() == 0,
        kind_metadata_spec(hostname, host_ip).id == hostname,
        kind_metadata_spec(hostname, host_ip).public_ip is None,
        kind_metadata_spec(hostname, host_ip).region.name == "kind"@,
        kind_metadata_spec(hostname, host_ip).region.code == Some("kind"@),
        kind_metadata_spec(hostname, host_ip).region.city is None,
{
}

/// The record of the node `hostname` of a kind cluster whose host address is
/// `host_ip`, if set.
pub fn kind_metadata(hostname: String, host_ip: Option<String>) -> (m: Metadata)
    ensures
        m@ == kind_metadata_spec(hostname@, crate::metadata::opt_text(host_ip)),
{
    let region = Region { name: "kind".to_owned(), code: Some("kind".to_owned()), city: None };
    let ip = match host_ip {
        Some(ip) => ip,
        None => String::new(),
    };
    Metadata { region, public_ip: None, private_ip: ip, id: hostname }
}

} // verus!
