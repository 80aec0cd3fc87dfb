use cloud_metadata::digitalocean::{DOMetadata, Interface, Interfaces, IP};
use cloud_metadata::fly::{
    fly_metadata, metadata_for_instance, unique_instance, FlyError, FlyRegion, Instance,
};
use cloud_metadata::gcp::{AccessConfig, GCPMetadata, Interfaces as GcpInterfaces};
use cloud_metadata::kind::kind_metadata;
use cloud_metadata::metadata::{Metadata, Region};

fn ip(address: &str) -> IP {
    IP {
        address: address.to_string(),
        netmask: "255.255.240.0".to_string(),
        gateway: "10.0.0.1".to_string(),
        cidr: 20,
    }
}

fn iface(v4: &str, kind: &str) -> Interface {
    Interface {
        ipv4: ip(v4),
        ipv6: ip("::1"),
        addr_type: kind.to_string(),
        mac: "aa:bb:cc:dd:ee:ff".to_string(),
    }
}

#[test]
fn digitalocean_uses_first_public_and_private_addresses() {
    let meta = DOMetadata {
        region: "nyc3".to_string(),
        id: "123456".to_string(),
        interfaces: Interfaces {
            public: vec![iface("203.0.113.5", "public"), iface("203.0.113.6", "public")],
            private: vec![iface("10.1.2.3", "private")],
        },
    };
    let m = Metadata::from_digitalocean(meta);
    assert_eq!(m.id, "123456");
    assert_eq!(m.region.name, "nyc3");
    assert_eq!(m.region.code.as_deref(), Some("nyc3"));
    assert_eq!(m.region.city, None);
    assert_eq!(m.public_ip.as_deref(), Some("203.0.113.5"));
    assert_eq!(m.private_ip, "10.1.2.3");
}

#[test]
fn gcp_region_is_last_piece_of_zone() {
    let meta = GCPMetadata {
        zone: "projects/1234/zones/us-central1-a".to_string(),
        name: "web-1".to_string(),
        interfaces: vec![GcpInterfaces {
            access_configs: vec![AccessConfig { external_ip: "34.1.2.3".to_string() }],
            ip: "10.128.0.2".to_string(),
        }],
    };
    let m = Metadata::from_gcp(meta);
    assert_eq!(m.id, "web-1");
    assert_eq!(m.region.name, "us-central1-a");
    assert_eq!(m.region.code.as_deref(), Some("us-central1-a"));
    assert_eq!(m.region.city, None);
    assert_eq!(m.public_ip.as_deref(), Some("34.1.2.3"));
    assert_eq!(m.private_ip, "10.128.0.2");
}

#[test]
fn gcp_without_interfaces_has_no_addresses() {
    let meta = GCPMetadata { zone: "zone-without-slash".to_string(), name: "n".to_string(), interfaces: vec![] };
    let m = Metadata::from_gcp(meta);
    assert_eq!(m.region.name, "zone-without-slash");
    assert_eq!(m.public_ip, None);
    assert_eq!(m.private_ip, "");
}

#[test]
fn gcp_interface_without_access_config_has_no_public_address() {
    let meta = GCPMetadata {
        zone: "projects/1/zones/".to_string(),
        name: "n".to_string(),
        interfaces: vec![GcpInterfaces { access_configs: vec![], ip: "10.0.0.9".to_string() }],
    };
    let m = Metadata::from_gcp(meta);
    assert_eq!(m.region.name, "");
    assert_eq!(m.public_ip, None);
    assert_eq!(m.private_ip, "10.0.0.9");
}

fn instance(id: &str, ip: &str, region: &str) -> Instance {
    Instance { id: id.to_string(), private_ip: ip.to_string(), region: region.to_string() }
}

#[test]
fn fly_metadata_of_the_one_matching_instance() {
    let instances = vec![
        instance("148e21dad76789", "fdaa::2", "sea"),
        instance("4d89699c030518", "fdaa::3", "ord"),
    ];
    let m = fly_metadata(&"4d89699c030518".to_string(), &instances).ok().unwrap();
    assert_eq!(m.id, "4d89699c030518");
    assert_eq!(m.private_ip, "fdaa::3");
    assert_eq!(m.public_ip, None);
    assert_eq!(m.region.name, "Chicago, Illinois (US)");
    assert_eq!(m.region.code.as_deref(), Some("ord"));
    assert_eq!(m.region.city.as_deref(), Some("Chicago (US)"));
}

#[test]
fn fly_metadata_needs_exactly_one_match() {
    let none = vec![instance("a", "fdaa::2", "sea")];
    let e = fly_metadata(&"b".to_string(), &none).err().unwrap();
    assert!(matches!(e, FlyError::NoUniqueInstance));
    assert_eq!(e.message(), "somehow ended up finding more than one or 0 matches");
    let two = vec![instance("b", "fdaa::2", "sea"), instance("b", "fdaa::3", "ams")];
    assert!(matches!(fly_metadata(&"b".to_string(), &two), Err(FlyError::NoUniqueInstance)));
}

#[test]
fn fly_metadata_needs_a_known_region() {
    let instances = vec![instance("b", "fdaa::2", "zzz")];
    let e = fly_metadata(&"b".to_string(), &instances).err().unwrap();
    assert!(matches!(e, FlyError::UnknownRegion));
    assert_eq!(e.message(), "failed to get region");
}

#[test]
fn kind_metadata_uses_host_ip_or_empty() {
    let m = kind_metadata("node-1".to_string(), Some("172.18.0.2".to_string()));
    assert_eq!(m.id, "node-1");
    assert_eq!(m.region.name, "kind");
    assert_eq!(m.region.code.as_deref(), Some("kind"));
    assert_eq!(m.region.city, None);
    assert_eq!(m.public_ip, None);
    assert_eq!(m.private_ip, "172.18.0.2");
    let m = kind_metadata("node-2".to_string(), None);
    assert_eq!(m.private_ip, "");
}

#[test]
fn region_code_or_empty() {
    let r = Region { name: "x".to_string(), code: Some("iad".to_string()), city: None };
    assert_eq!(r.code_or_empty(), "iad");
    let r = Region { name: "x".to_string(), code: None, city: None };
    assert_eq!(r.code_or_empty(), "");
}

#[test]
fn fly_record_from_region_details() {
    let inst = instance("m1", "fdaa::7", "xyz");
    let region = FlyRegion {
        code: "xyz".to_string(),
        name: "Somewhere, Far".to_string(),
        city: "Somewhere".to_string(),
        country: "FR".to_string(),
    };
    let m = metadata_for_instance(&"m1".to_string(), &inst, Some(region)).ok().unwrap();
    assert_eq!(m.region.city.as_deref(), Some("Somewhere (FR)"));
    assert_eq!(m.region.name, "Somewhere, Far");
    assert_eq!(m.region.code.as_deref(), Some("xyz"));
    assert!(matches!(metadata_for_instance(&"m1".to_string(), &inst, None), Err(FlyError::UnknownRegion)));
    let list = vec![instance("a", "1", "ams"), instance("m1", "2", "ams"), instance("c", "3", "ams")];
    assert!(matches!(unique_instance(&"m1".to_string(), &list), Ok(1)));
}
