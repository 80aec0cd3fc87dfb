//! Metadata of a Fly.io machine, from the instances that Fly's internal DNS lists.
use vstd::prelude::*;
use vstd::string::*;
use crate::metadata::{Metadata, MetadataView, Region, RegionView};

verus! {

/// A machine that `_instances.internal` lists: its id, its private address
/// and the code of its region.
pub struct Instance {
    pub id: String,
    pub private_ip: String,
    pub region: String,
}

/// What flytrap knows of a Fly.io region: its code, its name, and the city
/// and country where it is.
pub struct FlyRegion {
    pub code: String,
    pub name: String,
    pub city: String,
    pub country: String,
}

/// Why no metadata record could be made.
pub enum FlyError {
    /// Not exactly one instance has the machine's host name as id.
    NoUniqueInstance,
    /// flytrap does not know the instance's region.
    UnknownRegion,
}

impl FlyError {
    /// The text of the error.
    pub open spec fn text(&self) -> Seq<char> {
        match self {
            FlyError::NoUniqueInstance => "somehow ended up finding more than one or 0 matches"@,
            FlyError::UnknownRegion => "failed to get region"@,
        }
    }

    /// The text of the error.
    pub fn message(&self) -> (s: String)
        ensures
            s@ == self.text(),
    {
        match self {
            FlyError::NoUniqueInstance => "somehow ended up finding more than one or 0 matches".to_owned(),
            FlyError::UnknownRegion => "failed to get region".to_owned(),
        }
    }
}

/// The texts of a region's details: code, name, city, country.
pub open spec fn fly_region_text(r: Option<FlyRegion>) -> Option<(Seq<char>, Seq<char>, Seq<char>, Seq<char>)> {
    match r {
        Some(x) => Some((x.code@, x.name@, x.city@, x.country@)),
        None => None,
    }
}

/// The details (code, name, city, country) of the region with code `code` in
/// flytrap's table of regions, or `None` when flytrap does not know the code.
pub uninterp spec fn flytrap_region(code: Seq<char>) -> Option<(Seq<char>, Seq<char>, Seq<char>, Seq<char>)>;

/// Looks a region code up with flytrap (`str::parse::<flytrap::Region>` and
/// the region's details). The contract states that the result is flytrap's
/// entry for the code and, as flytrap's source shows (each code parses to the
/// region whose details carry that code), that a found region has that code.
#[verifier::external_body]
fn lookup_region(code: &str) -> (r: Option<FlyRegion>)
    ensures
        fly_region_text(r) == flytrap_region(code@),
        r matches Some(x) ==> x.code@ == code@,
{
    match code.parse::<flytrap::Region>() {
        Ok(region) => {
            let d = region.details();
            let (city, country) = (d.city.name.to_string(), d.city.country.to_string());
            Some(FlyRegion { code: d.code.to_string(), name: d.name.to_string(), city, country })
        },
        Err(_) => None,
    }
}

/// How many instances have id `host`.
pub open spec fn host_count(s: Seq<Instance>, host: Seq<char>) -> nat
    decreases s.len(),
{
    if s.len() == 0 {
        0
    } else {
        host_count(s.drop_last(), host) + if s.last().id@ == host {
            1nat
        } else {
            0nat
        }
    }
}

/// The city of a region as the record shows it: `city (country)`.
pub open spec fn city_text(city: Seq<char>, country: Seq<char>) -> Seq<char> {
    city + " ("@ + country + ")"@
}

/// The record of the machine `host` running as `inst` in the region whose
/// details flytrap gave as `region`.
pub open spec fn fly_metadata_spec(
    host: Seq<char>,
    inst: Instance,
    region: Option<(Seq<char>, Seq<char>, Seq<char>, Seq<char>)>,
) -> Result<MetadataView, FlyError> {
    match region {
        None => Err(FlyError::UnknownRegion),
        Some((code, name, city, country)) => Ok(
            MetadataView {
                region: RegionView {
                    city: Some(city_text(city, country)),
                    code: Some(code),
                    name: name,
                },
                public_ip: None,
                private_ip: inst.private_ip@,
                id: host,
            },
        ),
    }
}

/// A Fly machine's record: with the region's details from flytrap, the
/// machine's host name as id, the instance's private address, no public
/// address, and the region's code, name and `city (country)`; without them,
/// the unknown-region error.
pub proof fn lemma_fly_record(
    host: Seq<char>,
    inst: Instance,
    code: Seq<char>,
    name: Seq<char>,
    city: Seq<char>,
    country: Seq<char>,
)
    ensures
        fly_metadata_spec(host, inst, None) == Err::<MetadataView, FlyError>(FlyError::UnknownRegion),
        fly_metadata_spec(host, inst, Some((code, name, city, country))) matches Ok(m) && {
            &&& m.id == host
            &&& m.private_ip == inst.private_ip@
            &&& m.public_ip is None
            &&& m.region.code == Some(code)
            &&& m.region.name == name
            &&& m.region.city == Some(city + " ("@ + country + ")"@)
        },
{
}

/// No instance has id `host` exactly when none is counted; an instance with
/// that id is counted at least once; and no more are counted than listed.
pub proof fn lemma_host_count(s: Seq<Instance>, host: Seq<char>)
    ensures
        host_count(s, host) <= s.len(),
        host_count(s, host) == 0 <==> forall|i: int| 0 <= i < s.len() ==> (#[trigger] s[i]).id@ != host,
    decreases s.len(),
{
    if s.len() > 0 {
        let t = s.drop_last();
        lemma_host_count(t, host);
        assert forall|i: int| 0 <= i < t.len() implies #[trigger] t[i] == s[i] by {}
        if host_count(s, host) == 0 {
            assert forall|i: int| 0 <= i < s.len() implies (#[trigger] s[i]).id@ != host by {
                if i < t.len() {
                    assert(t[i] == s[i]);
                }
            }
        } else {
            if s.last().id@ != host {
                let i = choose|i: int| 0 <= i < t.len() && (#[trigger] t[i]).id@ == host;
                assert(s[i] == t[i]);
            }
        }
    }
}

/// The text of a result of [`metadata_for_instance`].
pub open spec fn result_text(r: Result<Metadata, FlyError>) -> Result<MetadataView, FlyError> {
    match r {
        Ok(m) => Ok(m@),
        Err(e) => Err(e),
    }
}

/// The record of the machine `hostname` running as `inst` in the region whose
/// details are `region`: no public address, the instance's private address,
/// and the region's name, code and `city (country)`.
pub fn metadata_for_instance(hostname: &String, inst: &Instance, region: Option<FlyRegion>) -> (r:
    Result<Metadata, FlyError>)
    ensures
        result_text(r) == fly_metadata_spec(hostname@, *inst, fly_region_text(region)),
{
    match region {
        None => Err(FlyError::UnknownRegion),
        Some(reg) => {
            let city = reg.city.concat(" (").concat(reg.country.as_str()).concat(")");
            Ok(
                Metadata {
                    region: Region { city: Some(city), code: Some(reg.code), name: reg.name },
                    public_ip: None,
                    private_ip: inst.private_ip.clone(),
                    id: hostname.clone(),
                },
            )
        },
    }
}

/// The position of the one instance with id `hostname`, or an error when
/// there is not exactly one.
pub fn unique_instance(hostname: &String, instances: &Vec<Instance>) -> (r: Result<usize, FlyError>)
    ensures
        r is Err <==> host_count(instances@, hostname@) != 1,
        r is Err ==> r == Err::<usize, FlyError>(FlyError::NoUniqueInstance),
        r matches Ok(i) ==> i < instances@.len() && instances@[i as int].id@ == hostname@,
{
    let mut count: usize = 0;
    let mut found: usize = 0;
    let mut i: usize = 0;
    while i < instances.len()
        invariant
            i <= instances@.len(),
            count == host_count(instances@.take(i as int), hostname@),
            count <= i,
            count > 0 ==> found < i && instances@[found as int].id@ == hostname@,
        decreases instances.len() - i,
    {
        assert(instances@.take(i + 1).drop_last() =~= instances@.take(i as int));
        if instances[i].id == *hostname {
            count = count + 1;
            found = i;
        }
        i = i + 1;
    }
    assert(instances@.take(instances@.len() as int) =~= instances@);
    if count != 1 {
        Err(FlyError::NoUniqueInstance)
    } else {
        Ok(found)
    }
}

/// The record of the machine `hostname`, from the instances that Fly's DNS
/// lists: the one instance with that id, in its region as flytrap knows it.
pub fn fly_metadata(hostname: &String, instances: &Vec<Instance>) -> (r: Result<Metadata, FlyError>)
    ensures
        host_count(instances@, hostname@) != 1 ==> r == Err::<Metadata, FlyError>(
            FlyError::NoUniqueInstance,
        ),
        host_count(instances@, hostname@) == 1 ==> exists|i: int|
            0 <= i < instances@.len() && instances@[i].id@ == hostname@ && result_text(r)
                == fly_metadata_spec(hostname@, instances@[i], flytrap_region(instances@[i].region@)),
{
    match unique_instance(hostname, instances) {
        Err(e) => Err(e),
        Ok(i) => {
            let inst = &instances[i];
            let region = lookup_region(inst.region.as_str());
            let r = metadata_for_instance(hostname, inst, region);
            assert(instances@[i as int].id@ == hostname@);
            r
        },
    }
}

} // verus!
