//! The persisted remap document: every device's remapped mappings under a schema version. The
//! rules of reading and writing it live here; the bytes on disk are handled by the caller.
use vstd::prelude::*;
use crate::input_map::binding::{fault, MapError};
use crate::input_map::contract::{maps_view, Mapping, MappingView};
use crate::input_map::effective::{copy_mappings, devices_view, distinct_devices, find_device, put_device};
use crate::keyed::{keys_distinct, lookup, stored_with};
use crate::text::string_of;

verus! {

/// The schema version of the remap document this library reads and writes.
pub const REMAP_SCHEMA_VERSION: u32 = 1;

/// The remap document: its schema version and each device's saved mappings.
#[derive(Clone, Debug, PartialEq, Eq)]
pub struct PersistedDocument {
    pub schema_version: u32,
    pub devices: Vec<(String, Vec<Mapping>)>,
}

impl PersistedDocument {
    /// The devices' saved mappings as plain values.
    pub open spec fn saved(&self) -> Seq<(Seq<char>, Seq<MappingView>)> {
        devices_view(self.devices@)
    }

    /// A fresh document of the current schema with nothing saved.
    pub fn empty() -> (d: PersistedDocument)
        ensures
            d.schema_version == REMAP_SCHEMA_VERSION,
            d.saved() == Seq::<(Seq<char>, Seq<MappingView>)>::empty(),
    {
        let d = PersistedDocument { schema_version: REMAP_SCHEMA_VERSION, devices: Vec::new() };
        assert(d.saved() =~= Seq::<(Seq<char>, Seq<MappingView>)>::empty());
        d
    }

    /// The mappings saved for `device_id`. A document of another schema version is refused;
    /// one that names a device twice is malformed.
    pub fn mappings_for(&self, device_id: &str) -> (r: Result<Option<Vec<Mapping>>, MapError>)
        ensures
            self.schema_version != REMAP_SCHEMA_VERSION ==> (r matches Err(e) && e@ == fault(
                8,
                "unsupported schema version"@,
            )),
            self.schema_version == REMAP_SCHEMA_VERSION && !keys_distinct(self.saved()) ==> (r matches Err(e) && e@
                == fault(8, "duplicate device entry"@)),
            self.schema_version == REMAP_SCHEMA_VERSION && keys_distinct(self.saved()) ==> match lookup(
                self.saved(),
                device_id@,
            ) {
                Some(ms) => r matches Ok(Some(v)) && maps_view(v@) == ms,
                None => r == Ok::<Option<Vec<Mapping>>, MapError>(None),
            },
    {
        if self.schema_version != REMAP_SCHEMA_VERSION {
            return Err(MapError::Persistence(string_of("unsupported schema version")));
        }
        if !distinct_devices(&self.devices) {
            return Err(MapError::Persistence(string_of("duplicate device entry")));
        }
        match find_device(&self.devices, device_id) {
            Some(i) => Ok(Some(copy_mappings(self.devices[i].1.as_slice()))),
            None => Ok(None),
        }
    }

    /// Save `mappings` for `device_id`. A document written by a newer schema is refused and
    /// left as it was; an older one is brought to the current schema.
    pub fn with_device(&mut self, device_id: &str, mappings: &[Mapping]) -> (r: Result<(), MapError>)
        ensures
            old(self).schema_version > REMAP_SCHEMA_VERSION ==> (r matches Err(MapError::UnsupportedVersion { found, supported })
                && found == old(self).schema_version && supported == REMAP_SCHEMA_VERSION && *final(self) == *old(self)),
            old(self).schema_version <= REMAP_SCHEMA_VERSION && !keys_distinct(old(self).saved()) ==> (r matches Err(e)
                && e@ == fault(8, "duplicate device entry"@) && *final(self) == *old(self)),
            old(self).schema_version <= REMAP_SCHEMA_VERSION && keys_distinct(old(self).saved()) ==> r is Ok
                && final(self).schema_version == REMAP_SCHEMA_VERSION && keys_distinct(final(self).saved())
                && final(self).saved() == stored_with(old(self).saved(), device_id@, maps_view(mappings@)),
    {
        if self.schema_version > REMAP_SCHEMA_VERSION {
            return Err(MapError::UnsupportedVersion { found: self.schema_version, supported: REMAP_SCHEMA_VERSION });
        }
        if !distinct_devices(&self.devices) {
            return Err(MapError::Persistence(string_of("duplicate device entry")));
        }
        self.schema_version = REMAP_SCHEMA_VERSION;
        put_device(&mut self.devices, device_id, mappings);
        Ok(())
    }
}

/// What a save writes is what a later load reads back for that device, and every other
/// device's saved mappings are kept.
pub proof fn law_load_after_save(
    saved: Seq<(Seq<char>, Seq<MappingView>)>,
    device_id: Seq<char>,
    mappings: Seq<MappingView>,
    other: Seq<char>,
)
    requires
        keys_distinct(saved),
    ensures
        lookup(stored_with(saved, device_id, mappings), device_id) == Some(mappings),
        other != device_id ==> lookup(stored_with(saved, device_id, mappings), other) == lookup(saved, other),
{
    crate::keyed::law_read_after_store(saved, device_id, mappings, other);
}

} // verus!
