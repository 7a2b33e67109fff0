//! Loading the migration configuration: a textual document listing, for
//! each selected migration, its registered name and the metadata that
//! overrides the registry default. Unknown names fail the load; migrations
//! not selected stay out of the set (regular registry entries can instead
//! be enabled wholesale).

use crate::migration::{clone_inner, InnerMigration, Metadata, Migration, MigrationSet,
    MigrationType, Status};
use vstd::prelude::*;

verus! {

#[verifier::external_type_specification]
#[verifier::external_body]
pub struct ExJsonValue(serde_json::Value);

/// Relies on `serde_json::from_str`: parses a JSON document into a value,
/// failing on malformed text.
#[verifier::external_body]
fn json_parse(data: &str) -> (r: Option<serde_json::Value>)
{
    serde_json::from_str(data).ok()
}

/// Relies on `serde_json::Value::as_array`: the element list when the value
/// is an array.
#[verifier::external_body]
fn json_as_array(v: &serde_json::Value) -> (r: Option<&Vec<serde_json::Value>>)
{
    v.as_array()
}

/// Relies on `serde_json::Value::get`: the member of an object under a
/// name.
#[verifier::external_body]
fn json_get<'a>(v: &'a serde_json::Value, key: &str) -> (r: Option<&'a serde_json::Value>)
{
    v.get(key)
}

/// Relies on `serde_json::Value::as_u64`: the value when it is an unsigned
/// integer.
#[verifier::external_body]
fn json_as_u64(v: &serde_json::Value) -> (r: Option<u64>)
{
    v.as_u64()
}

/// Relies on `serde_json::Value::as_str`: the owned text when the value is
/// a string.
#[verifier::external_body]
fn json_as_string(v: &serde_json::Value) -> (r: Option<String>)
{
    v.as_str().map(|s| s.to_owned())
}

/// Looks a name up in the registry.
fn find_in_registry<'a>(registry: &'a Vec<InnerMigration>, name: &String) -> (r: Option<
    &'a InnerMigration,
>)
    ensures
        r matches Some(m) ==> (exists|i: int|
            0 <= i < registry@.len() && #[trigger] registry@[i] == m && m.name@ == name@),
        r is None ==> (forall|i: int|
            0 <= i < registry@.len() ==> (#[trigger] registry@[i]).name@ != name@),
{
    let n = registry.len();
    let mut i: usize = 0;
    while i < n
        invariant
            i <= n,
            n == registry@.len(),
            forall|j: int| 0 <= j < i ==> (#[trigger] registry@[j]).name@ != name@,
        decreases n - i,
    {
        if *registry[i].name() == *name {
            assert(registry@[i as int].name@ == name@);
            return Some(&registry[i]);
        }
        assert(registry@[i as int].name@ != name@);
        i = i + 1;
    }
    None
}

/// A name that some registry entry carries.
pub open spec fn spec_name_registered(registry: Seq<InnerMigration>, nm: Seq<char>) -> bool {
    exists|j: int| 0 <= j < registry.len() && (#[trigger] registry[j]).name@ == nm
}

/// One selected migration, as plain values: its registered name and the
/// metadata overriding the registry default.
pub struct ConfigEntry {
    pub name: String,
    pub block_height: u64,
    pub issue: Option<String>,
}

/// Loads a migration configuration given as plain entries. Succeeds exactly
/// when every selected name is registered; the result then holds exactly
/// the selected migrations, in order, each enabled and bound to its
/// configured height.
pub fn load_migrations_from_entries(registry: &Vec<InnerMigration>, entries: &Vec<ConfigEntry>)
    -> (r: Result<MigrationSet, String>)
    ensures
        r is Ok <==> (forall|i: int|
            0 <= i < entries@.len() ==> spec_name_registered(
                registry@,
                (#[trigger] entries@[i]).name@,
            )),
        r matches Ok(ms) ==> {
            &&& ms.height == 0
            &&& ms.migrations@.len() == entries@.len()
            &&& (forall|i: int|
                0 <= i < entries@.len() ==> {
                    &&& (#[trigger] ms.migrations@[i]).status == Status::Enabled
                    &&& ms.migrations@[i].migration.name@ == entries@[i].name@
                    &&& ms.migrations@[i].metadata.block_height == entries@[i].block_height
                    &&& (exists|j: int|
                        0 <= j < registry@.len() && crate::migration::inner_view(
                            ms.migrations@[i].migration,
                        ) == crate::migration::inner_view(#[trigger] registry@[j]))
                })
        },
{
    let mut migrations: Vec<Migration> = Vec::new();
    let n = entries.len();
    let mut i: usize = 0;
    while i < n
        invariant
            i <= n,
            n == entries@.len(),
            migrations@.len() == i,
            forall|t: int|
                0 <= t < i ==> {
                    &&& (#[trigger] migrations@[t]).status == Status::Enabled
                    &&& migrations@[t].migration.name@ == entries@[t].name@
                    &&& migrations@[t].metadata.block_height == entries@[t].block_height
                    &&& (exists|j: int|
                        0 <= j < registry@.len() && crate::migration::inner_view(
                            migrations@[t].migration,
                        ) == crate::migration::inner_view(#[trigger] registry@[j]))
                },
            forall|t: int|
                0 <= t < i ==> spec_name_registered(registry@, (#[trigger] entries@[t]).name@),
        decreases n - i,
    {
        let entry = &entries[i];
        let inner = match find_in_registry(registry, &entry.name) {
            Some(m) => {
                let c = clone_inner(m);
                proof {
                    assert(c.name@ == m.name@);
                    assert(spec_name_registered(registry@, entries@[i as int].name@));
                }
                c
            },
            None => {
                proof {
                    assert(forall|j: int|
                        0 <= j < registry@.len() ==> (#[trigger] registry@[j]).name@
                            != entries@[i as int].name@);
                    assert(!spec_name_registered(registry@, entries@[i as int].name@));
                    assert(!(forall|t: int|
                        0 <= t < entries@.len() ==> spec_name_registered(
                            registry@,
                            (#[trigger] entries@[t]).name@,
                        )));
                }
                let mut msg = String::new();
                msg.append("unsupported migration type ");
                msg.append(entry.name.as_str());
                return Err(msg);
            },
        };
        let ghost inner_g = inner;
        let issue = match &entry.issue {
            Some(t) => Some(t.clone()),
            None => None,
        };
        migrations.push(
            Migration::new(
                inner,
                Metadata { block_height: entry.block_height, issue },
                Status::Enabled,
            ),
        );
        proof {
            let t = migrations@.len() - 1;
            assert(migrations@[t].migration == inner_g);
        }
        i = i + 1;
    }
    Ok(MigrationSet { migrations, height: 0 })
}

/// Loads a migration configuration from its textual document: the document
/// is parsed into plain entries, which are then loaded against the
/// registry. A malformed document or an unregistered name fails the load.
pub fn load_migrations(registry: &Vec<InnerMigration>, data: &str) -> (r: Result<
    MigrationSet,
    String,
>)
    ensures
        r matches Ok(ms) ==> {
            &&& ms.height == 0
            &&& forall|i: int|
                0 <= i < ms.migrations@.len() ==> (#[trigger] ms.migrations@[i]).status
                    == Status::Enabled
            &&& forall|i: int|
                0 <= i < ms.migrations@.len() ==> (exists|j: int|
                    0 <= j < registry@.len() && (#[trigger] ms.migrations@[i]).migration.name@ == (
                    #[trigger] registry@[j]).name@)
        },
{
    let parsed = match json_parse(data) {
        Some(v) => v,
        None => {
            return Err(String::new());
        },
    };
    let raw_entries = match json_as_array(&parsed) {
        Some(a) => a,
        None => {
            return Err(String::new());
        },
    };
    let mut entries: Vec<ConfigEntry> = Vec::new();
    let n = raw_entries.len();
    let mut i: usize = 0;
    while i < n
        invariant
            i <= n,
            n == raw_entries@.len(),
        decreases n - i,
    {
        let entry = &raw_entries[i];
        let name = match json_get(entry, "type") {
            Some(v) => match json_as_string(v) {
                Some(s) => s,
                None => {
                    return Err(String::new());
                },
            },
            None => {
                return Err(String::new());
            },
        };
        let block_height = match json_get(entry, "block_height") {
            Some(v) => match json_as_u64(v) {
                Some(h) => h,
                None => {
                    return Err(String::new());
                },
            },
            None => {
                return Err(String::new());
            },
        };
        let issue = match json_get(entry, "issue") {
            Some(v) => json_as_string(v),
            None => None,
        };
        entries.push(ConfigEntry { name, block_height, issue });
        i = i + 1;
    }
    let r = load_migrations_from_entries(registry, &entries);
    match r {
        Ok(ms) => {
            proof {
                assert forall|t: int|
                    0 <= t < ms.migrations@.len() implies (exists|j: int|
                    0 <= j < registry@.len() && (#[trigger] ms.migrations@[t]).migration.name@ == (
                    #[trigger] registry@[j]).name@) by {
                    let j0 = choose|j: int|
                        0 <= j < registry@.len() && crate::migration::inner_view(
                            ms.migrations@[t].migration,
                        ) == crate::migration::inner_view(#[trigger] registry@[j]);
                    assert(ms.migrations@[t].migration.name@ == registry@[j0].name@);
                }
            }
            Ok(ms)
        },
        Err(e) => Err(e),
    }
}

/// Enables every regular migration of the registry at the default height;
/// hotfixes stay disabled.
pub fn load_enable_all_regular_migrations(registry: &Vec<InnerMigration>) -> (r: MigrationSet)
    ensures
        r.height == 0,
        r.migrations@.len() == registry@.len(),
        forall|i: int|
            0 <= i < registry@.len() ==> (#[trigger] r.migrations@[i]).status == (match (
            registry@[i]).kind {
                MigrationType::Regular(_) => Status::Enabled,
                MigrationType::Hotfix(_) => Status::Disabled,
            }),
        forall|i: int|
            0 <= i < registry@.len() ==> crate::migration::inner_view(
                (#[trigger] r.migrations@[i]).migration,
            ) == crate::migration::inner_view(registry@[i]),
        forall|i: int|
            0 <= i < registry@.len() ==> (#[trigger] r.migrations@[i]).metadata.block_height == 1,
        forall|i: int|
            0 <= i < registry@.len() ==> (#[trigger] r.migrations@[i]).metadata.issue is None,
{
    let n = registry.len();
    let mut migrations: Vec<Migration> = Vec::new();
    let mut i: usize = 0;
    while i < n
        invariant
            i <= n,
            n == registry@.len(),
            migrations@.len() == i,
            forall|t: int|
                0 <= t < i ==> (#[trigger] migrations@[t]).status == (match registry@[t].kind {
                    MigrationType::Regular(_) => Status::Enabled,
                    MigrationType::Hotfix(_) => Status::Disabled,
                }),
            forall|t: int|
                0 <= t < i ==> crate::migration::inner_view(
                    (#[trigger] migrations@[t]).migration,
                ) == crate::migration::inner_view(registry@[t]),
            forall|t: int| 0 <= t < i ==> (#[trigger] migrations@[t]).metadata.block_height == 1,
            forall|t: int| 0 <= t < i ==> (#[trigger] migrations@[t]).metadata.issue is None,
        decreases n - i,
    {
        let status = match &registry[i].kind {
            MigrationType::Regular(_) => Status::Enabled,
            MigrationType::Hotfix(_) => Status::Disabled,
        };
        let inner = clone_inner(&registry[i]);
        migrations.push(Migration::new(inner, Metadata::default(), status));
        i = i + 1;
    }
    MigrationSet { migrations, height: 0 }
}

} // verus!
