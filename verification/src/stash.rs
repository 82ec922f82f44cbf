//! Migration of stored catalog items from one wire version to the next.
//!
//! The older version keeps an item's definition nested inside an optional
//! tagged wrapper; the newer version stores the creation statement as a
//! plain field. The migration rewrites every stored `(key, value)` pair in
//! place, converting the value and carrying the key over unchanged. The
//! smaller identifier types did not change shape between the versions, so
//! one set of them serves both sides here.

use crate::ids::GlobalId;
use vstd::prelude::*;

verus! {

/// The key of a stored catalog item.
#[derive(Clone, Copy, Debug, PartialEq, Eq, Structural)]
pub struct ItemKey {
    /// The item's identifier.
    pub gid: Option<GlobalId>,
}

/// A schema identifier.
#[derive(Clone, Copy, Debug, PartialEq, Eq, Structural)]
pub enum SchemaIdValue {
    /// In the system namespace.
    System(u64),
    /// In the user namespace.
    User(u64),
}

/// An optional schema identifier, as stored.
#[derive(Clone, Copy, Debug, PartialEq, Eq, Structural)]
pub struct SchemaId {
    /// The identifier, if set.
    pub value: Option<SchemaIdValue>,
}

/// A role identifier.
#[derive(Clone, Copy, Debug, PartialEq, Eq, Structural)]
pub enum RoleIdValue {
    /// In the system namespace.
    System(u64),
    /// In the user namespace.
    User(u64),
    /// The public pseudo-role.
    Public,
}

/// An optional role identifier, as stored.
#[derive(Clone, Copy, Debug, PartialEq, Eq, Structural)]
pub struct RoleId {
    /// The identifier, if set.
    pub value: Option<RoleIdValue>,
}

/// A bitset of privileges.
#[derive(Clone, Copy, Debug, PartialEq, Eq, Structural)]
pub struct AclMode {
    /// The privilege bits.
    pub bitflags: u64,
}

/// One granted privilege.
#[derive(Clone, Copy, Debug, PartialEq, Eq, Structural)]
pub struct MzAclItem {
    /// Who holds the privilege.
    pub grantee: Option<RoleId>,
    /// Who granted it.
    pub grantor: Option<RoleId>,
    /// What was granted.
    pub acl_mode: Option<AclMode>,
}

/// The first shape of a stored item definition.
#[derive(Clone, Debug)]
pub struct CatalogItemV1 {
    /// The statement that creates the item.
    pub create_sql: String,
}

/// The tagged union of stored item definitions.
#[derive(Clone, Debug)]
pub enum CatalogItemValue {
    /// The only shape so far.
    V1(CatalogItemV1),
}

/// A stored item definition, as the older version wraps it.
#[derive(Clone, Debug)]
pub struct CatalogItem {
    /// The definition, if set.
    pub value: Option<CatalogItemValue>,
}

/// A stored catalog item value in the older shape.
#[derive(Clone, Debug)]
pub struct ItemValueV36 {
    /// The schema holding the item.
    pub schema_id: Option<SchemaId>,
    /// The item's name.
    pub name: String,
    /// The item's wrapped definition.
    pub definition: Option<CatalogItem>,
    /// The item's owner.
    pub owner_id: Option<RoleId>,
    /// The privileges granted on the item.
    pub privileges: Vec<MzAclItem>,
}

/// A stored catalog item value in the newer shape: the creation statement
/// is a plain field.
#[derive(Clone, Debug)]
pub struct ItemValueV37 {
    /// The schema holding the item.
    pub schema_id: Option<SchemaId>,
    /// The item's name.
    pub name: String,
    /// The statement that creates the item.
    pub create_sql: String,
    /// The item's owner.
    pub owner_id: Option<RoleId>,
    /// The privileges granted on the item.
    pub privileges: Vec<MzAclItem>,
}

/// Whether an older value carries a definition to unwrap.
pub open spec fn has_definition(v: ItemValueV36) -> bool {
    v.definition matches Some(d) && d.value is Some
}

/// The creation statement inside an older value's wrapped definition.
pub open spec fn definition_sql(v: ItemValueV36) -> Seq<char> {
    match v.definition {
        Some(d) => match d.value {
            Some(CatalogItemValue::V1(c)) => c.create_sql@,
            None => Seq::empty(),
        },
        None => Seq::empty(),
    }
}

/// Copy a privilege list.
fn clone_privileges(ps: &Vec<MzAclItem>) -> (r: Vec<MzAclItem>)
    ensures
        r@ == ps@,
{
    let mut r: Vec<MzAclItem> = Vec::new();
    let mut i: usize = 0;
    while i < ps.len()
        invariant
            i <= ps@.len(),
            r@ =~= ps@.take(i as int),
        decreases ps@.len() - i,
    {
        r.push(ps[i]);
        i = i + 1;
        proof {
            assert(r@ =~= ps@.take(i as int));
        }
    }
    proof {
        assert(ps@.take(ps@.len() as int) =~= ps@);
    }
    r
}

impl ItemValueV37 {
    /// Convert an older value: the wrapped definition is unwrapped into the
    /// plain creation statement, everything else is carried over.
    pub fn from(value: &ItemValueV36) -> (r: ItemValueV37)
        requires
            has_definition(*value),
        ensures
            r.schema_id == value.schema_id,
            r.name@ == value.name@,
            r.create_sql@ == definition_sql(*value),
            r.owner_id == value.owner_id,
            r.privileges@ == value.privileges@,
    {
        let create_sql = match &value.definition {
            Some(d) => match &d.value {
                Some(CatalogItemValue::V1(c)) => c.create_sql.clone(),
                None => String::new(),
            },
            None => String::new(),
        };
        ItemValueV37 {
            schema_id: value.schema_id,
            name: value.name.clone(),
            create_sql,
            owner_id: value.owner_id,
            privileges: clone_privileges(&value.privileges),
        }
    }
}

/// One rewrite of the stored collection.
#[derive(Debug)]
pub enum MigrationAction {
    /// Add a new `(key, value)` pair.
    Insert(ItemKey, ItemValueV37),
    /// Replace the value stored at the key.
    Update(ItemKey, (ItemKey, ItemValueV37)),
    /// Remove the pair stored at the key.
    Delete(ItemKey),
}

/// A stored value the migration cannot unwrap.
#[derive(Clone, Copy, Debug, PartialEq, Eq, Structural)]
pub enum UpgradeError {
    /// An item value carries no definition.
    MissingDefinition,
}

/// Compute the migration of the stored items: every `(key, value)` pair
/// becomes an update that keeps the key and converts the value to the
/// newer shape. A value without a definition is a defect in the stored
/// data and fails the whole migration.
pub fn upgrade(entries: &Vec<(ItemKey, ItemValueV36)>) -> (r: Result<
    Vec<MigrationAction>,
    UpgradeError,
>)
    ensures
        match r {
            Ok(actions) => {
                &&& forall|i: int| 0 <= i < entries@.len() ==> has_definition((#[trigger] entries@[i]).1)
                &&& actions@.len() == entries@.len()
                &&& forall|i: int|
                    0 <= i < entries@.len() ==> ((#[trigger] actions@[i]) matches
                    MigrationAction::Update(k, kv) && k == entries@[i].0 && kv.0 == entries@[i].0
                        && kv.1.schema_id == entries@[i].1.schema_id && kv.1.name@
                        == entries@[i].1.name@ && kv.1.create_sql@ == definition_sql(
                        entries@[i].1,
                    ) && kv.1.owner_id == entries@[i].1.owner_id && kv.1.privileges@
                        == entries@[i].1.privileges@)
            },
            Err(e) => {
                &&& e == UpgradeError::MissingDefinition
                &&& exists|i: int|
                    0 <= i < entries@.len() && !has_definition((#[trigger] entries@[i]).1)
            },
        },
{
    let mut actions: Vec<MigrationAction> = Vec::new();
    let mut i: usize = 0;
    while i < entries.len()
        invariant
            i <= entries@.len(),
            actions@.len() == i,
            forall|j: int| 0 <= j < i ==> has_definition((#[trigger] entries@[j]).1),
            forall|j: int|
                0 <= j < i ==> ((#[trigger] actions@[j]) matches MigrationAction::Update(k, kv) && k
                    == entries@[j].0 && kv.0 == entries@[j].0 && kv.1.schema_id
                    == entries@[j].1.schema_id && kv.1.name@ == entries@[j].1.name@
                    && kv.1.create_sql@ == definition_sql(entries@[j].1) && kv.1.owner_id
                    == entries@[j].1.owner_id && kv.1.privileges@ == entries@[j].1.privileges@),
        decreases entries@.len() - i,
    {
        let entry = &entries[i];
        let defined = match &entry.1.definition {
            Some(d) => match &d.value {
                Some(CatalogItemValue::V1(_)) => true,
                None => false,
            },
            None => false,
        };
        if !defined {
            proof {
                assert(!has_definition(entries@[i as int].1));
            }
            return Err(UpgradeError::MissingDefinition);
        }
        let new_value = ItemValueV37::from(&entry.1);
        actions.push(MigrationAction::Update(entry.0, (entry.0, new_value)));
        i = i + 1;
    }
    Ok(actions)
}

} // verus!
