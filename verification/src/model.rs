use vstd::prelude::*;

verus! {

/// One stored row: a user's auto-run configuration for one virtual network
/// instance. Timestamps are plain integers (milliseconds since the Unix
/// epoch); the caller supplies the clock.
#[derive(Debug)]
pub struct Model {
    /// Surrogate primary key, assigned by the store.
    pub id: i32,
    /// Owning user; must reference an existing user at all times.
    pub user_id: i32,
    /// Identifies the virtual network instance; unique across all rows.
    pub network_instance_id: String,
    /// Opaque serialized configuration payload; not interpreted here.
    pub network_config: String,
    /// True: the configuration is present but must not be auto-started.
    pub disabled: bool,
    /// Set once at creation, immutable thereafter.
    pub create_time: i64,
    /// Set at creation, refreshed on every mutation of the row.
    pub update_time: i64,
}

/// The mathematical content of a row: strings as character sequences,
/// integers unbounded.
pub struct ModelView {
    pub id: int,
    pub user_id: int,
    pub network_instance_id: Seq<char>,
    pub network_config: Seq<char>,
    pub disabled: bool,
    pub create_time: int,
    pub update_time: int,
}

impl View for Model {
    type V = ModelView;

    open spec fn view(&self) -> ModelView {
        ModelView {
            id: self.id as int,
            user_id: self.user_id as int,
            network_instance_id: self.network_instance_id@,
            network_config: self.network_config@,
            disabled: self.disabled,
            create_time: self.create_time as int,
            update_time: self.update_time as int,
        }
    }
}

impl Model {
    /// A field-for-field copy of the row.
    pub fn duplicate(&self) -> (r: Model)
        ensures
            r == *self,
    {
        Model {
            id: self.id,
            user_id: self.user_id,
            network_instance_id: self.network_instance_id.clone(),
            network_config: self.network_config.clone(),
            disabled: self.disabled,
            create_time: self.create_time,
            update_time: self.update_time,
        }
    }
}

/// Why an operation on the store failed.
#[derive(Clone, Copy, Debug, PartialEq, Eq, Structural)]
pub enum StoreError {
    /// The requested id or unique key does not exist.
    NotFound,
    /// The operation would duplicate a `network_instance_id`.
    UniqueConstraintViolation,
    /// The operation references a user that does not exist.
    ForeignKeyViolation,
    /// The store can no longer satisfy the request (the id space is spent).
    StorageUnavailable,
}

} // verus!
