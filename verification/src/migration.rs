//! The versioned migration engine: an ordered registry of named migrations,
//! each bound to an activation block height and either regular (an
//! initialize step at its height and an idempotent update step from then
//! on) or a hotfix (a byte-for-byte payload rewrite consulted at one
//! height).

use crate::storage::{Op, Storage};
use vstd::prelude::*;

verus! {

broadcast use crate::cbor::lemma_concat_assoc_bytes;

/// Whether a configured migration takes part in runs.
#[derive(Clone, Copy, Debug, PartialEq, Eq, Structural)]
pub enum Status {
    Enabled,
    Disabled,
}

impl Status {
    /// The enabled state.
    pub fn enabled() -> (r: Status)
        ensures
            r == Status::Enabled,
    {
        Status::Enabled
    }

    /// The disabled state.
    pub fn disabled() -> (r: Status)
        ensures
            r == Status::Disabled,
    {
        Status::Disabled
    }
}

/// The height binding of a migration, with an optional tracking issue.
#[derive(Clone, Debug)]
pub struct Metadata {
    pub block_height: u64,
    pub issue: Option<String>,
}

impl Default for Metadata {
    /// By default a migration activates at the first block.
    fn default() -> (r: Metadata)
        ensures
            r.block_height == 1,
            r.issue is None,
    {
        Metadata { block_height: 1, issue: None }
    }
}

/// One step a regular migration runs against storage. Steps are idempotent:
/// writing a marker twice leaves the same state.
#[derive(Clone, Debug)]
pub enum StepAction {
    /// Change nothing.
    Nop,
    /// Record a marker value under a reserved key.
    SetMarker(Vec<u8>, Vec<u8>),
}

/// The storage map after one step.
pub open spec fn spec_step_action(m: Map<Seq<u8>, Seq<u8>>, a: StepAction) -> Map<Seq<u8>, Seq<u8>> {
    match a {
        StepAction::Nop => m,
        StepAction::SetMarker(k, v) => m.insert(k@, v@),
    }
}

/// A regular migration: its initialize and update steps.
#[derive(Clone, Debug)]
pub struct RegularMigration {
    pub initialize_fn: StepAction,
    pub update_fn: StepAction,
}

/// A hotfix migration: a byte-for-byte rewrite of one specific payload.
#[derive(Clone, Debug)]
pub struct HotfixMigration {
    pub payload_from: Vec<u8>,
    pub payload_to: Vec<u8>,
}

/// The two migration families.
#[derive(Clone, Debug)]
pub enum MigrationType {
    Regular(RegularMigration),
    Hotfix(HotfixMigration),
}

/// A named migration available in the registry.
#[derive(Clone, Debug)]
pub struct InnerMigration {
    pub kind: MigrationType,
    pub name: String,
    pub description: String,
}

/// What a hotfix returns for a payload: the replacement when the payload is
/// the one it targets.
pub open spec fn spec_hotfix_apply(from: Seq<u8>, to: Seq<u8>, b: Seq<u8>) -> Option<Seq<u8>> {
    if b == from {
        Some(to)
    } else {
        None
    }
}

impl InnerMigration {
    /// A hotfix migration rewriting the payload `from` to `to`.
    pub fn new_hotfix(from: Vec<u8>, to: Vec<u8>, name: String, description: String) -> (r:
        InnerMigration)
        ensures
            r.name == name,
            r.description == description,
            r.kind matches MigrationType::Hotfix(h) && h.payload_from == from && h.payload_to == to,
    {
        InnerMigration {
            kind: MigrationType::Hotfix(HotfixMigration { payload_from: from, payload_to: to }),
            name,
            description,
        }
    }

    /// A regular migration with both steps.
    pub fn new_initialize_update(
        initialize_fn: StepAction,
        update_fn: StepAction,
        name: String,
        description: String,
    ) -> (r: InnerMigration)
        ensures
            r.name == name,
            r.description == description,
            r.kind matches MigrationType::Regular(g) && g.initialize_fn == initialize_fn
                && g.update_fn == update_fn,
    {
        InnerMigration {
            kind: MigrationType::Regular(RegularMigration { initialize_fn, update_fn }),
            name,
            description,
        }
    }

    /// A regular migration with only an initialize step.
    pub fn new_initialize(initialize_fn: StepAction, name: String, description: String) -> (r:
        InnerMigration)
        ensures
            r.name == name,
            r.description == description,
            r.kind matches MigrationType::Regular(g) && g.initialize_fn == initialize_fn
                && g.update_fn == StepAction::Nop,
    {
        InnerMigration {
            kind: MigrationType::Regular(
                RegularMigration { initialize_fn, update_fn: StepAction::Nop },
            ),
            name,
            description,
        }
    }

    /// A regular migration with only an update step.
    pub fn new_update(update_fn: StepAction, name: String, description: String) -> (r:
        InnerMigration)
        ensures
            r.name == name,
            r.description == description,
            r.kind matches MigrationType::Regular(g) && g.initialize_fn == StepAction::Nop
                && g.update_fn == update_fn,
    {
        InnerMigration {
            kind: MigrationType::Regular(
                RegularMigration { initialize_fn: StepAction::Nop, update_fn },
            ),
            name,
            description,
        }
    }

    /// The migration's name.
    pub fn name(&self) -> (r: &String)
        ensures
            r == &self.name,
    {
        &self.name
    }

    /// The migration's description.
    pub fn description(&self) -> (r: &String)
        ensures
            r == &self.description,
    {
        &self.description
    }

    /// The migration's family and steps.
    pub fn kind(&self) -> (r: &MigrationType)
        ensures
            r == &self.kind,
    {
        &self.kind
    }

    /// The initialize step of a regular migration; a hotfix does nothing.
    pub fn initialize(&self, storage: &mut Storage) -> (r: Result<(), crate::error::ManyError>)
        requires
            old(storage).wf(),
        ensures
            r is Ok,
            final(storage).wf(),
            final(storage).working_view() == spec_step_action(
                old(storage).working_view(),
                spec_initialize_action(*self),
            ),
            final(storage).committed_entries() == old(storage).committed_entries(),
    {
        match &self.kind {
            MigrationType::Regular(g) => {
                run_step(&g.initialize_fn, storage);
                Ok(())
            },
            MigrationType::Hotfix(_) => {
                assert(storage.working_view() =~= spec_step_action(
                    storage.working_view(),
                    StepAction::Nop,
                ));
                Ok(())
            },
        }
    }

    /// The update step of a regular migration; a hotfix does nothing.
    pub fn update(&self, storage: &mut Storage) -> (r: Result<(), crate::error::ManyError>)
        requires
            old(storage).wf(),
        ensures
            r is Ok,
            final(storage).wf(),
            final(storage).working_view() == spec_step_action(
                old(storage).working_view(),
                spec_update_action(*self),
            ),
            final(storage).committed_entries() == old(storage).committed_entries(),
    {
        match &self.kind {
            MigrationType::Regular(g) => {
                run_step(&g.update_fn, storage);
                Ok(())
            },
            MigrationType::Hotfix(_) => Ok(()),
        }
    }

    /// The rewrite of a hotfix migration; a regular migration rewrites
    /// nothing.
    pub fn hotfix(&self, b: &Vec<u8>) -> (r: Option<Vec<u8>>)
        ensures
            r matches Some(v) ==> (self.kind matches MigrationType::Hotfix(h)
                && spec_hotfix_apply(h.payload_from@, h.payload_to@, b@) == Some(v@)),
            r is None ==> (match self.kind {
                MigrationType::Hotfix(h) => spec_hotfix_apply(
                    h.payload_from@,
                    h.payload_to@,
                    b@,
                ) is None,
                MigrationType::Regular(_) => true,
            }),
    {
        match &self.kind {
            MigrationType::Hotfix(h) => {
                if &h.payload_from == b {
                    assert(h.payload_from@ == b@);
                    Some(h.payload_to.clone())
                } else {
                    assert(h.payload_from@ != b@);
                    None
                }
            },
            MigrationType::Regular(_) => None,
        }
    }
}

/// The initialize step a migration would run.
pub open spec fn spec_initialize_action(m: InnerMigration) -> StepAction {
    match m.kind {
        MigrationType::Regular(g) => g.initialize_fn,
        MigrationType::Hotfix(_) => StepAction::Nop,
    }
}

/// The update step a migration would run.
pub open spec fn spec_update_action(m: InnerMigration) -> StepAction {
    match m.kind {
        MigrationType::Regular(g) => g.update_fn,
        MigrationType::Hotfix(_) => StepAction::Nop,
    }
}

/// Stages one step into storage.
fn run_step(a: &StepAction, storage: &mut Storage)
    requires
        old(storage).wf(),
    ensures
        final(storage).wf(),
        final(storage).working_view() == spec_step_action(old(storage).working_view(), *a),
        final(storage).committed_entries() == old(storage).committed_entries(),
{
    match a {
        StepAction::Nop => {
            assert(storage.working_view() =~= spec_step_action(
                storage.working_view(),
                StepAction::Nop,
            ));
        },
        StepAction::SetMarker(k, v) => {
            let mut batch: Vec<(Vec<u8>, Op)> = Vec::new();
            batch.push((k.clone(), Op::Put(v.clone())));
            let ghost b0 = batch@;
            let ghost m0 = storage.working_view();
            storage.apply(&batch);
            proof {
                assert(crate::storage::batch_view(b0).drop_last() =~= Seq::<
                    (Seq<u8>, Option<Seq<u8>>),
                >::empty());
                assert(crate::storage::spec_apply(
                    m0,
                    crate::storage::batch_view(b0).drop_last(),
                ) == m0);
                assert(crate::storage::batch_view(b0).last() == (k@, Some(v@)));
                assert(storage.working_view() == m0.insert(k@, v@));
            }
        },
    }
}

/// A configured migration: a registry entry bound to its metadata and
/// switched on or off.
#[derive(Clone, Debug)]
pub struct Migration {
    pub migration: InnerMigration,
    pub metadata: Metadata,
    pub status: Status,
}

impl Migration {
    /// A migration in the given configuration.
    pub fn new(migration: InnerMigration, metadata: Metadata, status: Status) -> (r: Migration)
        ensures
            r.migration == migration,
            r.metadata == metadata,
            r.status == status,
    {
        Migration { migration, metadata, status }
    }

    /// The migration's name.
    pub fn name(&self) -> (r: &String)
        ensures
            r == &self.migration.name,
    {
        self.migration.name()
    }

    /// The migration's description.
    pub fn description(&self) -> (r: &String)
        ensures
            r == &self.migration.description,
    {
        self.migration.description()
    }

    /// The migration's metadata.
    pub fn metadata(&self) -> (r: &Metadata)
        ensures
            r == &self.metadata,
    {
        &self.metadata
    }

    /// The migration's status.
    pub fn status(&self) -> (r: &Status)
        ensures
            r == &self.status,
    {
        &self.status
    }

    /// Switches the migration off.
    pub fn disable(&mut self)
        ensures
            final(self).status == Status::Disabled,
            final(self).migration == old(self).migration,
            final(self).metadata == old(self).metadata,
    {
        self.status = Status::Disabled;
    }

    /// Switches the migration on.
    pub fn enable(&mut self)
        ensures
            final(self).status == Status::Enabled,
            final(self).migration == old(self).migration,
            final(self).metadata == old(self).metadata,
    {
        self.status = Status::Enabled;
    }

    /// True when the migration takes part in runs.
    pub fn is_enabled(&self) -> (r: bool)
        ensures
            r == (self.status == Status::Enabled),
    {
        match self.status {
            Status::Enabled => true,
            Status::Disabled => false,
        }
    }

    /// Runs the initialize step exactly when the migration is enabled and
    /// the height is its activation height.
    pub fn initialize(&self, storage: &mut Storage, h: u64) -> (r: Result<
        (),
        crate::error::ManyError,
    >)
        requires
            old(storage).wf(),
        ensures
            r is Ok,
            final(storage).wf(),
            final(storage).working_view() == spec_migration_initialize(
                old(storage).working_view(),
                *self,
                h,
            ),
            final(storage).committed_entries() == old(storage).committed_entries(),
    {
        if self.is_enabled() && self.metadata.block_height == h {
            self.migration.initialize(storage)
        } else {
            assert(storage.working_view() =~= spec_migration_initialize(
                storage.working_view(),
                *self,
                h,
            ));
            Ok(())
        }
    }

    /// Runs the update step exactly when the migration is enabled and the
    /// height has reached its activation height.
    pub fn update(&self, storage: &mut Storage, h: u64) -> (r: Result<(), crate::error::ManyError>)
        requires
            old(storage).wf(),
        ensures
            r is Ok,
            final(storage).wf(),
            final(storage).working_view() == spec_migration_update(
                old(storage).working_view(),
                *self,
                h,
            ),
            final(storage).committed_entries() == old(storage).committed_entries(),
    {
        if self.is_enabled() && h >= self.metadata.block_height {
            self.migration.update(storage)
        } else {
            assert(storage.working_view() =~= spec_migration_update(
                storage.working_view(),
                *self,
                h,
            ));
            Ok(())
        }
    }

    /// Consults the hotfix exactly when the migration is enabled and the
    /// height is its activation height; the rewrite fires exactly on its
    /// target payload.
    pub fn hotfix(&self, b: &Vec<u8>, h: u64) -> (r: Option<Vec<u8>>)
        ensures
            r is Some <==> spec_hotfix_applies(*self, b@, h),
            r matches Some(v) ==> (self.migration.kind matches MigrationType::Hotfix(hx) && v@
                == hx.payload_to@),
    {
        if self.is_enabled() && self.metadata.block_height == h {
            self.migration.hotfix(b)
        } else {
            None
        }
    }
}

/// A migration whose hotfix fires on payload `b` at height `h`: enabled, at
/// its activation height, of the hotfix family, and `b` is its target.
pub open spec fn spec_hotfix_applies(m: Migration, b: Seq<u8>, h: u64) -> bool {
    &&& m.status == Status::Enabled
    &&& m.metadata.block_height == h
    &&& m.migration.kind matches MigrationType::Hotfix(hx) && hx.payload_from@ == b
}

/// The rewrite of the first migration whose hotfix fires, if any.
pub open spec fn spec_first_hotfix(migs: Seq<Migration>, b: Seq<u8>, h: u64) -> Option<Seq<u8>>
    decreases migs.len(),
{
    if migs.len() == 0 {
        None
    } else if spec_hotfix_applies(migs[0], b, h) {
        match migs[0].migration.kind {
            MigrationType::Hotfix(hx) => Some(hx.payload_to@),
            MigrationType::Regular(_) => None,
        }
    } else {
        spec_first_hotfix(migs.drop_first(), b, h)
    }
}

/// The staged map after a migration's initialize gate at height `h`.
pub open spec fn spec_migration_initialize(
    m: Map<Seq<u8>, Seq<u8>>,
    mig: Migration,
    h: u64,
) -> Map<Seq<u8>, Seq<u8>> {
    if mig.status == Status::Enabled && mig.metadata.block_height == h {
        spec_step_action(m, spec_initialize_action(mig.migration))
    } else {
        m
    }
}

/// The staged map after a migration's update gate at height `h`.
pub open spec fn spec_migration_update(
    m: Map<Seq<u8>, Seq<u8>>,
    mig: Migration,
    h: u64,
) -> Map<Seq<u8>, Seq<u8>> {
    if mig.status == Status::Enabled && h >= mig.metadata.block_height {
        spec_step_action(m, spec_update_action(mig.migration))
    } else {
        m
    }
}

/// The staged map after one migration's whole run (initialize before
/// update).
pub open spec fn spec_migration_run(
    m: Map<Seq<u8>, Seq<u8>>,
    mig: Migration,
    h: u64,
) -> Map<Seq<u8>, Seq<u8>> {
    spec_migration_update(spec_migration_initialize(m, mig, h), mig, h)
}

/// The staged map after the first `n` migrations have run, in order.
pub open spec fn spec_migrations_run(
    m: Map<Seq<u8>, Seq<u8>>,
    migs: Seq<Migration>,
    h: u64,
    n: int,
) -> Map<Seq<u8>, Seq<u8>>
    decreases n,
{
    if n <= 0 {
        m
    } else {
        spec_migration_run(spec_migrations_run(m, migs, h, n - 1), migs[n - 1], h)
    }
}

/// A migration of the given name that is enabled and whose activation
/// height has been reached.
pub open spec fn spec_is_active_at(migs: Seq<Migration>, name: Seq<char>, h: u64) -> bool {
    exists|i: int|
        0 <= i < migs.len() && (#[trigger] migs[i]).migration.name@ == name && migs[i].status
            == Status::Enabled && migs[i].metadata.block_height <= h
}

/// Activation is monotone in the height: once a migration is active at a
/// height, it stays active at every later height.
pub proof fn lemma_is_active_monotone(migs: Seq<Migration>, name: Seq<char>, h1: u64, h2: u64)
    requires
        spec_is_active_at(migs, name, h1),
        h1 <= h2,
    ensures
        spec_is_active_at(migs, name, h2),
{
    let i = choose|i: int|
        0 <= i < migs.len() && (#[trigger] migs[i]).migration.name@ == name && migs[i].status
            == Status::Enabled && migs[i].metadata.block_height <= h1;
    assert(migs[i].metadata.block_height <= h2);
}

/// A migration's initialize step runs only at its own activation height, so
/// along any strictly increasing sequence of run heights it runs at most
/// once: no two runs see that height.
pub proof fn lemma_initialize_at_most_once(heights: Seq<u64>, block_height: u64, i: int, j: int)
    requires
        forall|a: int, b: int| 0 <= a < b < heights.len() ==> heights[a] < heights[b],
        0 <= i < j < heights.len(),
        heights[i] == block_height,
    ensures
        heights[j] != block_height,
{
    assert(heights[i] < heights[j]);
}

/// The ordered set of configured migrations, and the height they last ran
/// at.
#[derive(Clone, Debug)]
pub struct MigrationSet {
    pub migrations: Vec<Migration>,
    pub height: u64,
}

impl MigrationSet {
    /// An empty set.
    pub fn empty() -> (r: MigrationSet)
        ensures
            r.migrations@.len() == 0,
            r.height == 0,
    {
        MigrationSet { migrations: Vec::new(), height: 0 }
    }

    /// True when a migration of the given name is enabled and its
    /// activation height has been reached.
    pub fn is_active(&self, name: &String) -> (r: bool)
        ensures
            r == spec_is_active_at(self.migrations@, name@, self.height),
    {
        let n = self.migrations.len();
        let mut i: usize = 0;
        while i < n
            invariant
                i <= n,
                n == self.migrations@.len(),
                forall|j: int|
                    0 <= j < i ==> !((#[trigger] self.migrations@[j]).migration.name@ == name@
                        && self.migrations@[j].status == Status::Enabled
                        && self.migrations@[j].metadata.block_height <= self.height),
            decreases n - i,
        {
            let m = &self.migrations[i];
            let name_eq = *m.migration.name() == *name;
            let en = m.is_enabled();
            let hh = m.metadata.block_height <= self.height;
            if name_eq && en && hh {
                assert(self.migrations@[i as int].migration.name@ == name@);
                assert(spec_is_active_at(self.migrations@, name@, self.height));
                return true;
            }
            assert(!(self.migrations@[i as int].migration.name@ == name@ && self.migrations@[
                i as int
            ].status == Status::Enabled && self.migrations@[i as int].metadata.block_height
                <= self.height));
            i = i + 1;
        }
        false
    }

    /// Runs every migration at height `h`, initialize before update, in
    /// registry order, and records the height.
    pub fn update_at_height(&mut self, storage: &mut Storage, h: u64) -> (r: Result<
        (),
        crate::error::ManyError,
    >)
        requires
            old(storage).wf(),
        ensures
            r is Ok,
            final(self).migrations == old(self).migrations,
            final(self).height == h,
            final(storage).wf(),
            final(storage).working_view() == spec_migrations_run(
                old(storage).working_view(),
                old(self).migrations@,
                h,
                old(self).migrations@.len() as int,
            ),
            final(storage).committed_entries() == old(storage).committed_entries(),
    {
        let n = self.migrations.len();
        let mut i: usize = 0;
        while i < n
            invariant
                i <= n,
                n == self.migrations@.len(),
                self.migrations == old(self).migrations,
                self.height == old(self).height,
                storage.wf(),
                storage.working_view() == spec_migrations_run(
                    old(storage).working_view(),
                    self.migrations@,
                    h,
                    i as int,
                ),
                storage.committed_entries() == old(storage).committed_entries(),
            decreases n - i,
        {
            let m = &self.migrations[i];
            let r1 = m.initialize(storage, h);
            let r2 = m.update(storage, h);
            i = i + 1;
        }
        self.height = h;
        Ok(())
    }

    /// Consults every migration at height `h`, in registry order, and
    /// returns the first firing hotfix's rewrite, if any.
    pub fn hotfix(&self, b: &Vec<u8>, h: u64) -> (r: Option<Vec<u8>>)
        ensures
            r matches Some(v) ==> spec_first_hotfix(self.migrations@, b@, h) == Some(v@),
            r is None <==> spec_first_hotfix(self.migrations@, b@, h) is None,
    {
        let n = self.migrations.len();
        let mut i: usize = 0;
        proof {
            assert(self.migrations@.skip(0) =~= self.migrations@);
        }
        while i < n
            invariant
                i <= n,
                n == self.migrations@.len(),
                spec_first_hotfix(self.migrations@, b@, h) == spec_first_hotfix(
                    self.migrations@.skip(i as int),
                    b@,
                    h,
                ),
            decreases n - i,
        {
            let ghost suf = self.migrations@.skip(i as int);
            assert(suf[0] == self.migrations@[i as int]);
            match self.migrations[i].hotfix(b, h) {
                Some(v) => {
                    return Some(v);
                },
                None => {},
            }
            proof {
                assert(suf.drop_first() =~= self.migrations@.skip(i as int + 1));
            }
            i = i + 1;
        }
        proof {
            assert(self.migrations@.skip(n as int) =~= Seq::<Migration>::empty());
        }
        None
    }
}

} // verus!

verus! {

/// The view of a step: the marker pair it writes, if any.
pub open spec fn step_view(a: StepAction) -> Option<(Seq<u8>, Seq<u8>)> {
    match a {
        StepAction::Nop => None,
        StepAction::SetMarker(k, v) => Some((k@, v@)),
    }
}

/// The view of a migration family: both step views for a regular
/// migration, the rewrite pair for a hotfix.
pub open spec fn kind_view(k: MigrationType) -> Result<
    (Option<(Seq<u8>, Seq<u8>)>, Option<(Seq<u8>, Seq<u8>)>),
    (Seq<u8>, Seq<u8>),
> {
    match k {
        MigrationType::Regular(g) => Ok((step_view(g.initialize_fn), step_view(g.update_fn))),
        MigrationType::Hotfix(h) => Err((h.payload_from@, h.payload_to@)),
    }
}

/// The view of a registry entry: its name, description and family view.
pub open spec fn inner_view(m: InnerMigration) -> (
    Seq<char>,
    Seq<char>,
    Result<(Option<(Seq<u8>, Seq<u8>)>, Option<(Seq<u8>, Seq<u8>)>), (Seq<u8>, Seq<u8>)>,
) {
    (m.name@, m.description@, kind_view(m.kind))
}

/// Steps with the same view act the same on every map.
pub proof fn lemma_step_view_action(a: StepAction, b: StepAction, m: Map<Seq<u8>, Seq<u8>>)
    requires
        step_view(a) == step_view(b),
    ensures
        spec_step_action(m, a) == spec_step_action(m, b),
{
}

/// Copies a step, field for field.
fn clone_step(a: &StepAction) -> (r: StepAction)
    ensures
        step_view(r) == step_view(*a),
{
    match a {
        StepAction::Nop => StepAction::Nop,
        StepAction::SetMarker(k, v) => StepAction::SetMarker(k.clone(), v.clone()),
    }
}

/// Copies a registry entry, field for field.
pub fn clone_inner(m: &InnerMigration) -> (r: InnerMigration)
    ensures
        inner_view(r) == inner_view(*m),
{
    let kind = match &m.kind {
        MigrationType::Regular(g) => MigrationType::Regular(
            RegularMigration {
                initialize_fn: clone_step(&g.initialize_fn),
                update_fn: clone_step(&g.update_fn),
            },
        ),
        MigrationType::Hotfix(h) => MigrationType::Hotfix(
            HotfixMigration {
                payload_from: h.payload_from.clone(),
                payload_to: h.payload_to.clone(),
            },
        ),
    };
    InnerMigration { kind, name: m.name.clone(), description: m.description.clone() }
}

} // verus!
