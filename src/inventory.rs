use vstd::prelude::*;
use crate::registry::{EndpointRegistry, RegistryView, Register, RegisterError, WinOsInfo, OsInfo, has_uuid, endpoint_registered, registry_wf};
use crate::profile::{UserManager, ProfileStoreView, UserProfiles, ReconcileError, sids_unique, snapshot_applied, member_ids, incoming_ids, ids_suffice};
use crate::reconcile::{ReconcilePlan, is_reconcile_plan};
use crate::software::{SoftwareCatalog, SoftwareLibrary, CatalogView, catalog_extends, names_version, publisher_key, presence_of_others};
use crate::server_task::{self, ClientTaskView, TaskUpdateError, new_tasks_for, status_report_applied};
use crate::task::{Task, TaskUpdate, TaskStatus, is_delete_profile_payload};
use crate::facts::{EndpointFacts, has_client};
use crate::hardware::{HardwareInfoV2, BatteryStatus};
use crate::system_status::VolumeList;
use crate::license::{LicenseStore, LicenseStoreView, LicenseBundle, LicensePlan, LicenseError, names_unique,
    licenses_to_add, licenses_to_update, licenses_to_delete, rows_of, kept_license_rows, added_license_rows};

verus! {

/// Why a request from an endpoint was not applied.
#[derive(Debug, Clone, Copy, PartialEq, Eq, Structural)]
pub enum ApiError {
    /// No endpoint has registered under the UUID.
    UnknownEndpoint,
    /// Every id of a table that the request would add rows to is taken.
    CapacityExhausted,
    /// The registration was refused.
    Register(RegisterError),
    /// The profile snapshot was refused.
    Snapshot(ReconcileError),
    /// The task status report was refused.
    Task(TaskUpdateError),
    /// The license bundle was refused.
    Licenses(LicenseError),
}

pub struct InventoryView {
    pub registry: RegistryView,
    pub store: ProfileStoreView,
    pub catalog: CatalogView,
    pub tasks: Seq<ClientTaskView>,
    pub licenses: LicenseStoreView,
    pub hardware: Seq<(i32, HardwareInfoV2)>,
    pub volumes: Seq<(i32, VolumeList)>,
    pub batteries: Seq<(i32, BatteryStatus)>,
}

/// The latest hardware, volume and battery reports are the same in `a` and `b`.
pub open spec fn facts_unchanged(a: InventoryView, b: InventoryView) -> bool {
    a.hardware == b.hardware && a.volumes == b.volumes && a.batteries == b.batteries
}

/// `after` holds `facts` as the report of `client_id`, in place of the one `before` held.
pub open spec fn report_replaced<T>(before: Seq<(i32, T)>, client_id: i32, facts: T, after: Seq<(i32, T)>) -> bool {
    &&& has_client(before, client_id) ==> exists|i: int| 0 <= i < before.len() && before[i].0 == client_id
        && after == before.update(i, (client_id, facts))
    &&& !has_client(before, client_id) ==> after == before.push((client_id, facts))
}

/// The endpoint id registered under `uuid`.
pub open spec fn endpoint_of(r: RegistryView, uuid: u128) -> i32 {
    r.clients[choose|i: int| 0 <= i < r.clients.len() && r.clients[i].uuid == uuid].id
}

/// The registry server: endpoints, their profiles, the software catalog and the task queue.
pub struct InventoryServer {
    registry: EndpointRegistry,
    users: UserManager,
    software: SoftwareCatalog,
    tasks: server_task::TaskManager,
    licenses: LicenseStore,
    hardware: EndpointFacts<HardwareInfoV2>,
    volumes: EndpointFacts<VolumeList>,
    batteries: EndpointFacts<BatteryStatus>,
}

impl View for InventoryServer {
    type V = InventoryView;

    closed spec fn view(&self) -> InventoryView {
        InventoryView {
            registry: self.registry@,
            store: self.users@,
            catalog: self.software@,
            tasks: self.tasks@,
            licenses: self.licenses@,
            hardware: self.hardware@,
            volumes: self.volumes@,
            batteries: self.batteries@,
        }
    }
}

impl InventoryServer {
    pub closed spec fn wf(&self) -> bool {
        self.registry.wf() && self.users.wf() && self.software.wf() && self.tasks.wf() && self.licenses.wf()
            && self.hardware.wf() && self.volumes.wf() && self.batteries.wf()
    }

    pub fn new() -> (r: InventoryServer)
        ensures
            r.wf(),
            r@.registry.clients.len() == 0,
            r@.store.users.len() == 0,
            r@.store.profiles.len() == 0,
            r@.catalog.infos.len() == 0,
            r@.tasks.len() == 0,
            r@.licenses.rows.len() == 0,
    {
        InventoryServer {
            registry: EndpointRegistry::new(),
            users: UserManager::new(),
            software: SoftwareCatalog::new(),
            tasks: server_task::TaskManager::new(),
            licenses: LicenseStore::new(),
            hardware: EndpointFacts::new(),
            volumes: EndpointFacts::new(),
            batteries: EndpointFacts::new(),
        }
    }

    pub fn registry(&self) -> (r: &EndpointRegistry)
        ensures
            r@ == self@.registry,
    {
        &self.registry
    }

    pub fn profiles(&self) -> (r: &UserManager)
        ensures
            r@ == self@.store,
    {
        &self.users
    }

    pub fn software(&self) -> (r: &SoftwareCatalog)
        ensures
            r@ == self@.catalog,
    {
        &self.software
    }

    pub fn licenses(&self) -> (r: &LicenseStore)
        ensures
            r@ == self@.licenses,
    {
        &self.licenses
    }

    pub fn tasks(&self) -> (r: &server_task::TaskManager)
        ensures
            r@ == self@.tasks,
    {
        &self.tasks
    }

    fn endpoint(&self, uuid: u128) -> (r: Option<i32>)
        requires
            self.wf(),
        ensures
            r is None <==> !has_uuid(self@.registry.clients, uuid),
            r matches Some(id) ==> id == endpoint_of(self@.registry, uuid) && 1 <= id <= self@.registry.clients.len(),
    {
        let r = self.registry.get_client(uuid);
        proof {
            if let Some(id) = r {
                let v = self@.registry;
                assert(registry_wf(v));
                let i = choose|i: int| 0 <= i < v.clients.len() && v.clients[i].uuid == uuid;
                let j = id - 1;
                if i < j {
                    assert(v.clients[i].uuid != v.clients[j].uuid);
                } else if j < i {
                    assert(v.clients[j].uuid != v.clients[i].uuid);
                }
            }
        }
        r
    }

    /// Registers an endpoint; a request without a UUID is given a fresh one
    /// that no endpoint has.
    pub fn register(&mut self, input: &Register) -> (r: Result<Register, ApiError>)
        requires
            old(self).wf(),
        ensures
            final(self).wf(),
            facts_unchanged(old(self)@, final(self)@),
            final(self)@.store == old(self)@.store,
            final(self)@.catalog == old(self)@.catalog,
            final(self)@.tasks == old(self)@.tasks,
            final(self)@.licenses == old(self)@.licenses,
            old(self)@.registry.clients.len() >= i32::MAX ==> r == Err::<Register, ApiError>(ApiError::CapacityExhausted),
            old(self)@.registry.clients.len() < i32::MAX && input.uuid is Some ==> r is Ok,
            r is Err ==> final(self)@ == old(self)@,
            r is Err && old(self)@.registry.clients.len() < i32::MAX
                ==> r == Err::<Register, ApiError>(ApiError::Register(RegisterError::NoFreshUuid)),
            r is Ok ==> r.unwrap().name == input.name && r.unwrap().uuid is Some,
            r is Ok && input.uuid is Some ==> r.unwrap().uuid == input.uuid,
            r is Ok && input.uuid is None ==> !has_uuid(old(self)@.registry.clients, r.unwrap().uuid.unwrap()),
            r is Ok ==> exists|id: i32| #[trigger] endpoint_registered(old(self)@.registry, input.name@, r.unwrap().uuid.unwrap(), id, final(self)@.registry),
    {
        if self.registry.clients().len() >= i32::MAX as usize {
            return Err(ApiError::CapacityExhausted);
        }
        let ghost before = self.registry@;
        match self.registry.register(input) {
            Err(e) => Err(ApiError::Register(e)),
            Ok(a) => {
                let ghost after = self.registry@;
                assert(exists|id: i32| #[trigger] endpoint_registered(before, input.name@, a.uuid.unwrap(), id, after));
                assert(self@.registry == after);
                assert(old(self)@.registry == before);
                let r = Ok(a);
                assert(r.unwrap() == a);
                r
            },
        }
    }

    /// Stores the operating-system facts of the endpoint registered under `uuid`.
    pub fn post_os(&mut self, uuid: u128, info: &WinOsInfo) -> (r: Result<(), ApiError>)
        requires
            old(self).wf(),
        ensures
            final(self).wf(),
            facts_unchanged(old(self)@, final(self)@),
            r is Err <==> !has_uuid(old(self)@.registry.clients, uuid),
            r is Err ==> r == Err::<(), ApiError>(ApiError::UnknownEndpoint) && final(self)@ == old(self)@,
            r is Ok ==> final(self)@.registry.clients == old(self)@.registry.clients
                && final(self)@.registry.os_info == old(self)@.registry.os_info.update(endpoint_of(old(self)@.registry, uuid) - 1, OsInfo {
                    client_id: endpoint_of(old(self)@.registry, uuid),
                    computer_name: info.computer_name,
                    os: Some(info.operating_system),
                    os_version: Some(info.os_version),
                    domain: Some(info.domain),
                })
                && final(self)@.store == old(self)@.store && final(self)@.catalog == old(self)@.catalog
                && final(self)@.tasks == old(self)@.tasks && final(self)@.licenses == old(self)@.licenses,
    {
        match self.endpoint(uuid) {
            None => Err(ApiError::UnknownEndpoint),
            Some(id) => {
                self.registry.update_os_info(id, info);
                Ok(())
            },
        }
    }

    /// Applies a full profile snapshot of the endpoint registered under `uuid`.
    pub fn post_profiles(&mut self, uuid: u128, snapshot: &UserProfiles) -> (r: Result<ReconcilePlan, ApiError>)
        requires
            old(self).wf(),
        ensures
            final(self).wf(),
            facts_unchanged(old(self)@, final(self)@),
            final(self)@.registry == old(self)@.registry,
            final(self)@.catalog == old(self)@.catalog,
            final(self)@.tasks == old(self)@.tasks,
            final(self)@.licenses == old(self)@.licenses,
            !has_uuid(old(self)@.registry.clients, uuid) ==> r == Err::<ReconcilePlan, ApiError>(ApiError::UnknownEndpoint),
            has_uuid(old(self)@.registry.clients, uuid) && !sids_unique(snapshot.profiles@)
                ==> r == Err::<ReconcilePlan, ApiError>(ApiError::Snapshot(ReconcileError::DuplicateMember)),
            has_uuid(old(self)@.registry.clients, uuid) && sids_unique(snapshot.profiles@)
                && !ids_suffice(old(self)@.store.users, snapshot.profiles@)
                ==> r == Err::<ReconcilePlan, ApiError>(ApiError::Snapshot(ReconcileError::IdsExhausted)),
            r is Err ==> final(self)@ == old(self)@,
            has_uuid(old(self)@.registry.clients, uuid) && sids_unique(snapshot.profiles@)
                && ids_suffice(old(self)@.store.users, snapshot.profiles@) ==> (r matches Ok(plan)
                && snapshot_applied(old(self)@.store, endpoint_of(old(self)@.registry, uuid), snapshot.profiles@, final(self)@.store)
                && is_reconcile_plan(member_ids(old(self)@.store.profiles, endpoint_of(old(self)@.registry, uuid)),
                    incoming_ids(final(self)@.store.users, snapshot.profiles@), plan)),
    {
        let id = match self.endpoint(uuid) {
            None => return Err(ApiError::UnknownEndpoint),
            Some(id) => id,
        };
        match self.users.update_profiles(id, snapshot) {
            Ok(plan) => Ok(plan),
            Err(e) => Err(ApiError::Snapshot(e)),
        }
    }

    /// Replaces the software presence of the endpoint registered under `uuid`,
    /// resolving every reported version in the shared catalog.
    pub fn post_software(&mut self, uuid: u128, lib: &SoftwareLibrary) -> (r: Result<Vec<i32>, ApiError>)
        requires
            old(self).wf(),
        ensures
            final(self).wf(),
            facts_unchanged(old(self)@, final(self)@),
            final(self)@.registry == old(self)@.registry,
            final(self)@.store == old(self)@.store,
            final(self)@.tasks == old(self)@.tasks,
            final(self)@.licenses == old(self)@.licenses,
            !has_uuid(old(self)@.registry.clients, uuid) ==> r == Err::<Vec<i32>, ApiError>(ApiError::UnknownEndpoint),
            has_uuid(old(self)@.registry.clients, uuid) && !(old(self)@.catalog.infos.len() + lib.software@.len() < i32::MAX
                && old(self)@.catalog.versions.len() + lib.software@.len() < i32::MAX)
                ==> r == Err::<Vec<i32>, ApiError>(ApiError::CapacityExhausted),
            r is Err ==> final(self)@ == old(self)@,
            r matches Ok(ids) ==> (catalog_extends(old(self)@.catalog, final(self)@.catalog)
                && ids@.len() == lib.software@.len()
                && (forall|i: int| 0 <= i < ids@.len() ==> names_version(final(self)@.catalog, #[trigger] ids@[i],
                    lib.software@[i].name@, lib.software@[i].version@, publisher_key(lib.software@[i].publisher)))
                && final(self)@.catalog.presence == presence_of_others(old(self)@.catalog.presence, endpoint_of(old(self)@.registry, uuid))
                    + ids@.map_values(|v: i32| crate::software::SoftwareList { client_id: endpoint_of(old(self)@.registry, uuid), version_id: v })),
            has_uuid(old(self)@.registry.clients, uuid) && old(self)@.catalog.infos.len() + lib.software@.len() < i32::MAX
                && old(self)@.catalog.versions.len() + lib.software@.len() < i32::MAX ==> r is Ok,
    {
        let id = match self.endpoint(uuid) {
            None => return Err(ApiError::UnknownEndpoint),
            Some(id) => id,
        };
        if !self.software.room_for(lib.software.len()) {
            return Err(ApiError::CapacityExhausted);
        }
        Ok(self.software.update_software_lib(id, lib))
    }

    /// Applies the license bundle of the endpoint registered under `uuid`.
    pub fn post_licenses(&mut self, uuid: u128, bundle: &LicenseBundle) -> (r: Result<LicensePlan, ApiError>)
        requires
            old(self).wf(),
        ensures
            final(self).wf(),
            facts_unchanged(old(self)@, final(self)@),
            final(self)@.registry == old(self)@.registry,
            final(self)@.store == old(self)@.store,
            final(self)@.catalog == old(self)@.catalog,
            final(self)@.tasks == old(self)@.tasks,
            !has_uuid(old(self)@.registry.clients, uuid) ==> r == Err::<LicensePlan, ApiError>(ApiError::UnknownEndpoint),
            has_uuid(old(self)@.registry.clients, uuid) && old(self)@.licenses.next_id + bundle.licenses@.len() > i32::MAX
                ==> r == Err::<LicensePlan, ApiError>(ApiError::CapacityExhausted),
            has_uuid(old(self)@.registry.clients, uuid) && old(self)@.licenses.next_id + bundle.licenses@.len() <= i32::MAX
                && !names_unique(bundle.licenses@)
                ==> r == Err::<LicensePlan, ApiError>(ApiError::Licenses(LicenseError::DuplicateName)),
            r is Err ==> final(self)@ == old(self)@,
            has_uuid(old(self)@.registry.clients, uuid) && old(self)@.licenses.next_id + bundle.licenses@.len() <= i32::MAX
                && names_unique(bundle.licenses@) ==> ({
                    let c = endpoint_of(old(self)@.registry, uuid);
                    r matches Ok(plan)
                    && plan.to_add@ == licenses_to_add(bundle.licenses@, rows_of(old(self)@.licenses.rows, c))
                    && plan.to_update@ == licenses_to_update(bundle.licenses@, rows_of(old(self)@.licenses.rows, c))
                    && plan.to_delete@ == licenses_to_delete(rows_of(old(self)@.licenses.rows, c), bundle.licenses@)
                    && final(self)@.licenses.rows == kept_license_rows(old(self)@.licenses.rows, c, bundle.licenses@)
                        + added_license_rows(plan.to_add@, c, old(self)@.licenses.next_id)
                }),
    {
        let id = match self.endpoint(uuid) {
            None => return Err(ApiError::UnknownEndpoint),
            Some(id) => id,
        };
        if !self.licenses.room_for(bundle.licenses.len()) {
            return Err(ApiError::CapacityExhausted);
        }
        match self.licenses.update_license_keys(id, bundle) {
            Ok(plan) => Ok(plan),
            Err(e) => Err(ApiError::Licenses(e)),
        }
    }

    /// Stores the hardware report of the endpoint registered under `uuid`.
    pub fn post_hardware(&mut self, uuid: u128, info: HardwareInfoV2) -> (r: Result<(), ApiError>)
        requires
            old(self).wf(),
        ensures
            final(self).wf(),
            r is Err <==> !has_uuid(old(self)@.registry.clients, uuid),
            r is Err ==> r == Err::<(), ApiError>(ApiError::UnknownEndpoint) && final(self)@ == old(self)@,
            r is Ok ==> report_replaced(old(self)@.hardware, endpoint_of(old(self)@.registry, uuid), info, final(self)@.hardware)
                && final(self)@ == (InventoryView { hardware: final(self)@.hardware, ..old(self)@ }),
    {
        match self.endpoint(uuid) {
            None => Err(ApiError::UnknownEndpoint),
            Some(id) => {
                self.hardware.replace(id, info);
                Ok(())
            },
        }
    }

    /// Stores the volume report of the endpoint registered under `uuid`.
    pub fn post_status_volumes(&mut self, uuid: u128, volumes: VolumeList) -> (r: Result<(), ApiError>)
        requires
            old(self).wf(),
        ensures
            final(self).wf(),
            r is Err <==> !has_uuid(old(self)@.registry.clients, uuid),
            r is Err ==> r == Err::<(), ApiError>(ApiError::UnknownEndpoint) && final(self)@ == old(self)@,
            r is Ok ==> report_replaced(old(self)@.volumes, endpoint_of(old(self)@.registry, uuid), volumes, final(self)@.volumes)
                && final(self)@ == (InventoryView { volumes: final(self)@.volumes, ..old(self)@ }),
    {
        match self.endpoint(uuid) {
            None => Err(ApiError::UnknownEndpoint),
            Some(id) => {
                self.volumes.replace(id, volumes);
                Ok(())
            },
        }
    }

    /// Stores the battery report of the endpoint registered under `uuid`.
    pub fn post_status_battery(&mut self, uuid: u128, status: BatteryStatus) -> (r: Result<(), ApiError>)
        requires
            old(self).wf(),
        ensures
            final(self).wf(),
            r is Err <==> !has_uuid(old(self)@.registry.clients, uuid),
            r is Err ==> r == Err::<(), ApiError>(ApiError::UnknownEndpoint) && final(self)@ == old(self)@,
            r is Ok ==> report_replaced(old(self)@.batteries, endpoint_of(old(self)@.registry, uuid), status, final(self)@.batteries)
                && final(self)@ == (InventoryView { batteries: final(self)@.batteries, ..old(self)@ }),
    {
        match self.endpoint(uuid) {
            None => Err(ApiError::UnknownEndpoint),
            Some(id) => {
                self.batteries.replace(id, status);
                Ok(())
            },
        }
    }

    pub fn hardware(&self) -> (r: &EndpointFacts<HardwareInfoV2>)
        ensures
            r@ == self@.hardware,
    {
        &self.hardware
    }

    pub fn volumes(&self) -> (r: &EndpointFacts<VolumeList>)
        ensures
            r@ == self@.volumes,
    {
        &self.volumes
    }

    pub fn batteries(&self) -> (r: &EndpointFacts<BatteryStatus>)
        ensures
            r@ == self@.batteries,
    {
        &self.batteries
    }

    /// The tasks of the endpoint registered under `uuid` that it has not fetched yet.
    pub fn get_tasks(&self, uuid: u128) -> (r: Result<Vec<Task>, ApiError>)
        requires
            self.wf(),
        ensures
            !has_uuid(self@.registry.clients, uuid) ==> r == Err::<Vec<Task>, ApiError>(ApiError::UnknownEndpoint),
            has_uuid(self@.registry.clients, uuid) ==> (r matches Ok(ts)
                && ts@.map_values(|t: Task| t@) == new_tasks_for(self@.tasks, endpoint_of(self@.registry, uuid))),
    {
        match self.endpoint(uuid) {
            None => Err(ApiError::UnknownEndpoint),
            Some(id) => Ok(self.tasks.get_new_tasks_for_client(id)),
        }
    }

    /// Applies a task status report from the endpoint registered under `uuid`.
    pub fn post_task_update(&mut self, uuid: u128, update: &TaskUpdate) -> (r: Result<(), ApiError>)
        requires
            old(self).wf(),
        ensures
            final(self).wf(),
            facts_unchanged(old(self)@, final(self)@),
            final(self)@.registry == old(self)@.registry,
            final(self)@.store == old(self)@.store,
            final(self)@.catalog == old(self)@.catalog,
            final(self)@.licenses == old(self)@.licenses,
            !has_uuid(old(self)@.registry.clients, uuid) ==> r == Err::<(), ApiError>(ApiError::UnknownEndpoint)
                && final(self)@ == old(self)@,
            has_uuid(old(self)@.registry.clients, uuid) ==> exists|res: Result<(), TaskUpdateError>| {
                &&& #[trigger] status_report_applied(old(self)@.tasks, endpoint_of(old(self)@.registry, uuid), *update, res, final(self)@.tasks)
                &&& res is Ok ==> r is Ok
                &&& res matches Err(e) ==> r == Err::<(), ApiError>(ApiError::Task(e))
            },
    {
        match self.endpoint(uuid) {
            None => Err(ApiError::UnknownEndpoint),
            Some(id) => {
                let ghost before = self@.tasks;
                let res = self.tasks.update_task_status(id, update);
                assert(status_report_applied(before, id, *update, res, self@.tasks));
                match res {
                    Ok(()) => Ok(()),
                    Err(e) => Err(ApiError::Task(e)),
                }
            },
        }
    }

    /// Queues the removal of the profile of `sid` on the endpoint registered under `uuid`.
    pub fn queue_profile_deletion(&mut self, uuid: u128, sid: &String) -> (r: Result<i32, ApiError>)
        requires
            old(self).wf(),
        ensures
            final(self).wf(),
            facts_unchanged(old(self)@, final(self)@),
            final(self)@.registry == old(self)@.registry,
            final(self)@.store == old(self)@.store,
            final(self)@.catalog == old(self)@.catalog,
            final(self)@.licenses == old(self)@.licenses,
            !has_uuid(old(self)@.registry.clients, uuid) ==> r == Err::<i32, ApiError>(ApiError::UnknownEndpoint),
            has_uuid(old(self)@.registry.clients, uuid) && old(self)@.tasks.len() >= i32::MAX
                ==> r == Err::<i32, ApiError>(ApiError::CapacityExhausted),
            r is Err ==> final(self)@ == old(self)@,
            has_uuid(old(self)@.registry.clients, uuid) && old(self)@.tasks.len() < i32::MAX ==> (r matches Ok(id)
                && id == old(self)@.tasks.len() + 1
                && final(self)@.tasks.drop_last() == old(self)@.tasks
                && final(self)@.tasks.last().id == id
                && final(self)@.tasks.last().client_id == endpoint_of(old(self)@.registry, uuid)
                && final(self)@.tasks.last().task_status == TaskStatus::Created
                && is_delete_profile_payload(final(self)@.tasks.last().task, sid@)),
    {
        match self.endpoint(uuid) {
            None => Err(ApiError::UnknownEndpoint),
            Some(client_id) => match self.tasks.delete_user_profile(client_id, sid) {
                Some(id) => Ok(id),
                None => Err(ApiError::CapacityExhausted),
            },
        }
    }
}

} // verus!
