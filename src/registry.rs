use vstd::prelude::*;

verus! {

/// Relies on uuid::Uuid::new_v4 and Uuid::as_u128: a random UUID, returned as its
/// 128-bit value, with the version nibble 4 and the variant bits 10.
#[verifier::external_body]
fn new_uuid() -> (r: u128)
    ensures
        (r >> 76u128) & 0xfu128 == 4,
        (r >> 62u128) & 3u128 == 2,
{
    uuid::Uuid::new_v4().as_u128()
}

/// An endpoint: its server-assigned id and the UUID it keeps locally.
#[derive(Debug, Clone, Copy, PartialEq, Eq, Structural)]
pub struct Client {
    pub id: i32,
    pub uuid: u128,
}

/// Operating-system facts of an endpoint, as the server stores them.
#[derive(Debug, Clone, PartialEq, Eq)]
pub struct OsInfo {
    pub client_id: i32,
    pub computer_name: String,
    pub os: Option<String>,
    pub os_version: Option<String>,
    pub domain: Option<String>,
}

/// Operating-system facts as an endpoint reports them.
#[derive(Debug, Clone, PartialEq, Eq)]
pub struct WinOsInfo {
    pub operating_system: String,
    pub os_version: String,
    pub computer_name: String,
    pub domain: String,
}

/// A registration request, and the server's answer to it.
#[derive(Debug, Clone, PartialEq, Eq)]
pub struct Register {
    pub name: String,
    pub uuid: Option<u128>,
}

/// Why a registration was not applied.
#[derive(Debug, Clone, Copy, PartialEq, Eq, Structural)]
pub enum RegisterError {
    /// Every UUID drawn for the new endpoint was already taken.
    NoFreshUuid,
}

/// Random UUIDs drawn for a new endpoint before giving up.
pub const UUID_DRAWS: usize = 8;

pub struct RegistryView {
    pub clients: Seq<Client>,
    pub os_info: Seq<OsInfo>,
}

pub open spec fn has_uuid(clients: Seq<Client>, uuid: u128) -> bool {
    exists|i: int| 0 <= i < clients.len() && clients[i].uuid == uuid
}

/// How registering `name` under `uuid` takes the registry from `before` to
/// `after` and yields endpoint id `id`: a known UUID keeps its endpoint and
/// has its computer name replaced; an unknown one gets a new endpoint.
pub open spec fn endpoint_registered(before: RegistryView, name: Seq<char>, uuid: u128, id: i32, after: RegistryView) -> bool {
    &&& 1 <= id <= after.clients.len()
    &&& after.clients[id - 1].uuid == uuid
    &&& after.os_info.len() == after.clients.len()
    &&& after.os_info[id - 1].computer_name@ == name
    &&& has_uuid(before.clients, uuid) ==> {
        &&& after.clients == before.clients
        &&& after.os_info == before.os_info.update(id - 1, after.os_info[id - 1])
        &&& after.os_info[id - 1].client_id == before.os_info[id - 1].client_id
        &&& after.os_info[id - 1].os == before.os_info[id - 1].os
        &&& after.os_info[id - 1].os_version == before.os_info[id - 1].os_version
        &&& after.os_info[id - 1].domain == before.os_info[id - 1].domain
    }
    &&& !has_uuid(before.clients, uuid) ==> {
        &&& after.clients == before.clients.push(Client { id, uuid })
        &&& id == before.clients.len() + 1
        &&& after.os_info.drop_last() == before.os_info
        &&& after.os_info.last().client_id == id
        &&& after.os_info.last().os is None
        &&& after.os_info.last().os_version is None
        &&& after.os_info.last().domain is None
    }
}

/// Endpoints by UUID, each with its operating-system row.
pub struct EndpointRegistry {
    clients: Vec<Client>,
    os_info: Vec<OsInfo>,
}

impl View for EndpointRegistry {
    type V = RegistryView;

    closed spec fn view(&self) -> RegistryView {
        RegistryView { clients: self.clients@, os_info: self.os_info@ }
    }
}

/// Endpoint ids are 1, 2, ... in order of registration, UUIDs are unique,
/// and the operating-system row of endpoint `i + 1` is at `i`.
pub open spec fn registry_wf(v: RegistryView) -> bool {
    &&& v.os_info.len() == v.clients.len()
    &&& forall|i: int| 0 <= i < v.clients.len() ==> #[trigger] v.clients[i].id == i + 1
    &&& forall|i: int| 0 <= i < v.os_info.len() ==> #[trigger] v.os_info[i].client_id == i + 1
    &&& forall|i: int, j: int| 0 <= i < j < v.clients.len() ==> (#[trigger] v.clients[i]).uuid != (#[trigger] v.clients[j]).uuid
}

impl EndpointRegistry {
    pub open spec fn wf(&self) -> bool {
        registry_wf(self@)
    }

    pub fn new() -> (r: EndpointRegistry)
        ensures
            r.wf(),
            r@.clients.len() == 0,
    {
        EndpointRegistry { clients: Vec::new(), os_info: Vec::new() }
    }

    pub fn clients(&self) -> (r: &Vec<Client>)
        ensures
            r@ == self@.clients,
    {
        &self.clients
    }

    pub fn os_infos(&self) -> (r: &Vec<OsInfo>)
        ensures
            r@ == self@.os_info,
    {
        &self.os_info
    }

    /// The endpoint id of `uuid`, if it has registered.
    pub fn get_client(&self, uuid: u128) -> (r: Option<i32>)
        requires
            self.wf(),
        ensures
            r matches Some(id) ==> 1 <= id <= self@.clients.len() && self@.clients[id - 1].uuid == uuid,
            r is None ==> !has_uuid(self@.clients, uuid),
    {
        let mut i: usize = 0;
        while i < self.clients.len()
            invariant
                i <= self@.clients.len(),
                self@.clients == self.clients@,
                self.wf(),
                forall|j: int| 0 <= j < i ==> self@.clients[j].uuid != uuid,
            decreases self@.clients.len() - i,
        {
            if self.clients[i].uuid == uuid {
                return Some(self.clients[i].id);
            }
            i = i + 1;
        }
        None
    }

    /// Upsert of the endpoint keyed by `uuid`, with `name` as its computer name.
    pub fn upsert_endpoint(&mut self, name: &String, uuid: u128) -> (r: i32)
        requires
            old(self).wf(),
            old(self)@.clients.len() < i32::MAX,
        ensures
            final(self).wf(),
            endpoint_registered(old(self)@, name@, uuid, r, final(self)@),
    {
        let ghost before = self@;
        match self.get_client(uuid) {
            Some(id) => {
                let idx = (id - 1) as usize;
                let old_row = &self.os_info[idx];
                let row = OsInfo {
                    client_id: old_row.client_id,
                    computer_name: name.clone(),
                    os: crate::text::copy_opt_text(&old_row.os),
                    os_version: crate::text::copy_opt_text(&old_row.os_version),
                    domain: crate::text::copy_opt_text(&old_row.domain),
                };
                self.os_info.set(idx, row);
                assert(self@.os_info =~= before.os_info.update(id - 1, self@.os_info[id - 1]));
                assert(has_uuid(before.clients, uuid));
                id
            },
            None => {
                let id = (self.clients.len() + 1) as i32;
                self.clients.push(Client { id, uuid });
                self.os_info.push(OsInfo { client_id: id, computer_name: name.clone(), os: None, os_version: None, domain: None });
                assert(self@.os_info.drop_last() =~= before.os_info);
                assert forall|i: int| 0 <= i < self@.clients.len() implies #[trigger] self@.clients[i].id == i + 1 by {
                    if i < before.clients.len() {
                        assert(self@.clients[i] == before.clients[i]);
                    }
                }
                assert forall|i: int| 0 <= i < self@.os_info.len() implies #[trigger] self@.os_info[i].client_id == i + 1 by {
                    if i < before.os_info.len() {
                        assert(self@.os_info[i] == before.os_info[i]);
                    }
                }
                assert forall|i: int, j: int| 0 <= i < j < self@.clients.len() implies (#[trigger] self@.clients[i]).uuid != (#[trigger] self@.clients[j]).uuid by {
                    assert(self@.clients[i] == before.clients[i]);
                    if j < before.clients.len() {
                        assert(self@.clients[j] == before.clients[j]);
                    }
                }
                id
            },
        }
    }

    /// A UUID that no endpoint has, from at most `UUID_DRAWS` random draws.
    fn fresh_uuid(&self) -> (r: Option<u128>)
        requires
            self.wf(),
        ensures
            r matches Some(u) ==> !has_uuid(self@.clients, u),
    {
        let mut k: usize = 0;
        while k < UUID_DRAWS
            invariant
                k <= UUID_DRAWS,
                self.wf(),
            decreases UUID_DRAWS - k,
        {
            let candidate = new_uuid();
            if self.get_client(candidate).is_none() {
                return Some(candidate);
            }
            k = k + 1;
        }
        None
    }

    /// Registers an endpoint: a request without a UUID is given a fresh one
    /// that no endpoint has; where every draw collides, nothing changes.
    /// The answer carries the name and the UUID the endpoint is known by.
    pub fn register(&mut self, input: &Register) -> (r: Result<Register, RegisterError>)
        requires
            old(self).wf(),
            old(self)@.clients.len() < i32::MAX,
        ensures
            final(self).wf(),
            input.uuid is Some ==> r is Ok,
            r is Err ==> r == Err::<Register, RegisterError>(RegisterError::NoFreshUuid) && final(self)@ == old(self)@,
            r is Ok ==> r.unwrap().name == input.name && r.unwrap().uuid is Some,
            r is Ok && input.uuid is Some ==> r.unwrap().uuid == input.uuid,
            r is Ok && input.uuid is None ==> !has_uuid(old(self)@.clients, r.unwrap().uuid.unwrap()),
            r is Ok ==> exists|id: i32| #[trigger] endpoint_registered(old(self)@, input.name@, r.unwrap().uuid.unwrap(), id, final(self)@),
    {
        let uuid = match input.uuid {
            Some(u) => u,
            None => match self.fresh_uuid() {
                Some(u) => u,
                None => return Err(RegisterError::NoFreshUuid),
            },
        };
        let ghost before = self@;
        let id = self.upsert_endpoint(&input.name, uuid);
        assert(endpoint_registered(before, input.name@, uuid, id, self@));
        let a = Register { name: input.name.clone(), uuid: Some(uuid) };
        assert(a.uuid.unwrap() == uuid);
        assert(exists|i: i32| #[trigger] endpoint_registered(before, input.name@, a.uuid.unwrap(), i, self@));
        let r = Ok(a);
        assert(r.unwrap() == a);
        r
    }

    /// Stores the operating-system facts reported by endpoint `client_id`;
    /// `false` where no such endpoint exists.
    pub fn update_os_info(&mut self, client_id: i32, info: &WinOsInfo) -> (r: bool)
        requires
            old(self).wf(),
        ensures
            final(self).wf(),
            r == (1 <= client_id <= old(self)@.clients.len()),
            final(self)@.clients == old(self)@.clients,
            r ==> final(self)@.os_info == old(self)@.os_info.update(client_id - 1, OsInfo {
                client_id,
                computer_name: info.computer_name,
                os: Some(info.operating_system),
                os_version: Some(info.os_version),
                domain: Some(info.domain),
            }),
            !r ==> final(self)@.os_info == old(self)@.os_info,
    {
        if client_id < 1 || client_id as usize > self.os_info.len() {
            return false;
        }
        let ghost before = self@;
        let row = OsInfo {
            client_id,
            computer_name: info.computer_name.clone(),
            os: Some(info.operating_system.clone()),
            os_version: Some(info.os_version.clone()),
            domain: Some(info.domain.clone()),
        };
        self.os_info.set((client_id - 1) as usize, row);
        assert forall|i: int| 0 <= i < self@.os_info.len() implies #[trigger] self@.os_info[i].client_id == i + 1 by {
            if i != client_id - 1 {
                assert(self@.os_info[i] == before.os_info[i]);
            }
        }
        true
    }
}

/// An endpoint that registers again with the UUID it was given, under a new
/// name, keeps its endpoint row and UUID and has its name replaced.
pub proof fn lemma_reregistration_keeps_endpoint(
    s0: RegistryView,
    s1: RegistryView,
    s2: RegistryView,
    first_name: Seq<char>,
    new_name: Seq<char>,
    uuid: u128,
    id1: i32,
    id2: i32,
)
    requires
        registry_wf(s1),
        endpoint_registered(s0, first_name, uuid, id1, s1),
        endpoint_registered(s1, new_name, uuid, id2, s2),
    ensures
        id2 == id1,
        s2.clients == s1.clients,
        s2.clients[id1 - 1].uuid == uuid,
        s2.os_info[id1 - 1].computer_name@ == new_name,
        s2.os_info.len() == s1.os_info.len(),
        forall|i: int| 0 <= i < s1.os_info.len() && i != id1 - 1 ==> s2.os_info[i] == s1.os_info[i],
{
    assert(has_uuid(s1.clients, uuid)) by {
        assert(s1.clients[id1 - 1].uuid == uuid);
    }
    if id1 != id2 {
        if id1 < id2 {
            assert(s1.clients[id1 - 1].uuid != s1.clients[id2 - 1].uuid);
        } else {
            assert(s1.clients[id2 - 1].uuid != s1.clients[id1 - 1].uuid);
        }
    }
}

} // verus!
