use vstd::prelude::*;
use crate::text::{trim_suffix_all, trim_end_all, copy_opt_text};

verus! {

/// One installed program as an endpoint reports it.
#[derive(Debug, Clone, PartialEq, Eq)]
pub struct SoftwareEntry {
    pub name: String,
    pub version: String,
    pub publisher: Option<String>,
}

/// A full software snapshot of one endpoint.
#[derive(Debug, Clone)]
pub struct SoftwareLibrary {
    pub software: Vec<SoftwareEntry>,
}

/// A program, shared by every endpoint; unique by (name, publisher).
#[derive(Debug, Clone, PartialEq, Eq)]
pub struct SoftwareInfo {
    pub id: i32,
    pub name: String,
    pub publisher: String,
}

/// A version of a program; unique by (software_id, version).
#[derive(Debug, Clone, PartialEq, Eq)]
pub struct SoftwareVersion {
    pub id: i32,
    pub software_id: i32,
    pub version: String,
}

/// Presence of a software version on an endpoint.
#[derive(Debug, Clone, Copy, PartialEq, Eq, Structural)]
pub struct SoftwareList {
    pub client_id: i32,
    pub version_id: i32,
}

pub struct CatalogView {
    pub infos: Seq<SoftwareInfo>,
    pub versions: Seq<SoftwareVersion>,
    pub presence: Seq<SoftwareList>,
}

/// The publisher under which a program is filed: a missing one is the empty string.
pub open spec fn publisher_key(p: Option<String>) -> Seq<char> {
    match p {
        Some(s) => s@,
        None => Seq::empty(),
    }
}

pub open spec fn info_matches(i: SoftwareInfo, name: Seq<char>, publisher: Seq<char>) -> bool {
    i.name@ == name && i.publisher@ == publisher
}

pub open spec fn version_matches(v: SoftwareVersion, software_id: i32, version: Seq<char>) -> bool {
    v.software_id == software_id && v.version@ == version
}

/// Version row `id` is `version` of the program (name, publisher).
pub open spec fn names_version(c: CatalogView, id: i32, name: Seq<char>, version: Seq<char>, publisher: Seq<char>) -> bool {
    &&& 1 <= id <= c.versions.len()
    &&& c.versions[id - 1].version@ == version
    &&& 1 <= c.versions[id - 1].software_id <= c.infos.len()
    &&& info_matches(c.infos[c.versions[id - 1].software_id - 1], name, publisher)
}

pub open spec fn has_info(infos: Seq<SoftwareInfo>, name: Seq<char>, publisher: Seq<char>) -> bool {
    exists|i: int| 0 <= i < infos.len() && info_matches(infos[i], name, publisher)
}

pub open spec fn has_version(c: CatalogView, name: Seq<char>, version: Seq<char>, publisher: Seq<char>) -> bool {
    exists|id: i32| names_version(c, id, name, version, publisher)
}

/// What a get-or-create of (name, version, publisher) does: it returns the
/// version row of that key, adds a program row only where the program is
/// missing and a version row only where the version is missing, and keeps
/// every row it had.
pub open spec fn version_resolved(
    before: CatalogView,
    name: Seq<char>,
    version: Seq<char>,
    publisher: Seq<char>,
    r: i32,
    after: CatalogView,
) -> bool {
    &&& names_version(after, r, name, version, publisher)
    &&& after.presence == before.presence
    &&& has_info(before.infos, name, publisher) ==> after.infos == before.infos
    &&& !has_info(before.infos, name, publisher) ==> after.infos.len() == before.infos.len() + 1
        && after.infos.drop_last() == before.infos
    &&& has_version(before, name, version, publisher) ==> after.versions == before.versions
    &&& !has_version(before, name, version, publisher) ==> after.versions.len() == before.versions.len() + 1
        && after.versions.drop_last() == before.versions
}

/// Why a get-or-create was not applied.
#[derive(Debug, Clone, Copy, PartialEq, Eq, Structural)]
pub enum CatalogError {
    /// A program or version row is missing and its table has no id left.
    CatalogFull,
}

/// Resolving (name, version, publisher) would need a row in a table whose ids are all taken.
pub open spec fn catalog_full_for(before: CatalogView, name: Seq<char>, version: Seq<char>, publisher: Seq<char>) -> bool {
    (!has_info(before.infos, name, publisher) && before.infos.len() >= i32::MAX)
        || (!has_version(before, name, version, publisher) && before.versions.len() >= i32::MAX)
}

/// What a get-or-create returns and leaves: the version row of the key where
/// the rows it needs can be given ids, and no change otherwise.
pub open spec fn resolve_outcome(
    before: CatalogView,
    name: Seq<char>,
    version: Seq<char>,
    publisher: Seq<char>,
    r: Result<i32, CatalogError>,
    after: CatalogView,
) -> bool {
    &&& catalog_full_for(before, name, version, publisher) ==> r == Err::<i32, CatalogError>(CatalogError::CatalogFull) && after == before
    &&& !catalog_full_for(before, name, version, publisher) ==> (r matches Ok(id) && version_resolved(before, name, version, publisher, id, after))
}

/// The presence rows that do not belong to `client_id`, in order.
pub open spec fn presence_of_others(rows: Seq<SoftwareList>, client_id: i32) -> Seq<SoftwareList>
    decreases rows.len(),
{
    if rows.len() == 0 {
        Seq::empty()
    } else {
        let prev = presence_of_others(rows.drop_last(), client_id);
        if rows.last().client_id != client_id {
            prev.push(rows.last())
        } else {
            prev
        }
    }
}

/// `after` keeps every program and version row of `before`, in place.
pub open spec fn catalog_extends(before: CatalogView, after: CatalogView) -> bool {
    &&& before.infos.len() <= after.infos.len()
    &&& after.infos.subrange(0, before.infos.len() as int) == before.infos
    &&& before.versions.len() <= after.versions.len()
    &&& after.versions.subrange(0, before.versions.len() as int) == before.versions
}

pub proof fn lemma_names_version_kept(before: CatalogView, after: CatalogView, id: i32, name: Seq<char>, version: Seq<char>, publisher: Seq<char>)
    requires
        catalog_extends(before, after),
        names_version(before, id, name, version, publisher),
    ensures
        names_version(after, id, name, version, publisher),
{
    assert(after.versions[id - 1] == after.versions.subrange(0, before.versions.len() as int)[id - 1]);
    let s = before.versions[id - 1].software_id;
    assert(after.infos[s - 1] == after.infos.subrange(0, before.infos.len() as int)[s - 1]);
}

/// The shared software catalog and the per-endpoint presence rows.
pub struct SoftwareCatalog {
    infos: Vec<SoftwareInfo>,
    versions: Vec<SoftwareVersion>,
    presence: Vec<SoftwareList>,
}

impl View for SoftwareCatalog {
    type V = CatalogView;

    closed spec fn view(&self) -> CatalogView {
        CatalogView { infos: self.infos@, versions: self.versions@, presence: self.presence@ }
    }
}

/// Row ids are 1, 2, ... in creation order, every version names a program,
/// and the natural keys are unique.
pub open spec fn catalog_wf(c: CatalogView) -> bool {
    &&& forall|i: int| 0 <= i < c.infos.len() ==> #[trigger] c.infos[i].id == i + 1
    &&& forall|i: int| 0 <= i < c.versions.len() ==> #[trigger] c.versions[i].id == i + 1
    &&& forall|i: int| 0 <= i < c.versions.len() ==> 1 <= #[trigger] c.versions[i].software_id <= c.infos.len()
    &&& forall|i: int, j: int| 0 <= i < j < c.infos.len() ==> !info_matches(#[trigger] c.infos[i], (#[trigger] c.infos[j]).name@, c.infos[j].publisher@)
    &&& forall|i: int, j: int| 0 <= i < j < c.versions.len() ==> !version_matches(#[trigger] c.versions[i], (#[trigger] c.versions[j]).software_id, c.versions[j].version@)
}

impl SoftwareCatalog {
    pub open spec fn wf(&self) -> bool {
        catalog_wf(self@)
    }

    /// Room for `n` more rows in each table.
    pub open spec fn has_room(&self, n: int) -> bool {
        self@.infos.len() + n < i32::MAX && self@.versions.len() + n < i32::MAX
    }

    pub fn new() -> (r: SoftwareCatalog)
        ensures
            r.wf(),
            r@.infos.len() == 0,
            r@.versions.len() == 0,
            r@.presence.len() == 0,
    {
        SoftwareCatalog { infos: Vec::new(), versions: Vec::new(), presence: Vec::new() }
    }

    pub fn infos(&self) -> (r: &Vec<SoftwareInfo>)
        ensures
            r@ == self@.infos,
    {
        &self.infos
    }

    pub fn versions(&self) -> (r: &Vec<SoftwareVersion>)
        ensures
            r@ == self@.versions,
    {
        &self.versions
    }

    pub fn presence(&self) -> (r: &Vec<SoftwareList>)
        ensures
            r@ == self@.presence,
    {
        &self.presence
    }

    /// Whether `n` more programs and versions can still be given ids.
    pub fn room_for(&self, n: usize) -> (r: bool)
        ensures
            r == self.has_room(n as int),
    {
        self.infos.len() < i32::MAX as usize && n < i32::MAX as usize - self.infos.len()
            && self.versions.len() < i32::MAX as usize && n < i32::MAX as usize - self.versions.len()
    }

    fn find_info(&self, name: &String, publisher: &String) -> (r: Option<usize>)
        ensures
            r matches Some(i) ==> i < self@.infos.len() && info_matches(self@.infos[i as int], name@, publisher@),
            r is None ==> !has_info(self@.infos, name@, publisher@),
    {
        let mut i: usize = 0;
        while i < self.infos.len()
            invariant
                i <= self@.infos.len(),
                self@.infos == self.infos@,
                forall|j: int| 0 <= j < i ==> !info_matches(self@.infos[j], name@, publisher@),
            decreases self@.infos.len() - i,
        {
            if self.infos[i].name == *name && self.infos[i].publisher == *publisher {
                return Some(i);
            }
            i = i + 1;
        }
        None
    }

    fn find_version(&self, software_id: i32, version: &String) -> (r: Option<usize>)
        ensures
            r matches Some(i) ==> i < self@.versions.len() && version_matches(self@.versions[i as int], software_id, version@),
            r is None ==> forall|j: int| 0 <= j < self@.versions.len() ==> !version_matches(self@.versions[j], software_id, version@),
    {
        let mut i: usize = 0;
        while i < self.versions.len()
            invariant
                i <= self@.versions.len(),
                self@.versions == self.versions@,
                forall|j: int| 0 <= j < i ==> !version_matches(self@.versions[j], software_id, version@),
            decreases self@.versions.len() - i,
        {
            if self.versions[i].software_id == software_id && self.versions[i].version == *version {
                return Some(i);
            }
            i = i + 1;
        }
        None
    }

    fn push_info(&mut self, name: &String, publisher: &String) -> (idx: usize)
        requires
            old(self).wf(),
            old(self)@.infos.len() < i32::MAX,
            !has_info(old(self)@.infos, name@, publisher@),
        ensures
            final(self).wf(),
            idx == old(self)@.infos.len(),
            final(self)@.infos.len() == old(self)@.infos.len() + 1,
            final(self)@.infos.drop_last() == old(self)@.infos,
            info_matches(final(self)@.infos[idx as int], name@, publisher@),
            final(self)@.versions == old(self)@.versions,
            final(self)@.presence == old(self)@.presence,
    {
        let ghost before = self@;
        let id = (self.infos.len() + 1) as i32;
        self.infos.push(SoftwareInfo { id, name: name.clone(), publisher: publisher.clone() });
        assert(self@.infos.drop_last() =~= before.infos);
        assert forall|i: int, j: int| 0 <= i < j < self@.infos.len() implies !info_matches(#[trigger] self@.infos[i], (#[trigger] self@.infos[j]).name@, self@.infos[j].publisher@) by {
            if j < before.infos.len() {
                assert(self@.infos[i] == before.infos[i] && self@.infos[j] == before.infos[j]);
            } else {
                assert(self@.infos[i] == before.infos[i]);
            }
        }
        assert forall|i: int| 0 <= i < self@.infos.len() implies #[trigger] self@.infos[i].id == i + 1 by {
            if i < before.infos.len() {
                assert(self@.infos[i] == before.infos[i]);
            }
        }
        assert(self@.versions == before.versions);
        assert forall|i: int| 0 <= i < self@.versions.len() implies 1 <= #[trigger] self@.versions[i].software_id <= self@.infos.len() by {
            assert(self@.versions[i] == before.versions[i]);
        }
        assert forall|i: int| 0 <= i < self@.versions.len() implies #[trigger] self@.versions[i].id == i + 1 by {
            assert(self@.versions[i] == before.versions[i]);
        }
        assert forall|i: int, j: int| 0 <= i < j < self@.versions.len() implies !version_matches(#[trigger] self@.versions[i], (#[trigger] self@.versions[j]).software_id, self@.versions[j].version@) by {
            assert(self@.versions[i] == before.versions[i] && self@.versions[j] == before.versions[j]);
        }
        self.infos.len() - 1
    }

    fn push_version(&mut self, software_id: i32, version: &String) -> (id: i32)
        requires
            old(self).wf(),
            old(self)@.versions.len() < i32::MAX,
            1 <= software_id <= old(self)@.infos.len(),
            forall|j: int| 0 <= j < old(self)@.versions.len() ==> !version_matches(old(self)@.versions[j], software_id, version@),
        ensures
            final(self).wf(),
            id == old(self)@.versions.len() + 1,
            final(self)@.versions.len() == old(self)@.versions.len() + 1,
            final(self)@.versions.drop_last() == old(self)@.versions,
            final(self)@.versions.last().software_id == software_id,
            final(self)@.versions.last().version@ == version@,
            final(self)@.infos == old(self)@.infos,
            final(self)@.presence == old(self)@.presence,
    {
        let ghost mid = self@;
        let id = (self.versions.len() + 1) as i32;
        self.versions.push(SoftwareVersion { id, software_id, version: version.clone() });
        assert(self@.versions.drop_last() =~= mid.versions);
        assert forall|i: int, j: int| 0 <= i < j < self@.versions.len() implies !version_matches(#[trigger] self@.versions[i], (#[trigger] self@.versions[j]).software_id, self@.versions[j].version@) by {
            if j < mid.versions.len() {
                assert(self@.versions[i] == mid.versions[i] && self@.versions[j] == mid.versions[j]);
            } else {
                assert(self@.versions[i] == mid.versions[i]);
            }
        }
        assert forall|i: int| 0 <= i < self@.versions.len() implies #[trigger] self@.versions[i].id == i + 1
            && 1 <= self@.versions[i].software_id <= self@.infos.len() by {
            if i < mid.versions.len() {
                assert(self@.versions[i] == mid.versions[i]);
            }
        }
        id
    }

    /// Get-or-create of the version row for (name, version, publisher); a
    /// missing publisher is filed as the empty string. Where a row is missing
    /// and its table has no id left, nothing changes.
    pub fn resolve_software_version(&mut self, name: &String, version: &String, publisher: &Option<String>) -> (r: Result<i32, CatalogError>)
        requires
            old(self).wf(),
        ensures
            final(self).wf(),
            resolve_outcome(old(self)@, name@, version@, publisher_key(*publisher), r, final(self)@),
    {
        let ghost before = self@;
        let publisher = match publisher {
            Some(p) => p.clone(),
            None => String::new(),
        };
        match self.find_info(name, &publisher) {
            None => {
                proof {
                    if has_version(before, name@, version@, publisher@) {
                        let id = choose|id: i32| names_version(before, id, name@, version@, publisher@);
                        let s = before.versions[id - 1].software_id;
                        assert(info_matches(before.infos[s - 1], name@, publisher@));
                    }
                }
                if self.infos.len() >= i32::MAX as usize || self.versions.len() >= i32::MAX as usize {
                    return Err(CatalogError::CatalogFull);
                }
                let idx = self.push_info(name, &publisher);
                let software_id = self.infos[idx].id;
                assert(software_id == idx + 1);
                let id = self.push_version(software_id, version);
                assert(names_version(self@, id, name@, version@, publisher@));
                Ok(id)
            },
            Some(idx) => {
                let software_id = self.infos[idx].id;
                assert(software_id == idx + 1);
                assert(has_info(before.infos, name@, publisher@));
                match self.find_version(software_id, version) {
                    Some(i) => {
                        assert(names_version(before, self@.versions[i as int].id, name@, version@, publisher@));
                        Ok(self.versions[i].id)
                    },
                    None => {
                        proof {
                            if has_version(before, name@, version@, publisher@) {
                                let id = choose|id: i32| names_version(before, id, name@, version@, publisher@);
                                let s = before.versions[id - 1].software_id;
                                assert(info_matches(before.infos[s - 1], name@, publisher@));
                                if s - 1 != idx as int {
                                    assert(before.infos[s - 1].name@ == before.infos[idx as int].name@);
                                }
                                assert(version_matches(before.versions[id - 1], software_id, version@));
                            }
                        }
                        if self.versions.len() >= i32::MAX as usize {
                            return Err(CatalogError::CatalogFull);
                        }
                        let id = self.push_version(software_id, version);
                        assert(names_version(self@, id, name@, version@, publisher@));
                        Ok(id)
                    },
                }
            },
        }
    }

    /// Replaces the software presence rows of `client_id` with the versions of
    /// a full snapshot, creating programs and versions the catalog lacks.
    pub fn update_software_lib(&mut self, client_id: i32, lib: &SoftwareLibrary) -> (r: Vec<i32>)
        requires
            old(self).wf(),
            old(self).has_room(lib.software@.len() as int),
        ensures
            final(self).wf(),
            catalog_extends(old(self)@, final(self)@),
            r@.len() == lib.software@.len(),
            forall|i: int| 0 <= i < r@.len() ==> names_version(final(self)@, #[trigger] r@[i], lib.software@[i].name@,
                lib.software@[i].version@, publisher_key(lib.software@[i].publisher)),
            final(self)@.presence == presence_of_others(old(self)@.presence, client_id)
                + r@.map_values(|v: i32| SoftwareList { client_id, version_id: v }),
    {
        let ghost start = self@;
        assert(start.infos.subrange(0, start.infos.len() as int) =~= start.infos);
        assert(start.versions.subrange(0, start.versions.len() as int) =~= start.versions);
        let mut ids: Vec<i32> = Vec::new();
        let mut i: usize = 0;
        while i < lib.software.len()
            invariant
                i <= lib.software@.len(),
                self.wf(),
                catalog_extends(start, self@),
                self@.infos.len() <= start.infos.len() + i,
                self@.versions.len() <= start.versions.len() + i,
                start.infos.len() + lib.software@.len() < i32::MAX,
                start.versions.len() + lib.software@.len() < i32::MAX,
                self@.presence == start.presence,
                ids@.len() == i,
                forall|j: int| 0 <= j < i ==> names_version(self@, #[trigger] ids@[j], lib.software@[j].name@,
                    lib.software@[j].version@, publisher_key(lib.software@[j].publisher)),
            decreases lib.software@.len() - i,
        {
            let e = &lib.software[i];
            let ghost prev = self@;
            let id = match self.resolve_software_version(&e.name, &e.version, &e.publisher) {
                Ok(id) => id,
                Err(_) => {
                    proof {
                        assert(!catalog_full_for(prev, e.name@, e.version@, publisher_key(e.publisher)));
                    }
                    0
                },
            };
            assert(catalog_extends(prev, self@)) by {
                assert(self@.infos.subrange(0, prev.infos.len() as int) =~= prev.infos);
                assert(self@.versions.subrange(0, prev.versions.len() as int) =~= prev.versions);
            }
            assert forall|j: int| 0 <= j < i implies names_version(self@, #[trigger] ids@[j], lib.software@[j].name@,
                lib.software@[j].version@, publisher_key(lib.software@[j].publisher)) by {
                lemma_names_version_kept(prev, self@, ids@[j], lib.software@[j].name@, lib.software@[j].version@,
                    publisher_key(lib.software@[j].publisher));
            }
            assert(catalog_extends(start, self@)) by {
                assert(self@.infos.subrange(0, start.infos.len() as int) =~= prev.infos.subrange(0, start.infos.len() as int));
                assert(self@.versions.subrange(0, start.versions.len() as int) =~= prev.versions.subrange(0, start.versions.len() as int));
            }
            ids.push(id);
            i = i + 1;
        }
        let mut kept: Vec<SoftwareList> = Vec::new();
        let mut k: usize = 0;
        while k < self.presence.len()
            invariant
                k <= self.presence@.len(),
                self@.presence == start.presence,
                kept@ == presence_of_others(start.presence.subrange(0, k as int), client_id),
            decreases self.presence@.len() - k,
        {
            assert(start.presence.subrange(0, k + 1).drop_last() =~= start.presence.subrange(0, k as int));
            if self.presence[k].client_id != client_id {
                kept.push(self.presence[k]);
            }
            k = k + 1;
        }
        assert(start.presence.subrange(0, start.presence.len() as int) =~= start.presence);
        let ghost others = kept@;
        let mut j: usize = 0;
        while j < ids.len()
            invariant
                j <= ids@.len(),
                kept@ == others + ids@.subrange(0, j as int).map_values(|v: i32| SoftwareList { client_id, version_id: v }),
            decreases ids@.len() - j,
        {
            kept.push(SoftwareList { client_id, version_id: ids[j] });
            j = j + 1;
            assert(kept@ =~= others + ids@.subrange(0, j as int).map_values(|v: i32| SoftwareList { client_id, version_id: v }));
        }
        assert(ids@.subrange(0, ids@.len() as int) =~= ids@);
        self.presence = kept;
        ids
    }
}

/// Entry `i` is followed by another entry of the same name.
pub open spec fn superseded(s: Seq<SoftwareEntry>, i: int) -> bool {
    exists|j: int| i < j < s.len() && s[j].name@ == s[i].name@
}

/// The last entry of each name among the first `n` entries, in order.
pub open spec fn latest_entries(s: Seq<SoftwareEntry>, n: int) -> Seq<SoftwareEntry>
    decreases n,
{
    if n <= 0 {
        Seq::empty()
    } else {
        let prev = latest_entries(s, n - 1);
        if !superseded(s, n - 1) {
            prev.push(s[n - 1])
        } else {
            prev
        }
    }
}

/// Collector-side software inventory.
pub struct Software;

impl Software {
    /// An installed program from its uninstall entry: trailing copies of the
    /// version, then trailing blanks, are trimmed off the display name.
    pub fn software_entry(display_name: &String, version: &String, publisher: &Option<String>) -> (r: SoftwareEntry)
        ensures
            r.name@ == trim_suffix_all(trim_suffix_all(display_name@, version@), " "@),
            r.version == *version,
            r.publisher == *publisher,
    {
        let without_version = trim_end_all(display_name.as_str(), version.as_str());
        let name = trim_end_all(without_version.as_str(), " ");
        SoftwareEntry { name, version: version.clone(), publisher: copy_opt_text(publisher) }
    }

    /// The software snapshot of an endpoint: one entry per name, the last one
    /// found for it.
    pub fn get_software_list(entries: &Vec<SoftwareEntry>) -> (r: SoftwareLibrary)
        ensures
            r.software@ == latest_entries(entries@, entries@.len() as int),
    {
        let mut out: Vec<SoftwareEntry> = Vec::new();
        let mut i: usize = 0;
        while i < entries.len()
            invariant
                i <= entries@.len(),
                out@ == latest_entries(entries@, i as int),
            decreases entries@.len() - i,
        {
            let mut later = false;
            let mut j: usize = i + 1;
            while j < entries.len()
                invariant
                    i < j <= entries@.len(),
                    later == exists|k: int| i < k < j && entries@[k].name@ == entries@[i as int].name@,
                decreases entries@.len() - j,
            {
                if entries[j].name == entries[i].name {
                    later = true;
                }
                j = j + 1;
            }
            if !later {
                let e = &entries[i];
                out.push(SoftwareEntry { name: e.name.clone(), version: e.version.clone(), publisher: copy_opt_text(&e.publisher) });
            }
            i = i + 1;
        }
        SoftwareLibrary { software: out }
    }
}

/// Resolving the same (name, version, publisher) again, from any endpoint,
/// succeeds, returns the same version id and creates no program or version row.
pub proof fn lemma_resolve_dedups(
    c0: CatalogView,
    c1: CatalogView,
    c2: CatalogView,
    name: Seq<char>,
    version: Seq<char>,
    publisher: Seq<char>,
    r1: i32,
    r2: Result<i32, CatalogError>,
)
    requires
        catalog_wf(c1),
        resolve_outcome(c0, name, version, publisher, Ok(r1), c1),
        resolve_outcome(c1, name, version, publisher, r2, c2),
    ensures
        r2 == Ok::<i32, CatalogError>(r1),
        c2 == c1,
{
    let s1 = c1.versions[r1 - 1].software_id;
    assert(has_info(c1.infos, name, publisher)) by {
        assert(info_matches(c1.infos[s1 - 1], name, publisher));
    }
    assert(has_version(c1, name, version, publisher));
    let r2 = r2.unwrap();
    let s2 = c1.versions[r2 - 1].software_id;
    if s1 != s2 {
        assert(c1.infos[s1 - 1].id == s1 && c1.infos[s2 - 1].id == s2);
        if s1 < s2 {
            assert(!info_matches(c1.infos[s1 - 1], c1.infos[s2 - 1].name@, c1.infos[s2 - 1].publisher@));
        } else {
            assert(!info_matches(c1.infos[s2 - 1], c1.infos[s1 - 1].name@, c1.infos[s1 - 1].publisher@));
        }
    }
    if r1 < r2 {
        assert(!version_matches(c1.versions[r1 - 1], c1.versions[r2 - 1].software_id, c1.versions[r2 - 1].version@));
    } else if r2 < r1 {
        assert(!version_matches(c1.versions[r2 - 1], c1.versions[r1 - 1].software_id, c1.versions[r1 - 1].version@));
    }
}

} // verus!
