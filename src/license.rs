use vstd::prelude::*;

verus! {

/// A license key as an endpoint reports it.
#[derive(Debug, Clone, PartialEq, Eq)]
pub struct License {
    pub name: String,
    pub key: String,
}

/// Every license key of one endpoint.
#[derive(Debug, Clone)]
pub struct LicenseBundle {
    pub licenses: Vec<License>,
}

/// A stored license key; unique by (client_id, name).
#[derive(Debug, Clone, PartialEq, Eq)]
pub struct LicenseKey {
    pub id: i32,
    pub client_id: i32,
    pub name: String,
    pub key: String,
}

pub open spec fn has_name(rows: Seq<LicenseKey>, name: Seq<char>) -> bool {
    exists|i: int| 0 <= i < rows.len() && rows[i].name@ == name
}

pub open spec fn has_name_and_key(rows: Seq<LicenseKey>, name: Seq<char>, key: Seq<char>) -> bool {
    exists|i: int| 0 <= i < rows.len() && rows[i].name@ == name && rows[i].key@ == key
}

pub open spec fn reports_name(ls: Seq<License>, name: Seq<char>) -> bool {
    exists|i: int| 0 <= i < ls.len() && ls[i].name@ == name
}

/// Reported keys whose name is not stored yet, in report order.
pub open spec fn licenses_to_add(ls: Seq<License>, rows: Seq<LicenseKey>) -> Seq<License>
    decreases ls.len(),
{
    if ls.len() == 0 {
        Seq::empty()
    } else {
        let prev = licenses_to_add(ls.drop_last(), rows);
        if !has_name(rows, ls.last().name@) {
            prev.push(ls.last())
        } else {
            prev
        }
    }
}

/// Reported keys whose name is stored with another key, in report order.
pub open spec fn licenses_to_update(ls: Seq<License>, rows: Seq<LicenseKey>) -> Seq<License>
    decreases ls.len(),
{
    if ls.len() == 0 {
        Seq::empty()
    } else {
        let prev = licenses_to_update(ls.drop_last(), rows);
        let l = ls.last();
        if has_name(rows, l.name@) && !has_name_and_key(rows, l.name@, l.key@) {
            prev.push(l)
        } else {
            prev
        }
    }
}

/// Ids of stored keys whose name is no longer reported, in row order.
pub open spec fn licenses_to_delete(rows: Seq<LicenseKey>, ls: Seq<License>) -> Seq<i32>
    decreases rows.len(),
{
    if rows.len() == 0 {
        Seq::empty()
    } else {
        let prev = licenses_to_delete(rows.drop_last(), ls);
        if !reports_name(ls, rows.last().name@) {
            prev.push(rows.last().id)
        } else {
            prev
        }
    }
}

/// The writes that take the stored keys of one endpoint to a reported bundle.
#[derive(Debug, Clone)]
pub struct LicensePlan {
    pub to_add: Vec<License>,
    pub to_update: Vec<License>,
    pub to_delete: Vec<i32>,
}

fn stored_name(rows: &Vec<LicenseKey>, name: &String) -> (r: bool)
    ensures
        r == has_name(rows@, name@),
{
    let mut i: usize = 0;
    while i < rows.len()
        invariant
            i <= rows@.len(),
            forall|j: int| 0 <= j < i ==> rows@[j].name@ != name@,
        decreases rows@.len() - i,
    {
        if rows[i].name == *name {
            return true;
        }
        i = i + 1;
    }
    false
}

fn stored_name_and_key(rows: &Vec<LicenseKey>, name: &String, key: &String) -> (r: bool)
    ensures
        r == has_name_and_key(rows@, name@, key@),
{
    let mut i: usize = 0;
    while i < rows.len()
        invariant
            i <= rows@.len(),
            forall|j: int| 0 <= j < i ==> !(rows@[j].name@ == name@ && rows@[j].key@ == key@),
        decreases rows@.len() - i,
    {
        if rows[i].name == *name && rows[i].key == *key {
            return true;
        }
        i = i + 1;
    }
    false
}

fn reported_name(ls: &Vec<License>, name: &String) -> (r: bool)
    ensures
        r == reports_name(ls@, name@),
{
    let mut i: usize = 0;
    while i < ls.len()
        invariant
            i <= ls@.len(),
            forall|j: int| 0 <= j < i ==> ls@[j].name@ != name@,
        decreases ls@.len() - i,
    {
        if ls[i].name == *name {
            return true;
        }
        i = i + 1;
    }
    false
}

/// Diffs the reported keys of one endpoint against its stored keys: a new
/// name is added, a known name with another key is updated, and a stored name
/// that is no longer reported is deleted.
pub fn plan_license_keys(existing: &Vec<LicenseKey>, incoming: &Vec<License>) -> (r: LicensePlan)
    ensures
        r.to_add@ == licenses_to_add(incoming@, existing@),
        r.to_update@ == licenses_to_update(incoming@, existing@),
        r.to_delete@ == licenses_to_delete(existing@, incoming@),
{
    let mut to_add: Vec<License> = Vec::new();
    let mut to_update: Vec<License> = Vec::new();
    let mut i: usize = 0;
    while i < incoming.len()
        invariant
            i <= incoming@.len(),
            to_add@ == licenses_to_add(incoming@.subrange(0, i as int), existing@),
            to_update@ == licenses_to_update(incoming@.subrange(0, i as int), existing@),
        decreases incoming@.len() - i,
    {
        let l = &incoming[i];
        assert(incoming@.subrange(0, i + 1).drop_last() =~= incoming@.subrange(0, i as int));
        assert(incoming@.subrange(0, i + 1).last() == *l);
        if !stored_name(existing, &l.name) {
            to_add.push(License { name: l.name.clone(), key: l.key.clone() });
        } else if !stored_name_and_key(existing, &l.name, &l.key) {
            to_update.push(License { name: l.name.clone(), key: l.key.clone() });
        }
        i = i + 1;
    }
    assert(incoming@.subrange(0, incoming@.len() as int) =~= incoming@);
    let mut to_delete: Vec<i32> = Vec::new();
    let mut k: usize = 0;
    while k < existing.len()
        invariant
            k <= existing@.len(),
            to_delete@ == licenses_to_delete(existing@.subrange(0, k as int), incoming@),
        decreases existing@.len() - k,
    {
        assert(existing@.subrange(0, k + 1).drop_last() =~= existing@.subrange(0, k as int));
        assert(existing@.subrange(0, k + 1).last() == existing@[k as int]);
        if !reported_name(incoming, &existing[k].name) {
            to_delete.push(existing[k].id);
        }
        k = k + 1;
    }
    assert(existing@.subrange(0, existing@.len() as int) =~= existing@);
    LicensePlan { to_add, to_update, to_delete }
}

pub proof fn lemma_adds_len(ls: Seq<License>, rows: Seq<LicenseKey>)
    ensures
        licenses_to_add(ls, rows).len() <= ls.len(),
    decreases ls.len(),
{
    if ls.len() > 0 {
        lemma_adds_len(ls.drop_last(), rows);
    }
}

/// Why a license bundle was refused.
#[derive(Debug, Clone, Copy, PartialEq, Eq, Structural)]
pub enum LicenseError {
    /// Two keys of the bundle share a name.
    DuplicateName,
}

pub open spec fn names_unique(ls: Seq<License>) -> bool {
    forall|a: int, b: int| 0 <= a < b < ls.len() ==> (#[trigger] ls[a]).name@ != (#[trigger] ls[b]).name@
}

/// The key reported for `name`.
pub open spec fn reported_key(ls: Seq<License>, name: Seq<char>) -> String {
    ls[choose|k: int| 0 <= k < ls.len() && ls[k].name@ == name].key
}

/// The stored rows that survive a bundle of `client_id`, in row order: rows of
/// other endpoints as they are, rows whose name is reported with the reported key.
pub open spec fn kept_license_rows(rows: Seq<LicenseKey>, client_id: i32, ls: Seq<License>) -> Seq<LicenseKey>
    decreases rows.len(),
{
    if rows.len() == 0 {
        Seq::empty()
    } else {
        let prev = kept_license_rows(rows.drop_last(), client_id, ls);
        let r = rows.last();
        if r.client_id != client_id {
            prev.push(r)
        } else if reports_name(ls, r.name@) {
            prev.push(LicenseKey { key: reported_key(ls, r.name@), ..r })
        } else {
            prev
        }
    }
}

/// The stored rows of `client_id`, in row order.
pub open spec fn rows_of(rows: Seq<LicenseKey>, client_id: i32) -> Seq<LicenseKey>
    decreases rows.len(),
{
    if rows.len() == 0 {
        Seq::empty()
    } else {
        let prev = rows_of(rows.drop_last(), client_id);
        if rows.last().client_id == client_id {
            prev.push(rows.last())
        } else {
            prev
        }
    }
}

/// Rows for the reported keys that `client_id` did not have, ids from `next_id` on.
pub open spec fn added_license_rows(adds: Seq<License>, client_id: i32, next_id: int) -> Seq<LicenseKey> {
    Seq::new(adds.len(), |k: int| LicenseKey { id: (next_id + k) as i32, client_id, name: adds[k].name, key: adds[k].key })
}


/// Stored keys are unique by (endpoint, name).
pub open spec fn license_keys_unique(rows: Seq<LicenseKey>) -> bool {
    forall|a: int, b: int| 0 <= a < b < rows.len() ==> !((#[trigger] rows[a]).client_id == (#[trigger] rows[b]).client_id
        && rows[a].name@ == rows[b].name@)
}

pub proof fn lemma_kept_from(rows: Seq<LicenseKey>, client_id: i32, ls: Seq<License>)
    ensures
        forall|i: int| 0 <= i < kept_license_rows(rows, client_id, ls).len() ==> exists|j: int| 0 <= j < rows.len()
            && rows[j].client_id == (#[trigger] kept_license_rows(rows, client_id, ls)[i]).client_id
            && rows[j].name@ == kept_license_rows(rows, client_id, ls)[i].name@,
        forall|i: int| 0 <= i < kept_license_rows(rows, client_id, ls).len()
            && (#[trigger] kept_license_rows(rows, client_id, ls)[i]).client_id == client_id
            ==> reports_name(ls, kept_license_rows(rows, client_id, ls)[i].name@),
    decreases rows.len(),
{
    if rows.len() > 0 {
        let d = rows.drop_last();
        lemma_kept_from(d, client_id, ls);
        let prev = kept_license_rows(d, client_id, ls);
        let k = kept_license_rows(rows, client_id, ls);
        assert forall|i: int| 0 <= i < k.len() implies exists|j: int| 0 <= j < rows.len()
            && rows[j].client_id == (#[trigger] k[i]).client_id && rows[j].name@ == k[i].name@ by {
            if i < prev.len() {
                assert(k[i] == prev[i]);
                let j = choose|j: int| 0 <= j < d.len() && d[j].client_id == prev[i].client_id && d[j].name@ == prev[i].name@;
                assert(rows[j] == d[j]);
            } else {
                assert(rows[rows.len() - 1] == rows.last());
            }
        }
        assert forall|i: int| 0 <= i < k.len() && (#[trigger] k[i]).client_id == client_id implies reports_name(ls, k[i].name@) by {
            if i < prev.len() {
                assert(k[i] == prev[i]);
            }
        }
    }
}

pub proof fn lemma_kept_unique(rows: Seq<LicenseKey>, client_id: i32, ls: Seq<License>)
    requires
        license_keys_unique(rows),
    ensures
        license_keys_unique(kept_license_rows(rows, client_id, ls)),
    decreases rows.len(),
{
    if rows.len() > 0 {
        let d = rows.drop_last();
        assert(license_keys_unique(d)) by {
            assert forall|a: int, b: int| 0 <= a < b < d.len() implies !((#[trigger] d[a]).client_id == (#[trigger] d[b]).client_id
                && d[a].name@ == d[b].name@) by {
                assert(d[a] == rows[a] && d[b] == rows[b]);
            }
        }
        lemma_kept_unique(d, client_id, ls);
        lemma_kept_from(d, client_id, ls);
        let prev = kept_license_rows(d, client_id, ls);
        let k = kept_license_rows(rows, client_id, ls);
        let last = rows.last();
        if k.len() > prev.len() {
            assert forall|a: int, b: int| 0 <= a < b < k.len() implies !((#[trigger] k[a]).client_id == (#[trigger] k[b]).client_id
                && k[a].name@ == k[b].name@) by {
                assert(k[a] == prev[a]);
                if b < prev.len() {
                    assert(k[b] == prev[b]);
                } else {
                    let j = choose|j: int| 0 <= j < d.len() && d[j].client_id == prev[a].client_id && d[j].name@ == prev[a].name@;
                    assert(rows[j] == d[j]);
                    assert(rows[rows.len() - 1] == last);
                }
            }
        }
    }
}

pub proof fn lemma_adds_from(ls: Seq<License>, rows: Seq<LicenseKey>)
    ensures
        forall|i: int| 0 <= i < licenses_to_add(ls, rows).len() ==> !has_name(rows, (#[trigger] licenses_to_add(ls, rows)[i]).name@)
            && exists|j: int| 0 <= j < ls.len() && ls[j] == licenses_to_add(ls, rows)[i],
    decreases ls.len(),
{
    if ls.len() > 0 {
        let d = ls.drop_last();
        lemma_adds_from(d, rows);
        let prev = licenses_to_add(d, rows);
        let a = licenses_to_add(ls, rows);
        assert forall|i: int| 0 <= i < a.len() implies !has_name(rows, (#[trigger] a[i]).name@)
            && exists|j: int| 0 <= j < ls.len() && ls[j] == a[i] by {
            if i < prev.len() {
                assert(a[i] == prev[i]);
                let j = choose|j: int| 0 <= j < d.len() && d[j] == prev[i];
                assert(ls[j] == d[j]);
            } else {
                assert(ls[ls.len() - 1] == ls.last());
            }
        }
    }
}

pub proof fn lemma_adds_unique(ls: Seq<License>, rows: Seq<LicenseKey>)
    requires
        names_unique(ls),
    ensures
        names_unique(licenses_to_add(ls, rows)),
    decreases ls.len(),
{
    if ls.len() > 0 {
        let d = ls.drop_last();
        assert(names_unique(d)) by {
            assert forall|a: int, b: int| 0 <= a < b < d.len() implies (#[trigger] d[a]).name@ != (#[trigger] d[b]).name@ by {
                assert(d[a] == ls[a] && d[b] == ls[b]);
            }
        }
        lemma_adds_unique(d, rows);
        lemma_adds_from(d, rows);
        let prev = licenses_to_add(d, rows);
        let a = licenses_to_add(ls, rows);
        if a.len() > prev.len() {
            assert forall|x: int, y: int| 0 <= x < y < a.len() implies (#[trigger] a[x]).name@ != (#[trigger] a[y]).name@ by {
                assert(a[x] == prev[x]);
                if y < prev.len() {
                    assert(a[y] == prev[y]);
                } else {
                    let j = choose|j: int| 0 <= j < d.len() && d[j] == prev[x];
                    assert(ls[j] == d[j]);
                    assert(ls[ls.len() - 1] == ls.last());
                }
            }
        }
    }
}

pub proof fn lemma_rows_of_has(rows: Seq<LicenseKey>, client_id: i32, j: int)
    requires
        0 <= j < rows.len(),
        rows[j].client_id == client_id,
    ensures
        has_name(rows_of(rows, client_id), rows[j].name@),
    decreases rows.len(),
{
    let d = rows.drop_last();
    let prev = rows_of(d, client_id);
    if j < rows.len() - 1 {
        assert(d[j] == rows[j]);
        lemma_rows_of_has(d, client_id, j);
        let i = choose|i: int| 0 <= i < prev.len() && prev[i].name@ == rows[j].name@;
        if rows.last().client_id == client_id {
            assert(prev.push(rows.last())[i] == prev[i]);
        }
    } else {
        assert(prev.push(rows.last())[prev.len() as int] == rows[j]);
    }
}

pub struct LicenseStoreView {
    pub rows: Seq<LicenseKey>,
    pub next_id: int,
}

/// Stored license keys of every endpoint.
pub struct LicenseStore {
    rows: Vec<LicenseKey>,
    next_id: i32,
}

impl View for LicenseStore {
    type V = LicenseStoreView;

    closed spec fn view(&self) -> LicenseStoreView {
        LicenseStoreView { rows: self.rows@, next_id: self.next_id as int }
    }
}

pub fn has_duplicate_name(ls: &Vec<License>) -> (r: bool)
    ensures
        r == !names_unique(ls@),
{
    let mut b: usize = 0;
    while b < ls.len()
        invariant
            b <= ls@.len(),
            forall|x: int, y: int| 0 <= x < y < b ==> (#[trigger] ls@[x]).name@ != (#[trigger] ls@[y]).name@,
        decreases ls@.len() - b,
    {
        let mut a: usize = 0;
        while a < b
            invariant
                a <= b < ls@.len(),
                forall|x: int| 0 <= x < a ==> (#[trigger] ls@[x]).name@ != ls@[b as int].name@,
            decreases b - a,
        {
            if ls[a].name == ls[b].name {
                return true;
            }
            a = a + 1;
        }
        b = b + 1;
    }
    false
}

impl LicenseStore {
    pub open spec fn wf(&self) -> bool {
        1 <= self@.next_id && license_keys_unique(self@.rows)
    }

    pub fn new() -> (r: LicenseStore)
        ensures
            r.wf(),
            r@.rows.len() == 0,
            r@.next_id == 1,
    {
        LicenseStore { rows: Vec::new(), next_id: 1 }
    }

    pub fn rows(&self) -> (r: &Vec<LicenseKey>)
        ensures
            r@ == self@.rows,
    {
        &self.rows
    }

    /// Whether `n` more rows can still be given ids.
    pub fn room_for(&self, n: usize) -> (r: bool)
        requires
            self.wf(),
        ensures
            r == (self@.next_id + n <= i32::MAX),
    {
        n <= (i32::MAX - self.next_id) as usize
    }

    fn rows_of_client(&self, client_id: i32) -> (r: Vec<LicenseKey>)
        ensures
            r@ == rows_of(self@.rows, client_id),
    {
        let mut out: Vec<LicenseKey> = Vec::new();
        let mut i: usize = 0;
        while i < self.rows.len()
            invariant
                i <= self@.rows.len(),
                self@.rows == self.rows@,
                out@ == rows_of(self@.rows.subrange(0, i as int), client_id),
            decreases self@.rows.len() - i,
        {
            assert(self@.rows.subrange(0, i + 1).drop_last() =~= self@.rows.subrange(0, i as int));
            let r = &self.rows[i];
            if r.client_id == client_id {
                out.push(LicenseKey { id: r.id, client_id: r.client_id, name: r.name.clone(), key: r.key.clone() });
            }
            i = i + 1;
        }
        assert(self@.rows.subrange(0, self@.rows.len() as int) =~= self@.rows);
        out
    }

    /// Applies the license bundle of `client_id`: a new name is inserted, a
    /// known name takes the reported key, a name no longer reported is
    /// deleted; surviving rows keep their ids. A bundle that names a key twice
    /// is refused and changes nothing.
    pub fn update_license_keys(&mut self, client_id: i32, bundle: &LicenseBundle) -> (r: Result<LicensePlan, LicenseError>)
        requires
            old(self).wf(),
            old(self)@.next_id + bundle.licenses@.len() <= i32::MAX,
        ensures
            final(self).wf(),
            !names_unique(bundle.licenses@) ==> r == Err::<LicensePlan, LicenseError>(LicenseError::DuplicateName)
                && final(self)@ == old(self)@,
            names_unique(bundle.licenses@) ==> (r matches Ok(plan)
                && plan.to_add@ == licenses_to_add(bundle.licenses@, rows_of(old(self)@.rows, client_id))
                && plan.to_update@ == licenses_to_update(bundle.licenses@, rows_of(old(self)@.rows, client_id))
                && plan.to_delete@ == licenses_to_delete(rows_of(old(self)@.rows, client_id), bundle.licenses@)
                && final(self)@.rows == kept_license_rows(old(self)@.rows, client_id, bundle.licenses@)
                    + added_license_rows(plan.to_add@, client_id, old(self)@.next_id)
                && final(self)@.next_id == old(self)@.next_id + plan.to_add@.len()),
    {
        let ls = &bundle.licenses;
        if has_duplicate_name(ls) {
            return Err(LicenseError::DuplicateName);
        }
        let ghost start = self@;
        let existing = self.rows_of_client(client_id);
        let plan = plan_license_keys(&existing, ls);
        let mut out: Vec<LicenseKey> = Vec::new();
        let mut i: usize = 0;
        while i < self.rows.len()
            invariant
                i <= self@.rows.len(),
                self@ == start,
                names_unique(ls@),
                out@ == kept_license_rows(start.rows.subrange(0, i as int), client_id, ls@),
            decreases self@.rows.len() - i,
        {
            assert(start.rows.subrange(0, i + 1).drop_last() =~= start.rows.subrange(0, i as int));
            let r = &self.rows[i];
            if r.client_id != client_id {
                out.push(LicenseKey { id: r.id, client_id: r.client_id, name: r.name.clone(), key: r.key.clone() });
            } else {
                let mut k: usize = 0;
                let mut found: Option<usize> = None;
                while k < ls.len()
                    invariant
                        k <= ls@.len(),
                        found matches Some(x) ==> x < ls@.len() && ls@[x as int].name@ == r.name@,
                        found is None ==> forall|j: int| 0 <= j < k ==> ls@[j].name@ != r.name@,
                    decreases ls@.len() - k,
                {
                    if found.is_none() && ls[k].name == r.name {
                        found = Some(k);
                    }
                    k = k + 1;
                }
                match found {
                    Some(x) => {
                        proof {
                            let c = choose|c: int| 0 <= c < ls@.len() && ls@[c].name@ == r.name@;
                            if c < x {
                                assert(ls@[c].name@ != ls@[x as int].name@);
                            } else if x < c {
                                assert(ls@[x as int].name@ != ls@[c].name@);
                            }
                        }
                        out.push(LicenseKey { id: r.id, client_id: r.client_id, name: r.name.clone(), key: ls[x].key.clone() });
                    },
                    None => {},
                }
            }
            i = i + 1;
        }
        assert(start.rows.subrange(0, start.rows.len() as int) =~= start.rows);
        let ghost kept = out@;
        proof {
            lemma_adds_len(ls@, existing@);
        }
        let mut j: usize = 0;
        let mut next = self.next_id;
        while j < plan.to_add.len()
            invariant
                j <= plan.to_add@.len(),
                start.next_id + plan.to_add@.len() <= i32::MAX,
                plan.to_add@.len() <= ls@.len(),
                next == start.next_id + j,
                out@ == kept + added_license_rows(plan.to_add@, client_id, start.next_id).subrange(0, j as int),
            decreases plan.to_add@.len() - j,
        {
            let l = &plan.to_add[j];
            out.push(LicenseKey { id: next, client_id, name: l.name.clone(), key: l.key.clone() });
            next = next + 1;
            j = j + 1;
            assert(out@ =~= kept + added_license_rows(plan.to_add@, client_id, start.next_id).subrange(0, j as int));
        }
        assert(added_license_rows(plan.to_add@, client_id, start.next_id).subrange(0, plan.to_add@.len() as int)
            =~= added_license_rows(plan.to_add@, client_id, start.next_id));
        proof {
            let kept_rows = kept_license_rows(start.rows, client_id, ls@);
            let adds = plan.to_add@;
            let added = added_license_rows(adds, client_id, start.next_id);
            lemma_kept_unique(start.rows, client_id, ls@);
            lemma_kept_from(start.rows, client_id, ls@);
            lemma_adds_unique(ls@, existing@);
            lemma_adds_from(ls@, existing@);
            let all = kept_rows + added;
            assert forall|a: int, b: int| 0 <= a < b < all.len() implies !((#[trigger] all[a]).client_id == (#[trigger] all[b]).client_id
                && all[a].name@ == all[b].name@) by {
                if b < kept_rows.len() {
                    assert(all[a] == kept_rows[a] && all[b] == kept_rows[b]);
                } else if a >= kept_rows.len() {
                    assert(all[a] == added[a - kept_rows.len()] && all[b] == added[b - kept_rows.len()]);
                    assert(adds[a - kept_rows.len()].name@ != adds[b - kept_rows.len()].name@);
                } else {
                    assert(all[a] == kept_rows[a] && all[b] == added[b - kept_rows.len()]);
                    let x = kept_rows[a];
                    if x.client_id == client_id && x.name@ == adds[b - kept_rows.len()].name@ {
                        let j = choose|j: int| 0 <= j < start.rows.len() && start.rows[j].client_id == x.client_id
                            && start.rows[j].name@ == x.name@;
                        lemma_rows_of_has(start.rows, client_id, j);
                        let _ = adds[b - kept_rows.len()];
                    }
                }
            }
        }
        self.rows = out;
        self.next_id = next;
        Ok(plan)
    }
}

} // verus!
