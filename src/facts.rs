use vstd::prelude::*;

verus! {

pub open spec fn has_client<T>(rows: Seq<(i32, T)>, client_id: i32) -> bool {
    exists|i: int| 0 <= i < rows.len() && rows[i].0 == client_id
}

/// The latest report of one kind of fact (hardware, volumes, batteries) per
/// endpoint; a new report replaces the endpoint's previous one wholesale.
pub struct EndpointFacts<T> {
    rows: Vec<(i32, T)>,
}

impl<T> View for EndpointFacts<T> {
    type V = Seq<(i32, T)>;

    closed spec fn view(&self) -> Seq<(i32, T)> {
        self.rows@
    }
}

impl<T> EndpointFacts<T> {
    /// One report per endpoint.
    pub open spec fn wf(&self) -> bool {
        forall|a: int, b: int| 0 <= a < b < self@.len() ==> (#[trigger] self@[a]).0 != (#[trigger] self@[b]).0
    }

    pub fn new() -> (r: EndpointFacts<T>)
        ensures
            r.wf(),
            r@.len() == 0,
    {
        EndpointFacts { rows: Vec::new() }
    }

    /// The report of `client_id`, if it has sent one.
    pub fn get(&self, client_id: i32) -> (r: Option<&T>)
        requires
            self.wf(),
        ensures
            r matches Some(t) ==> exists|i: int| 0 <= i < self@.len() && self@[i] == (client_id, *t),
            r is None ==> !has_client(self@, client_id),
    {
        let mut i: usize = 0;
        while i < self.rows.len()
            invariant
                i <= self@.len(),
                self@ == self.rows@,
                forall|j: int| 0 <= j < i ==> self@[j].0 != client_id,
            decreases self@.len() - i,
        {
            if self.rows[i].0 == client_id {
                return Some(&self.rows[i].1);
            }
            i = i + 1;
        }
        None
    }

    /// Replaces the report of `client_id` with `facts`.
    pub fn replace(&mut self, client_id: i32, facts: T)
        requires
            old(self).wf(),
        ensures
            final(self).wf(),
            has_client(old(self)@, client_id) ==> exists|i: int| 0 <= i < old(self)@.len() && old(self)@[i].0 == client_id
                && final(self)@ == old(self)@.update(i, (client_id, facts)),
            !has_client(old(self)@, client_id) ==> final(self)@ == old(self)@.push((client_id, facts)),
    {
        let ghost before = self@;
        let mut i: usize = 0;
        while i < self.rows.len()
            invariant
                i <= self@.len(),
                self@ == before,
                before == old(self)@,
                self.wf(),
                self@ == self.rows@,
                forall|j: int| 0 <= j < i ==> self@[j].0 != client_id,
            decreases self@.len() - i,
        {
            if self.rows[i].0 == client_id {
                self.rows.set(i, (client_id, facts));
                assert(self@ == before.update(i as int, (client_id, facts)));
                assert forall|a: int, b: int| 0 <= a < b < self@.len() implies (#[trigger] self@[a]).0 != (#[trigger] self@[b]).0 by {
                    assert(self@[a].0 == before[a].0 && self@[b].0 == before[b].0);
                }
                return;
            }
            i = i + 1;
        }
        self.rows.push((client_id, facts));
        assert forall|a: int, b: int| 0 <= a < b < self@.len() implies (#[trigger] self@[a]).0 != (#[trigger] self@[b]).0 by {
            assert(self@[a] == before[a]);
        }
    }
}

} // verus!
