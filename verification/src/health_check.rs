//! The health-check state: a serving status per service name.
//!
//! The wire protocol around it is an external collaborator; what is
//! verified is the status map itself — reads, writes and the shutdown
//! sweep that marks every service as no longer serving.

use vstd::prelude::*;

verus! {

/// The serving states the health protocol distinguishes.
#[derive(Debug, Clone, Copy, PartialEq, Eq, Structural)]
pub enum ServingStatus {
    Unknown,
    Serving,
    NotServing,
    ServiceUnknown,
}

/// The status recorded under a service name, if any.
pub open spec fn spec_status_of(
    statuses: Seq<(String, ServingStatus)>,
    name: Seq<char>,
) -> Option<ServingStatus>
    decreases statuses.len(),
{
    if statuses.len() == 0 {
        None
    } else if statuses[0].0@ == name {
        Some(statuses[0].1)
    } else {
        spec_status_of(statuses.drop_first(), name)
    }
}

/// Recording a status overwrites the name's first entry, or appends.
pub open spec fn spec_status_insert(
    statuses: Seq<(String, ServingStatus)>,
    name: String,
    st: ServingStatus,
) -> Seq<(String, ServingStatus)>
    decreases statuses.len(),
{
    if statuses.len() == 0 {
        Seq::empty().push((name, st))
    } else if statuses[0].0@ == name@ {
        seq![(name, st)] + statuses.drop_first()
    } else {
        seq![statuses[0]] + spec_status_insert(statuses.drop_first(), name, st)
    }
}

/// The health controller's state: one status per service name.
pub struct HealthCheckController {
    /// The recorded statuses, in registration order.
    pub status_map: Vec<(String, ServingStatus)>,
}

impl HealthCheckController {
    /// A controller that knows no services yet.
    pub fn new() -> (r: HealthCheckController)
        ensures
            r.status_map@ == Seq::<(String, ServingStatus)>::empty(),
    {
        HealthCheckController { status_map: Vec::new() }
    }

    /// The status recorded for a service, if any.
    pub fn get_status(&self, service_name: &str) -> (r: Option<ServingStatus>)
        ensures
            r == spec_status_of(self.status_map@, service_name@),
    {
        let key: String = service_name.to_owned();
        let mut i: usize = 0;
        while i < self.status_map.len()
            invariant
                key@ == service_name@,
                i <= self.status_map@.len(),
                forall|j: int| 0 <= j < i ==> (#[trigger] self.status_map@[j]).0@
                    != service_name@,
            decreases self.status_map@.len() - i,
        {
            if self.status_map[i].0.eq(&key) {
                proof {
                    lemma_status_of_skip(self.status_map@, service_name@, i as int);
                    assert(self.status_map@.skip(i as int)[0] == self.status_map@[i as int]);
                }
                return Some(self.status_map[i].1);
            }
            i = i + 1;
        }
        proof {
            lemma_status_of_skip(self.status_map@, service_name@, self.status_map@.len() as int);
            assert(self.status_map@.skip(self.status_map@.len() as int) =~= Seq::<
                (String, ServingStatus),
            >::empty());
        }
        None
    }

    /// Records a status for a service, overwriting an earlier one.
    pub fn set_status(&mut self, service_name: String, status: ServingStatus)
        ensures
            final(self).status_map@ == spec_status_insert(
                old(self).status_map@,
                service_name,
                status,
            ),
    {
        let key: String = service_name;
        let ghost before = self.status_map@;
        let mut pos: usize = 0;
        let mut found = false;
        while pos < self.status_map.len() && !found
            invariant
                self.status_map@ == before,
                pos <= before.len(),
                forall|j: int| 0 <= j < pos ==> (#[trigger] before[j]).0@ != key@,
                found ==> pos < before.len() && before[pos as int].0@ == key@,
            decreases before.len() - pos + if found { 0int } else { 1int },
        {
            if self.status_map[pos].0.eq(&key) {
                found = true;
            } else {
                pos = pos + 1;
            }
        }
        if found {
            let _ = self.status_map.remove(pos);
            self.status_map.insert(pos, (key, status));
            proof {
                lemma_status_insert_at(before, self.status_map@[pos as int].0, status, pos as int);
                assert(self.status_map@ =~= spec_status_insert(
                    before,
                    self.status_map@[pos as int].0,
                    status,
                ));
            }
        } else {
            self.status_map.push((key, status));
            proof {
                lemma_status_insert_missing(before, self.status_map@.last().0, status);
                assert(self.status_map@ =~= spec_status_insert(
                    before,
                    self.status_map@.last().0,
                    status,
                ));
            }
        }
    }

    /// Marks every known service as no longer serving.
    pub fn shutdown(&mut self)
        ensures
            final(self).status_map@.len() == old(self).status_map@.len(),
            forall|i: int| 0 <= i < final(self).status_map@.len()
                ==> (#[trigger] final(self).status_map@[i]).0 == old(self).status_map@[i].0
                    && final(self).status_map@[i].1 == ServingStatus::NotServing,
    {
        let ghost before = self.status_map@;
        let mut i: usize = 0;
        while i < self.status_map.len()
            invariant
                self.status_map@.len() == before.len(),
                i <= before.len(),
                forall|j: int| 0 <= j < i ==> (#[trigger] self.status_map@[j]).0 == before[j].0
                    && self.status_map@[j].1 == ServingStatus::NotServing,
                forall|j: int| i <= j < before.len() ==> #[trigger] self.status_map@[j]
                    == before[j],
            decreases before.len() - i,
        {
            let name = self.status_map[i].0.clone();
            self.status_map.set(i, (name, ServingStatus::NotServing));
            i = i + 1;
        }
    }
}

/// A read passes over every entry with a different name.
pub proof fn lemma_status_of_skip(statuses: Seq<(String, ServingStatus)>, name: Seq<char>, i: int)
    requires
        0 <= i <= statuses.len(),
        forall|j: int| 0 <= j < i ==> (#[trigger] statuses[j]).0@ != name,
    ensures
        spec_status_of(statuses, name) == spec_status_of(statuses.skip(i), name),
    decreases i,
{
    if i > 0 {
        assert(statuses[0].0@ != name);
        assert(spec_status_of(statuses, name) == spec_status_of(statuses.drop_first(), name));
        assert(statuses.drop_first() =~= statuses.skip(1));
        assert forall|j: int| 0 <= j < i - 1 implies (#[trigger] statuses.skip(1)[j]).0@
            != name by {
            assert(statuses.skip(1)[j] == statuses[j + 1]);
        }
        lemma_status_of_skip(statuses.skip(1), name, i - 1);
        assert(statuses.skip(1).skip(i - 1) =~= statuses.skip(i));
    } else {
        assert(statuses.skip(0) =~= statuses);
    }
}

/// Replacing the first entry carrying the name is what recording does when
/// the name is present at position `pos`.
pub proof fn lemma_status_insert_at(
    statuses: Seq<(String, ServingStatus)>,
    name: String,
    st: ServingStatus,
    pos: int,
)
    requires
        0 <= pos < statuses.len(),
        statuses[pos].0@ == name@,
        forall|j: int| 0 <= j < pos ==> (#[trigger] statuses[j]).0@ != name@,
    ensures
        spec_status_insert(statuses, name, st) == statuses.remove(pos).insert(pos, (name, st)),
    decreases pos,
{
    if pos == 0 {
        assert(spec_status_insert(statuses, name, st) =~= statuses.remove(0).insert(
            0,
            (name, st),
        ));
    } else {
        assert(statuses[0].0@ != name@);
        assert forall|j: int| 0 <= j < pos - 1 implies (
        #[trigger] statuses.drop_first()[j]).0@ != name@ by {
            assert(statuses.drop_first()[j] == statuses[j + 1]);
        }
        assert(statuses.drop_first()[pos - 1] == statuses[pos]);
        lemma_status_insert_at(statuses.drop_first(), name, st, pos - 1);
        assert(spec_status_insert(statuses, name, st) =~= statuses.remove(pos).insert(
            pos,
            (name, st),
        ));
    }
}

/// Appending is what recording does when the name is absent.
pub proof fn lemma_status_insert_missing(
    statuses: Seq<(String, ServingStatus)>,
    name: String,
    st: ServingStatus,
)
    requires
        forall|j: int| 0 <= j < statuses.len() ==> (#[trigger] statuses[j]).0@ != name@,
    ensures
        spec_status_insert(statuses, name, st) == statuses.push((name, st)),
    decreases statuses.len(),
{
    if statuses.len() == 0 {
        assert(spec_status_insert(statuses, name, st) =~= statuses.push((name, st)));
    } else {
        assert forall|j: int| 0 <= j < statuses.drop_first().len() implies (
        #[trigger] statuses.drop_first()[j]).0@ != name@ by {
            assert(statuses.drop_first()[j] == statuses[j + 1]);
        }
        lemma_status_insert_missing(statuses.drop_first(), name, st);
        assert(spec_status_insert(statuses, name, st) =~= statuses.push((name, st)));
    }
}

} // verus!
