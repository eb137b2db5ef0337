//! What the jobs of a pass ask for.

use crate::controlplane::reconcile::{present_of, Cluster, JobView};
use crate::controlplane::reconcile_laws::{by_service, distinct_places, distinct_removals, service_at};
use crate::controlplane::registry::{RegistryView, ResolveErrorView};
use crate::controlplane::services::{
    descending, hosts_of, law_replica_names_are_distinct, lemma_missing, lemma_replica_index, lemma_to_remove,
    missing, replica_index_of, replica_name_of, to_remove_of, ServiceRecordView,
};
use vstd::prelude::*;

verus! {

/// No service is listed twice.
pub open spec fn distinct_services(services: Seq<(Seq<char>, ServiceRecordView)>) -> bool {
    forall|i: int, j: int|
        0 <= i < j < services.len() ==> (#[trigger] services[i]).0 != (#[trigger] services[j]).0
}

impl Cluster {
    /// The job asks for a replica that the service lacks.
    pub open spec fn lacks(self, service: (Seq<char>, ServiceRecordView), index: u32, job: JobView) -> bool {
        &&& index < service.1.desired_replicas
        &&& !self.present(service.0, service.1).contains(index)
        &&& job == JobView::Place {
            replica_name: replica_name_of(service.0, index),
            template: service.1.template,
            generation: self.next_generation(replica_name_of(service.0, index)),
        }
    }

    /// The job asks for the end of a replica that the service has too many, on the node where it is.
    pub open spec fn exceeds(self, service: (Seq<char>, ServiceRecordView), index: u32, job: JobView) -> bool {
        let name = replica_name_of(service.0, index);
        &&& index >= service.1.desired_replicas
        &&& self.present(service.0, service.1).contains(index)
        &&& self.nodes.dom().contains(name)
        &&& job matches JobView::Remove { replica_name, node_id, node_addr }
        &&& replica_name == name
        &&& node_id == self.nodes[name]
        &&& self.registry.resolve(node_id, self.now) == Ok::<Seq<char>, ResolveErrorView>(node_addr)
    }

    /// The job is one of the service's.
    pub open spec fn job_for(self, service: (Seq<char>, ServiceRecordView), job: JobView) -> bool {
        match job {
            JobView::Begin { service: name, hosts } => name == service.0 && hosts == hosts_of(name, self.placed),
            JobView::Place { .. } => exists|i: u32| #[trigger] self.lacks(service, i, job),
            JobView::Remove { .. } => exists|i: u32| #[trigger] self.exceeds(service, i, job),
        }
    }
}

/// Which replica of a service a surplus job removes.
pub open spec fn removed_index(service: Seq<char>, job: JobView) -> int {
    match replica_index_of(service, job->Remove_replica_name) {
        Some(i) => i as int,
        None => -1,
    }
}

proof fn lemma_removals(c: Cluster, service: Seq<char>, to_remove: Seq<u32>)
    requires
        descending(to_remove),
    ensures
        forall|k: int|
            0 <= k < c.removals(service, to_remove).len() ==> {
                let job = #[trigger] c.removals(service, to_remove)[k];
                &&& job is Remove
                &&& 0 <= removed_index(service, job) <= u32::MAX
                &&& to_remove.contains(removed_index(service, job) as u32)
                &&& job->Remove_replica_name == replica_name_of(service, removed_index(service, job) as u32)
                &&& c.nodes.dom().contains(job->Remove_replica_name)
                &&& job->Remove_node_id == c.nodes[job->Remove_replica_name]
                &&& c.registry.resolve(job->Remove_node_id, c.now) == Ok::<Seq<char>, ResolveErrorView>(
                    job->Remove_node_addr,
                )
            },
        forall|k: int, l: int|
            0 <= k < l < c.removals(service, to_remove).len() ==> removed_index(
                service,
                #[trigger] c.removals(service, to_remove)[k],
            ) > removed_index(service, #[trigger] c.removals(service, to_remove)[l]),
    decreases to_remove.len(),
{
    if to_remove.len() > 0 {
        let rest = to_remove.drop_last();
        let index = to_remove.last();
        assert(descending(rest));
        lemma_removals(c, service, rest);
        let prior = c.removals(service, rest);
        let all = c.removals(service, to_remove);
        lemma_replica_index(service, index);
        assert(to_remove[to_remove.len() - 1] == index);
        assert forall|k: int| 0 <= k < prior.len() implies to_remove.contains(
            removed_index(service, #[trigger] prior[k]) as u32,
        ) && removed_index(service, prior[k]) > index by {
            let x = removed_index(service, prior[k]) as u32;
            assert(rest.contains(x));
            let t = choose|t: int| 0 <= t < rest.len() && rest[t] == x;
            assert(to_remove[t] == x);
        }
        assert forall|k: int| 0 <= k < all.len() implies (k < prior.len() && #[trigger] all[k] == prior[k]) || (k
            == prior.len() && removed_index(service, all[k]) == index) by {}
    }
}

/// The jobs of one service.
proof fn lemma_jobs_of(c: Cluster, service: (Seq<char>, ServiceRecordView))
    ensures
        c.jobs_of(service.0, service.1).len() > 0,
        c.jobs_of(service.0, service.1)[0] is Begin,
        forall|k: int|
            0 < k < c.jobs_of(service.0, service.1).len() ==> !((#[trigger] c.jobs_of(service.0, service.1)[k]) is Begin),
        forall|k: int|
            0 <= k < c.jobs_of(service.0, service.1).len() ==> c.job_for(
                service,
                #[trigger] c.jobs_of(service.0, service.1)[k],
            ),
        distinct_places(c.jobs_of(service.0, service.1)),
        distinct_removals(c.jobs_of(service.0, service.1)),
        forall|k: int, l: int|
            0 <= k < l < c.jobs_of(service.0, service.1).len() && (#[trigger] c.jobs_of(service.0, service.1)[k]) is Remove
                && (#[trigger] c.jobs_of(service.0, service.1)[l]) is Remove ==> removed_index(
                service.0,
                c.jobs_of(service.0, service.1)[k],
            ) > removed_index(service.0, c.jobs_of(service.0, service.1)[l]),
{
    let (name, record) = service;
    let present = c.present(name, record);
    let to_add = missing(present, record.desired_replicas as nat);
    let to_remove = to_remove_of(present, record.desired_replicas);
    lemma_missing(present, record.desired_replicas as nat);
    lemma_to_remove(present, record.desired_replicas as nat, 0x1_0000_0000);
    lemma_removals(c, name, to_remove);
    let places = c.places(name, record.template, to_add);
    let removals = c.removals(name, to_remove);
    let all = c.jobs_of(name, record);
    let a = 1 + places.len();
    assert forall|k: int| 0 <= k < all.len() implies (k == 0 ==> all[k] is Begin) && (0 < k < a ==> all[k] == places[k
        - 1]) && (k >= a ==> #[trigger] all[k] == removals[k - a]) by {}
    assert forall|k: int| 0 <= k < all.len() implies c.job_for(service, #[trigger] all[k]) by {
        if 0 < k < a {
            let i = to_add[k - 1];
            assert(to_add.contains(i));
            assert(c.lacks(service, i, all[k]));
        } else if k >= a {
            let job = removals[k - a];
            let i = removed_index(name, job) as u32;
            assert(to_remove.contains(i));
            assert(c.exceeds(service, i, all[k]));
        }
    }
    assert forall|k: int, l: int|
        0 <= k < l < all.len() && (#[trigger] all[k]) is Place && (#[trigger] all[l]) is Place implies all[k]->Place_replica_name
        != all[l]->Place_replica_name by {
        assert(0 < k < a && 0 < l < a);
        let i = to_add[k - 1];
        let j = to_add[l - 1];
        if all[k]->Place_replica_name == all[l]->Place_replica_name {
            law_replica_names_are_distinct(name, i, name, j);
        }
    }
    assert forall|k: int, l: int|
        0 <= k < l < all.len() && (#[trigger] all[k]) is Remove && (#[trigger] all[l]) is Remove implies removed_index(
        name,
        all[k],
    ) > removed_index(name, all[l]) by {
        assert(removals[k - a] == all[k] && removals[l - a] == all[l]);
    }
}

/// The service of a position is not changed by what follows.
proof fn lemma_service_at_prefix(jobs: Seq<JobView>, more: Seq<JobView>, k: int)
    requires
        k < jobs.len(),
    ensures
        service_at(jobs + more, k) == service_at(jobs, k),
    decreases k + 1,
{
    if k >= 0 {
        lemma_service_at_prefix(jobs, more, k - 1);
    }
}

/// In the jobs of one service the service is the one that was begun.
proof fn lemma_service_at_block(before: Seq<JobView>, block: Seq<JobView>, k: int)
    requires
        0 <= k < block.len(),
        block[0] is Begin,
        forall|j: int| 0 < j < block.len() ==> !((#[trigger] block[j]) is Begin),
    ensures
        service_at(before + block, before.len() + k) == Some(block[0]->service),
    decreases k,
{
    assert((before + block)[before.len() + k] == block[k]);
    if k > 0 {
        lemma_service_at_block(before, block, k - 1);
    }
}

/// A job of one service has the name of a replica of that service.
proof fn lemma_job_name(c: Cluster, service: (Seq<char>, ServiceRecordView), job: JobView)
    requires
        c.job_for(service, job),
    ensures
        job is Place ==> replica_index_of(service.0, job->Place_replica_name) is Some,
        job is Remove ==> replica_index_of(service.0, job->Remove_replica_name) is Some,
{
    if job is Place {
        let i = choose|i: u32| #[trigger] c.lacks(service, i, job);
        lemma_replica_index(service.0, i);
    }
    if job is Remove {
        let i = choose|i: u32| #[trigger] c.exceeds(service, i, job);
        lemma_replica_index(service.0, i);
    }
}

/// A name is that of a replica of one service at most.
pub proof fn lemma_one_service(a: Seq<char>, b: Seq<char>, name: Seq<char>)
    requires
        replica_index_of(a, name) is Some,
        replica_index_of(b, name) is Some,
    ensures
        a == b,
{
    let i = choose|i: u32| name == #[trigger] replica_name_of(a, i);
    let j = choose|j: u32| name == #[trigger] replica_name_of(b, j);
    law_replica_names_are_distinct(a, i, b, j);
}

/// The jobs of all services.
pub proof fn lemma_jobs(c: Cluster, services: Seq<(Seq<char>, ServiceRecordView)>)
    requires
        distinct_services(services),
    ensures
        forall|k: int|
            0 <= k < c.jobs(services).len() ==> exists|m: int|
                0 <= m < services.len() && c.job_for(#[trigger] services[m], #[trigger] c.jobs(services)[k]),
        distinct_places(c.jobs(services)),
        distinct_removals(c.jobs(services)),
        by_service(c.jobs(services), c.placed),
        forall|k: int, l: int, s: Seq<char>|
            0 <= k < l < c.jobs(services).len() && (#[trigger] c.jobs(services)[k]) is Remove && (
            #[trigger] c.jobs(services)[l]) is Remove && (#[trigger] replica_index_of(
                s,
                c.jobs(services)[k]->Remove_replica_name,
            )) is Some && replica_index_of(s, c.jobs(services)[l]->Remove_replica_name) is Some ==> removed_index(
                s,
                c.jobs(services)[k],
            ) > removed_index(s, c.jobs(services)[l]),
    decreases services.len(),
{
    if services.len() > 0 {
        let rest = services.drop_last();
        let last = services.last();
        let n = services.len() - 1;
        assert(services[n] == last);
        assert forall|m: int| 0 <= m < rest.len() implies #[trigger] rest[m] == services[m] by {}
        lemma_jobs(c, rest);
        lemma_jobs_of(c, last);
        let before = c.jobs(rest);
        let block = c.jobs_of(last.0, last.1);
        let all = c.jobs(services);
        let b = before.len() as int;
        assert(all == before + block);
        assert forall|k: int| 0 <= k < all.len() implies (k < b ==> #[trigger] all[k] == before[k]) && (k >= b
            ==> all[k] == block[k - b]) by {}
        assert forall|k: int| 0 <= k < all.len() implies exists|m: int|
            0 <= m < services.len() && c.job_for(#[trigger] services[m], #[trigger] all[k]) by {
            if k < b {
                let m = choose|m: int| 0 <= m < rest.len() && c.job_for(#[trigger] rest[m], #[trigger] before[k]);
                assert(c.job_for(services[m], all[k]));
            } else {
                assert(c.job_for(last, block[k - b]));
                assert(c.job_for(services[n], all[k]));
            }
        }
        // A job before the block belongs to another service than one in it.
        assert forall|k: int, l: int| 0 <= k < b && b <= l < all.len() implies cross_distinct(
            #[trigger] all[k],
            #[trigger] all[l],
        ) by {
            let m = choose|m: int| 0 <= m < rest.len() && c.job_for(#[trigger] rest[m], #[trigger] before[k]);
            assert(services[m].0 != services[n].0);
            let x = before[k];
            let y = block[l - b];
            assert(c.job_for(last, y));
            lemma_job_name(c, rest[m], x);
            lemma_job_name(c, last, y);
            if x is Place && y is Place && x->Place_replica_name == y->Place_replica_name {
                lemma_one_service(rest[m].0, last.0, x->Place_replica_name);
            }
            if x is Remove && y is Remove {
                if x->Remove_replica_name == y->Remove_replica_name {
                    lemma_one_service(rest[m].0, last.0, x->Remove_replica_name);
                }
                assert forall|s: Seq<char>| replica_index_of(s, x->Remove_replica_name) is Some implies !((
                #[trigger] replica_index_of(s, y->Remove_replica_name)) is Some) by {
                    lemma_one_service(s, rest[m].0, x->Remove_replica_name);
                    if replica_index_of(s, y->Remove_replica_name) is Some {
                        lemma_one_service(s, last.0, y->Remove_replica_name);
                    }
                }
            }
        }
        assert forall|k: int, l: int| 0 <= k < l < all.len() implies (#[trigger] all[k] is Place && #[trigger] all[l] is Place
            ==> all[k]->Place_replica_name != all[l]->Place_replica_name) && (all[k] is Remove && all[l] is Remove
            ==> all[k]->Remove_replica_name != all[l]->Remove_replica_name) && (all[k] is Begin && all[l] is Begin
            ==> all[k]->service != all[l]->service) by {
            if l < b {
                assert(all[k] == before[k] && all[l] == before[l]);
            } else if k >= b {
                assert(all[k] == block[k - b] && all[l] == block[l - b]);
            } else {
                assert(cross_distinct(all[k], all[l]));
            }
        }
        assert forall|k: int| 0 <= k < all.len() && (#[trigger] all[k]) is Place implies service_at(all, k) is Some
            && replica_index_of(service_at(all, k)->0, all[k]->Place_replica_name) is Some by {
            if k < b {
                lemma_service_at_prefix(before, block, k);
                assert(before[k] is Place);
            } else {
                lemma_service_at_block(before, block, k - b);
                assert(c.job_for(last, block[0]));
                assert(c.job_for(last, block[k - b]));
                lemma_job_name(c, last, block[k - b]);
            }
        }
        assert forall|k: int| 0 <= k < all.len() && (#[trigger] all[k]) is Begin implies all[k]->hosts == hosts_of(
            all[k]->service,
            c.placed,
        ) by {
            if k < b {
                assert(before[k] is Begin);
            } else {
                assert(c.job_for(last, block[k - b]));
            }
        }
        assert(by_service(all, c.placed));
        assert forall|k: int, l: int, s: Seq<char>|
            0 <= k < l < all.len() && (#[trigger] all[k]) is Remove && (#[trigger] all[l]) is Remove && (
            #[trigger] replica_index_of(s, all[k]->Remove_replica_name)) is Some && replica_index_of(
                s,
                all[l]->Remove_replica_name,
            ) is Some implies removed_index(s, all[k]) > removed_index(s, all[l]) by {
            if l < b {
                assert(all[k] == before[k] && all[l] == before[l]);
            } else if k >= b {
                assert(c.job_for(last, block[k - b]));
                lemma_job_name(c, last, block[k - b]);
                lemma_one_service(s, last.0, all[k]->Remove_replica_name);
                assert(all[k] == block[k - b] && all[l] == block[l - b]);
            } else {
                assert(cross_distinct(all[k], all[l]));
            }
        }
    }
}

/// Every replica that a service lacks is asked for, and the end of every one that it has too many, if the node where it
/// is placed can be told.
proof fn lemma_jobs_of_complete(c: Cluster, service: (Seq<char>, ServiceRecordView), index: u32)
    ensures
        ({
            let jobs = c.jobs_of(service.0, service.1);
            let name = replica_name_of(service.0, index);
            let present = c.present(service.0, service.1).contains(index);
            &&& index < service.1.desired_replicas && !present ==> exists|k: int|
                0 <= k < jobs.len() && (#[trigger] jobs[k]) is Place && jobs[k]->Place_replica_name == name
            &&& index >= service.1.desired_replicas && present && c.nodes.dom().contains(name) && c.registry.resolve(
                c.nodes[name],
                c.now,
            ) is Ok ==> exists|k: int|
                0 <= k < jobs.len() && (#[trigger] jobs[k]) is Remove && jobs[k]->Remove_replica_name == name
        }),
{
    let (name, record) = service;
    let present = c.present(name, record);
    let to_add = missing(present, record.desired_replicas as nat);
    let to_remove = to_remove_of(present, record.desired_replicas);
    lemma_missing(present, record.desired_replicas as nat);
    lemma_to_remove(present, record.desired_replicas as nat, 0x1_0000_0000);
    let places = c.places(name, record.template, to_add);
    let removals = c.removals(name, to_remove);
    let all = c.jobs_of(name, record);
    if index < record.desired_replicas && !present.contains(index) {
        assert(to_add.contains(index));
        let k = choose|k: int| 0 <= k < to_add.len() && to_add[k] == index;
        assert(all[1 + k] == places[k]);
    }
    if index >= record.desired_replicas && present.contains(index) && c.nodes.dom().contains(
        replica_name_of(name, index),
    ) && c.registry.resolve(c.nodes[replica_name_of(name, index)], c.now) is Ok {
        assert(to_remove.contains(index));
        lemma_removals_complete(c, name, to_remove, index);
        let k = choose|k: int|
            0 <= k < removals.len() && (#[trigger] removals[k]) is Remove && removals[k]->Remove_replica_name
                == replica_name_of(name, index);
        assert(all[1 + places.len() + k] == removals[k]);
    }
}

proof fn lemma_removals_complete(c: Cluster, service: Seq<char>, to_remove: Seq<u32>, index: u32)
    requires
        to_remove.contains(index),
        c.nodes.dom().contains(replica_name_of(service, index)),
        c.registry.resolve(c.nodes[replica_name_of(service, index)], c.now) is Ok,
    ensures
        exists|k: int|
            0 <= k < c.removals(service, to_remove).len() && (#[trigger] c.removals(service, to_remove)[k]) is Remove
                && c.removals(service, to_remove)[k]->Remove_replica_name == replica_name_of(service, index),
    decreases to_remove.len(),
{
    let rest = to_remove.drop_last();
    let prior = c.removals(service, rest);
    let all = c.removals(service, to_remove);
    if to_remove.last() == index {
        assert(all[prior.len() as int]->Remove_replica_name == replica_name_of(service, index));
    } else {
        let t = choose|t: int| 0 <= t < to_remove.len() && to_remove[t] == index;
        assert(rest[t] == index);
        lemma_removals_complete(c, service, rest, index);
        let k = choose|k: int|
            0 <= k < prior.len() && (#[trigger] prior[k]) is Remove && prior[k]->Remove_replica_name
                == replica_name_of(service, index);
        assert(all[k] == prior[k]);
    }
}

/// The jobs of all services ask for all that is lacking and end all that is too much.
pub proof fn lemma_jobs_complete(c: Cluster, services: Seq<(Seq<char>, ServiceRecordView)>)
    ensures
        forall|m: int, index: u32|
            #![trigger c.present(services[m].0, services[m].1).contains(index)]
            0 <= m < services.len() && index < services[m].1.desired_replicas && !c.present(
                services[m].0,
                services[m].1,
            ).contains(index) ==> exists|k: int|
                0 <= k < c.jobs(services).len() && (#[trigger] c.jobs(services)[k]) is Place
                    && c.jobs(services)[k]->Place_replica_name == replica_name_of(services[m].0, index),
        forall|m: int, index: u32|
            #![trigger c.present(services[m].0, services[m].1).contains(index)]
            0 <= m < services.len() && index >= services[m].1.desired_replicas && c.present(
                services[m].0,
                services[m].1,
            ).contains(index) && c.nodes.dom().contains(replica_name_of(services[m].0, index)) && c.registry.resolve(
                c.nodes[replica_name_of(services[m].0, index)],
                c.now,
            ) is Ok ==> exists|k: int|
                0 <= k < c.jobs(services).len() && (#[trigger] c.jobs(services)[k]) is Remove
                    && c.jobs(services)[k]->Remove_replica_name == replica_name_of(services[m].0, index),
    decreases services.len(),
{
    if services.len() > 0 {
        let rest = services.drop_last();
        lemma_jobs_complete(c, rest);
        let before = c.jobs(rest);
        let block = c.jobs_of(services.last().0, services.last().1);
        let all = c.jobs(services);
        let b = before.len() as int;
        assert(all == before + block);
        assert forall|m: int, index: u32|
            #![trigger c.present(services[m].0, services[m].1).contains(index)]
            0 <= m < services.len() && index < services[m].1.desired_replicas && !c.present(
                services[m].0,
                services[m].1,
            ).contains(index) implies exists|k: int|
            0 <= k < all.len() && (#[trigger] all[k]) is Place && all[k]->Place_replica_name == replica_name_of(
                services[m].0,
                index,
            ) by {
            let name = replica_name_of(services[m].0, index);
            if m < rest.len() {
                assert(rest[m] == services[m]);
                assert(!c.present(rest[m].0, rest[m].1).contains(index));
                let k = choose|k: int|
                    0 <= k < before.len() && (#[trigger] before[k]) is Place && before[k]->Place_replica_name == name;
                assert(all[k] == before[k]);
            } else {
                lemma_jobs_of_complete(c, services[m], index);
                let k = choose|k: int|
                    0 <= k < block.len() && (#[trigger] block[k]) is Place && block[k]->Place_replica_name == name;
                assert(all[b + k] == block[k]);
            }
        }
        assert forall|m: int, index: u32|
            #![trigger c.present(services[m].0, services[m].1).contains(index)]
            0 <= m < services.len() && index >= services[m].1.desired_replicas && c.present(
                services[m].0,
                services[m].1,
            ).contains(index) && c.nodes.dom().contains(replica_name_of(services[m].0, index)) && c.registry.resolve(
                c.nodes[replica_name_of(services[m].0, index)],
                c.now,
            ) is Ok implies exists|k: int|
            0 <= k < all.len() && (#[trigger] all[k]) is Remove && all[k]->Remove_replica_name == replica_name_of(
                services[m].0,
                index,
            ) by {
            let name = replica_name_of(services[m].0, index);
            if m < rest.len() {
                assert(rest[m] == services[m]);
                assert(c.present(rest[m].0, rest[m].1).contains(index));
                let k = choose|k: int|
                    0 <= k < before.len() && (#[trigger] before[k]) is Remove && before[k]->Remove_replica_name == name;
                assert(all[k] == before[k]);
            } else {
                lemma_jobs_of_complete(c, services[m], index);
                let k = choose|k: int|
                    0 <= k < block.len() && (#[trigger] block[k]) is Remove && block[k]->Remove_replica_name == name;
                assert(all[b + k] == block[k]);
            }
        }
    }
}

/// One job comes before another of the same service: of two that are lacking the one with the lower index, and what is
/// lacking before what is too much.
pub open spec fn comes_before(x: JobView, y: JobView) -> bool {
    forall|s: Seq<char>|
        #![trigger replica_index_of(s, job_name(x)), replica_index_of(s, job_name(y))]
        !(x is Begin) && !(y is Begin) && replica_index_of(s, job_name(x)) is Some && replica_index_of(
            s,
            job_name(y),
        ) is Some ==> !(x is Remove && y is Place) && (x is Place && y is Place ==> replica_index_of(s, job_name(x))->0
            < replica_index_of(s, job_name(y))->0)
}

/// The replica that a job is about.
pub open spec fn job_name(job: JobView) -> Seq<char> {
    match job {
        JobView::Begin { .. } => Seq::empty(),
        JobView::Place { replica_name, .. } => replica_name,
        JobView::Remove { replica_name, .. } => replica_name,
    }
}

proof fn lemma_jobs_of_ascend(c: Cluster, service: (Seq<char>, ServiceRecordView))
    ensures
        forall|k: int, l: int|
            0 <= k < l < c.jobs_of(service.0, service.1).len() ==> comes_before(
                #[trigger] c.jobs_of(service.0, service.1)[k],
                #[trigger] c.jobs_of(service.0, service.1)[l],
            ),
{
    let (name, record) = service;
    let present = c.present(name, record);
    let to_add = missing(present, record.desired_replicas as nat);
    let to_remove = to_remove_of(present, record.desired_replicas);
    lemma_missing(present, record.desired_replicas as nat);
    lemma_to_remove(present, record.desired_replicas as nat, 0x1_0000_0000);
    lemma_removals(c, name, to_remove);
    let places = c.places(name, record.template, to_add);
    let removals = c.removals(name, to_remove);
    let all = c.jobs_of(name, record);
    let a = 1 + places.len();
    assert forall|k: int| 0 <= k < all.len() implies (k == 0 ==> all[k] is Begin) && (0 < k < a ==> all[k] == places[k
        - 1]) && (k >= a ==> #[trigger] all[k] == removals[k - a]) by {}
    assert forall|k: int, l: int| 0 <= k < l < all.len() implies comes_before(#[trigger] all[k], #[trigger] all[l]) by {
        let x = all[k];
        let y = all[l];
        assert forall|s: Seq<char>|
            #![trigger replica_index_of(s, job_name(x)), replica_index_of(s, job_name(y))]
            !(x is Begin) && !(y is Begin) && replica_index_of(s, job_name(x)) is Some && replica_index_of(
                s,
                job_name(y),
            ) is Some implies !(x is Remove && y is Place) && (x is Place && y is Place ==> replica_index_of(
            s,
            job_name(x),
        )->0 < replica_index_of(s, job_name(y))->0) by {
            if x is Place && y is Place {
                assert(0 < k < a && 0 < l < a);
                let i = to_add[k - 1];
                let j = to_add[l - 1];
                assert(i < j);
                lemma_replica_index(name, i);
                lemma_replica_index(name, j);
                lemma_one_service(s, name, job_name(x));
            }
            if k >= a {
                assert(removals[k - a] is Remove);
                assert(removals[l - a] is Remove);
            }
        }
    }
}

/// The jobs of one service stand in order.
pub proof fn lemma_jobs_ascend(c: Cluster, services: Seq<(Seq<char>, ServiceRecordView)>)
    requires
        distinct_services(services),
    ensures
        forall|k: int, l: int|
            0 <= k < l < c.jobs(services).len() ==> comes_before(
                #[trigger] c.jobs(services)[k],
                #[trigger] c.jobs(services)[l],
            ),
    decreases services.len(),
{
    if services.len() > 0 {
        let rest = services.drop_last();
        let last = services.last();
        let n = services.len() - 1;
        assert forall|m: int| 0 <= m < rest.len() implies #[trigger] rest[m] == services[m] by {}
        assert(services[n] == last);
        lemma_jobs_ascend(c, rest);
        lemma_jobs_of_ascend(c, last);
        lemma_jobs(c, rest);
        lemma_jobs_of(c, last);
        let before = c.jobs(rest);
        let block = c.jobs_of(last.0, last.1);
        let all = c.jobs(services);
        let b = before.len() as int;
        assert(all == before + block);
        assert forall|k: int| 0 <= k < all.len() implies (k < b ==> #[trigger] all[k] == before[k]) && (k >= b
            ==> all[k] == block[k - b]) by {}
        assert forall|k: int, l: int| 0 <= k < l < all.len() implies comes_before(#[trigger] all[k], #[trigger] all[l]) by {
            if l < b {
                assert(all[k] == before[k] && all[l] == before[l]);
            } else if k >= b {
                assert(all[k] == block[k - b] && all[l] == block[l - b]);
            } else {
                let x = before[k];
                let y = block[l - b];
                assert(all[k] == x && all[l] == y);
                let m = choose|m: int| 0 <= m < rest.len() && c.job_for(#[trigger] rest[m], #[trigger] before[k]);
                assert(services[m].0 != services[n].0);
                assert(c.job_for(last, y));
                lemma_job_name(c, rest[m], x);
                lemma_job_name(c, last, y);
                assert forall|s: Seq<char>|
                    #![trigger replica_index_of(s, job_name(x)), replica_index_of(s, job_name(y))]
                    !(x is Begin) && !(y is Begin) && replica_index_of(s, job_name(x)) is Some implies !(replica_index_of(
                    s,
                    job_name(y),
                ) is Some) by {
                    lemma_one_service(s, rest[m].0, job_name(x));
                    if replica_index_of(s, job_name(y)) is Some {
                        lemma_one_service(s, last.0, job_name(y));
                    }
                }
            }
        }
    }
}

/// Jobs of different services.
spec fn cross_distinct(x: JobView, y: JobView) -> bool {
    &&& x is Place && y is Place ==> x->Place_replica_name != y->Place_replica_name
    &&& x is Begin && y is Begin ==> x->service != y->service
    &&& x is Remove && y is Remove ==> {
        &&& x->Remove_replica_name != y->Remove_replica_name
        &&& forall|s: Seq<char>|
            replica_index_of(s, x->Remove_replica_name) is Some ==> !((#[trigger] replica_index_of(
                s,
                y->Remove_replica_name,
            )) is Some)
    }
}

/// An index is present exactly if a placed jail is that replica of the service, and counts.
pub proof fn lemma_present(
    service: Seq<char>,
    stateful: bool,
    placed: Seq<(Seq<char>, Seq<char>)>,
    registry: RegistryView,
    now: u64,
    index: u32,
)
    ensures
        present_of(service, stateful, placed, registry, now).contains(index) <==> exists|i: int|
            {
                &&& 0 <= i < placed.len()
                &&& (#[trigger] placed[i]).0 == replica_name_of(service, index)
                &&& stateful || registry.resolve(placed[i].1, now) is Ok
            },
    decreases placed.len(),
{
    if placed.len() > 0 {
        let rest = placed.drop_last();
        lemma_present(service, stateful, rest, registry, now, index);
        let n = placed.len() - 1;
        let last = placed.last();
        assert(placed[n] == last);
        lemma_replica_index(service, index);
        if let Some(i) = replica_index_of(service, last.0) {
            assert(last.0 == replica_name_of(service, i));
        }
        if present_of(service, stateful, rest, registry, now).contains(index) {
            let i = choose|i: int|
                {
                    &&& 0 <= i < rest.len()
                    &&& (#[trigger] rest[i]).0 == replica_name_of(service, index)
                    &&& stateful || registry.resolve(rest[i].1, now) is Ok
                };
            assert(placed[i] == rest[i]);
        }
        if exists|i: int|
            {
                &&& 0 <= i < placed.len()
                &&& (#[trigger] placed[i]).0 == replica_name_of(service, index)
                &&& stateful || registry.resolve(placed[i].1, now) is Ok
            } {
            let i = choose|i: int|
                {
                    &&& 0 <= i < placed.len()
                    &&& (#[trigger] placed[i]).0 == replica_name_of(service, index)
                    &&& stateful || registry.resolve(placed[i].1, now) is Ok
                };
            if i < n {
                assert(rest[i] == placed[i]);
            }
        }
    }
}

} // verus!
