use keel::controlplane::addresses::{address_text, Ipv4Cidr, UsedAddresses};
use keel::controlplane::cordoned::Cordoned;
use keel::controlplane::pending_fences::PendingFences;
use keel::controlplane::placements::Placements;
use keel::controlplane::reconcile::ReplicaAction;
use keel::controlplane::registry::{PodCidrCollision, Registration, Registry, Report, ResolveError, UnknownNode};
use keel::controlplane::scheduler::{is_schedulable, NodeResources, ScheduleError};
use keel::controlplane::services::{ApplyServiceError, Owner, ServiceRecord, Services, UnknownService};
use keel::controlplane::standbys::Standbys;
use keel::controlplane::worker::{
    handle_command, Command, ControlPlane, ForceRepinError, ForceRepinPrep, Outcome, PlacementError, Reply,
    ScheduleOrResolveError, StateFile,
};
use keel::jail::{JailTemplate, ResourcesSpec, RestartPolicy, TemplateNetworkSpec, VolumeMount};
use keel::wire::{
    CpuCores, IngressHealth, JailHealth, NodeState, NodeStatus, ServiceProxyEntry, ServiceReplica, ServiceSummary,
};
use std::collections::HashSet;

const SECOND: u64 = 1_000_000_000;

fn cores(n: f64) -> CpuCores {
    CpuCores { bits: n.to_bits(), shown: format!("{n:.2}") }
}

fn ip(s: &str) -> u32 {
    s.split('.').fold(0, |n, part| n * 256 + part.parse::<u32>().unwrap())
}

fn pod_cidr(id: &str) -> Ipv4Cidr {
    let sum: u32 = id.bytes().map(|b| b as u32).sum();
    Ipv4Cidr { addr: ip("10.0.0.0") + (sum % 250) * 256, prefix_len: 24 }
}

fn vip(name: &str) -> u32 {
    let sum: u32 = name.bytes().map(|b| b as u32).sum();
    ip("10.0.250.0") + 1 + sum % 250
}

fn headroom(node: &NodeResources) -> f64 {
    let spent_cpu: f64 = node.spent_cpu.iter().filter_map(|c| c.parse::<f64>().ok()).sum();
    let spent_memory: u64 = node.spent_memory.iter().sum();
    let capacity_cpu = f64::from_bits(node.capacity_cpu.bits);
    let committed_cpu = f64::from_bits(node.committed_cpu.bits) + spent_cpu;
    let committed_memory = (node.committed_memory + spent_memory) as f64;
    let cpu = (capacity_cpu - committed_cpu) / capacity_cpu;
    let memory = (node.capacity_memory as f64 - committed_memory) / node.capacity_memory as f64;
    cpu.min(memory)
}

fn best(nodes: &Vec<NodeResources>) -> Option<usize> {
    let mut found: Option<(usize, f64)> = None;
    for (i, node) in nodes.iter().enumerate() {
        let score = headroom(node);
        if found.map_or(true, |(_, top)| score > top) {
            found = Some((i, score));
        }
    }
    found.map(|(i, _)| i)
}

struct Worker {
    state: ControlPlane,
    now: u64,
    persisted: Vec<StateFile>,
}

impl Worker {
    fn new() -> Self {
        Worker { state: ControlPlane::new(30 * SECOND), now: 1000 * SECOND, persisted: Vec::new() }
    }

    fn send(&mut self, command: Command) -> Reply {
        let Outcome { reply, persist } = handle_command(&mut self.state, command, self.now, &best);
        self.persisted.extend(persist);
        reply
    }

    /// A worker with the tables that were written down, and nothing else.
    fn restarted(self) -> Worker {
        let mut next = Worker::new();
        for file in self.persisted {
            match file {
                StateFile::Placements => {
                    next.state.placements =
                        Placements::load(self.state.placements.jails(), self.state.placements.generations());
                }
                StateFile::UsedAddresses => {
                    next.state.used_addresses = UsedAddresses::load(self.state.used_addresses.leases());
                }
                StateFile::Standbys => next.state.standbys = Standbys::load(self.state.standbys.pairs()),
                StateFile::PendingFences => {
                    next.state.pending_fences = PendingFences::load(self.state.pending_fences.pairs());
                }
                StateFile::Cordoned => next.state.cordoned = Cordoned::load(self.state.cordoned.ids()),
                StateFile::Services => {
                    let services = &self.state.services;
                    let mut records = Vec::new();
                    for i in 0..services.len() {
                        let (name, r) = services.at(i);
                        let record = ServiceRecord {
                            desired_replicas: r.desired_replicas,
                            template: r.template.clone(),
                            vip: r.vip,
                            port: r.port,
                        };
                        records.push((name.to_string(), record));
                    }
                    next.state.services = Services::load(records);
                }
            }
        }
        next
    }

    fn register(
        &mut self,
        id: String,
        addr: String,
        replicate_addr: Option<String>,
        capacity_cpu: f64,
        capacity_memory: u64,
    ) -> Result<Ipv4Cidr, PodCidrCollision> {
        let pod_cidr = pod_cidr(&id);
        let registration =
            Registration { addr, replicate_addr, pod_cidr, capacity_cpu: cores(capacity_cpu), capacity_memory };
        match self.send(Command::Register(id, registration)) {
            Reply::Registered(r) => r,
            other => panic!("unexpected reply: {other:?}"),
        }
    }

    fn heartbeat(
        &mut self,
        id: String,
        committed_cpu: f64,
        committed_memory: u64,
        jails: Vec<JailHealth>,
        ingresses: Vec<IngressHealth>,
    ) -> Result<(), UnknownNode> {
        let report = Report { committed_cpu: cores(committed_cpu), committed_memory, jails, ingresses };
        match self.send(Command::Heartbeat(id, report)) {
            Reply::Heartbeat(r) => r,
            other => panic!("unexpected reply: {other:?}"),
        }
    }

    fn apply_service(
        &mut self,
        name: String,
        replicas: u32,
        template: JailTemplate,
        port: u16,
    ) -> Result<(), ApplyServiceError> {
        let vip = vip(&name);
        match self.send(Command::ApplyService(name, replicas, template, port, vip)) {
            Reply::Applied(r) => r,
            other => panic!("unexpected reply: {other:?}"),
        }
    }

    fn list(&mut self) -> Vec<NodeStatus> {
        match self.send(Command::List) {
            Reply::Nodes(r) => r,
            other => panic!("unexpected reply: {other:?}"),
        }
    }

    fn resolve(&mut self, id: String) -> Result<String, ResolveError> {
        match self.send(Command::Resolve(id)) {
            Reply::Resolved(r) => r,
            other => panic!("unexpected reply: {other:?}"),
        }
    }

    fn resolve_or_schedule(&mut self, jail: String) -> Result<(String, String), ScheduleOrResolveError> {
        match self.send(Command::ResolveOrSchedule(jail)) {
            Reply::Scheduled(r) => r,
            other => panic!("unexpected reply: {other:?}"),
        }
    }

    fn resolve_placement(&mut self, jail: String) -> Result<(String, String), PlacementError> {
        match self.send(Command::ResolvePlacement(jail)) {
            Reply::Placement(r) => r,
            other => panic!("unexpected reply: {other:?}"),
        }
    }

    fn record_placement(&mut self, jail: String, node: String) {
        assert_eq!(self.send(Command::RecordPlacement(jail, node)), Reply::Done);
    }

    fn remove_placement(&mut self, jail: String) {
        assert_eq!(self.send(Command::RemovePlacement(jail)), Reply::Done);
    }

    fn owner_of(&mut self, name: String) -> Option<Owner> {
        match self.send(Command::OwnerOf(name)) {
            Reply::Owner(r) => r,
            other => panic!("unexpected reply: {other:?}"),
        }
    }

    fn reconcile_services(&mut self) -> Vec<ReplicaAction> {
        match self.send(Command::ReconcileServices) {
            Reply::Actions(r) => r,
            other => panic!("unexpected reply: {other:?}"),
        }
    }

    fn discover_service(&mut self, name: String) -> Result<Vec<ServiceReplica>, UnknownService> {
        match self.send(Command::DiscoverService(name)) {
            Reply::Replicas(r) => r,
            other => panic!("unexpected reply: {other:?}"),
        }
    }

    fn list_services(&mut self) -> Vec<ServiceSummary> {
        match self.send(Command::ListServices) {
            Reply::Services(r) => r,
            other => panic!("unexpected reply: {other:?}"),
        }
    }

    fn list_service_proxy_entries(&mut self) -> Vec<ServiceProxyEntry> {
        match self.send(Command::ListServiceProxyEntries) {
            Reply::ProxyEntries(r) => r,
            other => panic!("unexpected reply: {other:?}"),
        }
    }

    fn delete_service(&mut self, name: String) -> Result<Vec<ReplicaAction>, UnknownService> {
        match self.send(Command::DeleteService(name)) {
            Reply::Deleted(r) => r,
            other => panic!("unexpected reply: {other:?}"),
        }
    }

    fn record_replica_address(&mut self, jail: String, node: String, address: u32) {
        assert_eq!(self.send(Command::RecordReplicaAddress(jail, node, address)), Reply::Done);
    }

    fn release_replica_address(&mut self, jail: String) {
        assert_eq!(self.send(Command::ReleaseReplicaAddress(jail)), Reply::Done);
    }

    fn record_standby(&mut self, replica: String, node: String) {
        assert_eq!(self.send(Command::RecordStandby(replica, node)), Reply::Done);
    }

    fn remove_standby(&mut self, replica: String) {
        assert_eq!(self.send(Command::RemoveStandby(replica)), Reply::Done);
    }

    fn record_pending_fence(&mut self, replica: String, node: String) {
        assert_eq!(self.send(Command::RecordPendingFence(replica, node)), Reply::Done);
    }

    fn remove_pending_fence(&mut self, replica: String) {
        assert_eq!(self.send(Command::RemovePendingFence(replica)), Reply::Done);
    }

    fn pending_fences_for_node(&mut self, node: String) -> Vec<String> {
        match self.send(Command::PendingFencesForNode(node)) {
            Reply::PendingFences(r) => r,
            other => panic!("unexpected reply: {other:?}"),
        }
    }

    fn prepare_force_repin(&mut self, replica: String) -> Result<ForceRepinPrep, ForceRepinError> {
        match self.send(Command::PrepareForceRepin(replica)) {
            Reply::Repin(r) => r,
            other => panic!("unexpected reply: {other:?}"),
        }
    }

    fn prepare_drain_repin(&mut self, replica: String) -> Result<ForceRepinPrep, ForceRepinError> {
        match self.send(Command::PrepareDrainRepin(replica)) {
            Reply::Repin(r) => r,
            other => panic!("unexpected reply: {other:?}"),
        }
    }

    fn cordon(&mut self, node: String) -> Result<(), UnknownNode> {
        match self.send(Command::Cordon(node)) {
            Reply::Cordon(r) => r,
            other => panic!("unexpected reply: {other:?}"),
        }
    }

    fn uncordon(&mut self, node: String) -> Result<(), UnknownNode> {
        match self.send(Command::Uncordon(node)) {
            Reply::Cordon(r) => r,
            other => panic!("unexpected reply: {other:?}"),
        }
    }
}

fn test_node_status(id: &str, status: NodeState) -> NodeStatus {
    NodeStatus {
        id: id.to_string(),
        addr: "192.168.64.4".to_string(),
        pod_cidr: "10.0.4.0/24".to_string(),
        status,
        last_seen_secs: 0,
        capacity_cpu: cores(0.0),
        capacity_memory: 0,
        committed_cpu: cores(0.0),
        committed_memory: 0,
        ingresses: vec![],
    }
}

#[test]
fn is_schedulable_excludes_dead_and_cordoned_nodes() {
    let cordoned = {
        let mut c = Cordoned::new();
        c.cordon("node-cordoned".to_string());
        c
    };
    let alive_schedulable = test_node_status("node-1", NodeState::Alive);
    let alive_cordoned = test_node_status("node-cordoned", NodeState::Alive);
    let dead_uncordoned = test_node_status("node-2", NodeState::Dead);

    assert!(is_schedulable(&alive_schedulable, &cordoned));
    assert!(!is_schedulable(&alive_cordoned, &cordoned));
    assert!(!is_schedulable(&dead_uncordoned, &cordoned));
}

fn template() -> JailTemplate {
    JailTemplate {
        image: "base/14.2-web".to_string(),
        command: vec!["/usr/local/bin/myapp".to_string()],
        network: TemplateNetworkSpec {
            vnet: true,
            bridge: "keel0".to_string(),
        },
        resources: ResourcesSpec {
            cpu: "1".to_string(),
            memory: "256M".to_string(),
        },
        restart_policy: RestartPolicy::Always,
        volumes: vec![],
    }
}

#[test]
fn register_command_makes_the_node_visible_in_list() {
    let mut commands = Worker::new();

    commands.register("node-1".to_string(), "10.0.0.1".to_string(), None, 4.0, 8 * 1024 * 1024 * 1024).unwrap();

    let statuses = commands.list();
    assert_eq!(statuses.len(), 1);
    assert_eq!(statuses[0].id, "node-1");
}

#[test]
fn heartbeat_command_on_unknown_id_returns_an_error() {
    let mut commands = Worker::new();

    let hb_reply = commands.heartbeat("missing".to_string(), 0.0, 0, vec![], vec![]);
    assert!(hb_reply.is_err());
}

#[test]
fn heartbeat_command_on_a_registered_node_succeeds() {
    let mut commands = Worker::new();

    commands.register("node-1".to_string(), "10.0.0.1".to_string(), None, 4.0, 8 * 1024 * 1024 * 1024).unwrap();

    let hb_reply = commands.heartbeat("node-1".to_string(), 0.0, 0, vec![], vec![]);
    assert!(hb_reply.is_ok());
}

#[test]
fn apply_service_command_carries_the_port_through() {
    let mut commands = Worker::new();
    commands.apply_service("web".to_string(), 1, template(), 8080).unwrap();

    let summaries = commands.list_services();
    assert_eq!(summaries[0].port, 8080);
    assert_ne!(summaries[0].vip, "0.0.0.0", "expected a real derived VIP");
}

#[test]
fn list_service_proxy_entries_reflects_only_alive_and_running_replicas() {
    let mut commands = Worker::new();
    register_node(&mut commands, "node-1", "10.0.0.1", 4.0, 8 * 1024 * 1024 * 1024);

    commands.apply_service("web".to_string(), 1, template(), 8080).unwrap();

    commands.record_placement("web-0".to_string(), "node-1".to_string());

    let entries = commands.list_service_proxy_entries();
    assert_eq!(entries.len(), 1);
    assert_eq!(entries[0].name, "web");
    assert_eq!(entries[0].port, 8080);
    assert!(
        entries[0].replicas.is_empty(),
        "web-0 has no recorded address/running-jail signal yet"
    );
}

#[test]
fn list_service_proxy_entries_is_empty_with_no_services() {
    let mut commands = Worker::new();
    let reply = commands.list_service_proxy_entries();
    assert_eq!(reply, vec![]);
}

#[test]
fn list_command_on_a_fresh_worker_is_empty() {
    let mut commands = Worker::new();

    let list_reply = commands.list();
    assert_eq!(list_reply, vec![]);
}

#[test]
fn resolve_command_on_a_registered_alive_node_returns_its_address() {
    let mut commands = Worker::new();

    commands.register("node-1".to_string(), "10.0.0.1".to_string(), None, 4.0, 8 * 1024 * 1024 * 1024).unwrap();

    let resolve_reply = commands.resolve("node-1".to_string());
    assert_eq!(resolve_reply, Ok("10.0.0.1".to_string()));
}

#[test]
fn resolve_command_on_an_unknown_node_returns_an_error() {
    let mut commands = Worker::new();

    let resolve_reply = commands.resolve("missing".to_string());
    assert!(resolve_reply.is_err());
}

fn register_node(
    commands: &mut Worker,
    id: &str,
    addr: &str,
    capacity_cpu: f64,
    capacity_memory: u64,
) {
    commands.register(id.to_string(), addr.to_string(), None, capacity_cpu, capacity_memory).unwrap();
}

fn register_node_with_replicate_addr(
    commands: &mut Worker,
    id: &str,
    addr: &str,
    replicate_addr: &str,
    capacity_cpu: f64,
    capacity_memory: u64,
) {
    commands.register(id.to_string(), addr.to_string(), Some(replicate_addr.to_string()), capacity_cpu, capacity_memory).unwrap();
}

fn heartbeat_node(
    commands: &mut Worker,
    id: &str,
    committed_cpu: f64,
    committed_memory: u64,
) {
    commands.heartbeat(id.to_string(), committed_cpu, committed_memory, vec![], vec![]).unwrap();
}

#[test]
fn resolve_or_schedule_on_a_fresh_jail_name_with_equal_headroom_breaks_ties_by_ascending_id() {
    let mut commands = Worker::new();
    register_node(&mut commands, "node-1", "10.0.0.1", 4.0, 8 * 1024 * 1024 * 1024);
    register_node(&mut commands, "node-2", "10.0.0.2", 4.0, 8 * 1024 * 1024 * 1024);

    let reply = commands.resolve_or_schedule("web-1".to_string());
    assert_eq!(
        reply,
        Ok(("node-1".to_string(), "10.0.0.1".to_string()))
    );
}

#[test]
fn resolve_or_schedule_on_a_fresh_jail_name_schedules_onto_the_node_with_more_headroom() {
    let mut commands = Worker::new();
    register_node(&mut commands, "node-1", "10.0.0.1", 4.0, 100);
    register_node(&mut commands, "node-2", "10.0.0.2", 4.0, 100);
    heartbeat_node(&mut commands, "node-1", 3.0, 10); // 25% cpu headroom
    heartbeat_node(&mut commands, "node-2", 1.0, 10); // 75% cpu headroom

    let reply = commands.resolve_or_schedule("web-1".to_string());
    assert_eq!(
        reply,
        Ok(("node-2".to_string(), "10.0.0.2".to_string()))
    );
}

#[test]
fn resolve_or_schedule_on_an_already_placed_jail_is_sticky() {
    let mut commands = Worker::new();
    register_node(&mut commands, "node-1", "10.0.0.1", 4.0, 8 * 1024 * 1024 * 1024);
    register_node(&mut commands, "node-2", "10.0.0.2", 4.0, 8 * 1024 * 1024 * 1024);

    commands.record_placement("web-1".to_string(), "node-1".to_string());

    let reply = commands.resolve_or_schedule("web-1".to_string());
    assert_eq!(
        reply,
        Ok(("node-1".to_string(), "10.0.0.1".to_string()))
    );
}

#[test]
fn resolve_or_schedule_with_no_alive_nodes_returns_no_available_nodes() {
    let mut commands = Worker::new();

    let reply = commands.resolve_or_schedule("web-1".to_string());
    assert_eq!(
        reply,
        Err(ScheduleOrResolveError::Schedule(
            ScheduleError::NoAvailableNodes
        ))
    );
}

#[test]
fn resolve_placement_on_an_unplaced_jail_returns_not_placed() {
    let mut commands = Worker::new();

    let reply = commands.resolve_placement("web-1".to_string());
    assert_eq!(
        reply,
        Err(PlacementError::NotPlaced("web-1".to_string()))
    );
}

#[test]
fn record_then_remove_placement_is_reflected_by_resolve_placement() {
    let mut commands = Worker::new();
    register_node(&mut commands, "node-1", "10.0.0.1", 4.0, 8 * 1024 * 1024 * 1024);

    commands.record_placement("web-1".to_string(), "node-1".to_string());

    let reply = commands.resolve_placement("web-1".to_string());
    assert_eq!(
        reply,
        Ok(("node-1".to_string(), "10.0.0.1".to_string()))
    );

    commands.remove_placement("web-1".to_string());

    let reply2 = commands.resolve_placement("web-1".to_string());
    assert_eq!(
        reply2,
        Err(PlacementError::NotPlaced("web-1".to_string()))
    );
}

#[test]
fn apply_service_command_creates_a_new_service() {
    let mut commands = Worker::new();

    let reply = commands.apply_service("web".to_string(), 3, template(), 8080);
    assert_eq!(reply, Ok(()));
}

#[test]
fn apply_service_command_rejects_a_template_change_on_an_existing_service() {
    let mut commands = Worker::new();

    commands.apply_service("web".to_string(), 3, template(), 8080).unwrap();

    let mut changed = template();
    changed.image = "base/different-image".to_string();
    let reply2 = commands.apply_service("web".to_string(), 3, changed, 8080);
    assert_eq!(
        reply2,
        Err(ApplyServiceError::TemplateChanged("web".to_string()))
    );
}

#[test]
fn apply_service_command_rejects_a_name_already_used_by_an_unmanaged_jail() {
    let mut commands = Worker::new();

    commands.record_placement("web-0".to_string(), "node-1".to_string());

    let reply = commands.apply_service("web".to_string(), 1, template(), 8080);
    assert_eq!(
        reply,
        Err(ApplyServiceError::NameConflict {
            name: "web-0".to_string(),
            owner: Owner::Unmanaged
        })
    );
}

#[test]
fn apply_service_command_reapplying_the_same_service_with_more_replicas_does_not_conflict_with_itself(
) {
    let mut commands = Worker::new();

    commands.apply_service("web".to_string(), 1, template(), 8080).unwrap();

    commands.record_placement("web-0".to_string(), "node-1".to_string());

    let reply2 = commands.apply_service("web".to_string(), 3, template(), 8080);
    assert_eq!(reply2, Ok(()));
}

#[test]
fn owner_of_command_on_an_unplaced_name_is_none() {
    let mut commands = Worker::new();

    let reply = commands.owner_of("web-0".to_string());
    assert_eq!(reply, None);
}

#[test]
fn owner_of_command_on_a_service_replica_names_that_service() {
    let mut commands = Worker::new();

    commands.apply_service("web".to_string(), 1, template(), 8080).unwrap();
    commands.record_placement("web-0".to_string(), "node-1".to_string());

    let reply = commands.owner_of("web-0".to_string());
    assert_eq!(reply, Some(Owner::Service("web".to_string())));
}

fn apply_service(commands: &mut Worker, name: &str, replicas: u32) {
    commands.apply_service(name.to_string(), replicas, template(), 8080).unwrap();
}

fn stateful_template() -> JailTemplate {
    let mut t = template();
    t.volumes = vec![VolumeMount {
        name: "data".to_string(),
        mount_path: "/data".to_string(),
        size: "1G".to_string(),
    }];
    t
}

fn apply_service_with_template(
    commands: &mut Worker,
    name: &str,
    replicas: u32,
    template: JailTemplate,
) {
    commands.apply_service(name.to_string(), replicas, template, 8080).unwrap();
}

fn record_placement(commands: &mut Worker, jail_name: &str, node_id: &str) {
    commands.record_placement(jail_name.to_string(), node_id.to_string());
}

fn reconcile(commands: &mut Worker) -> Vec<ReplicaAction> {
    commands.reconcile_services()
}

fn heartbeat_with_jails(
    commands: &mut Worker,
    id: &str,
    jails: Vec<JailHealth>,
) {
    commands.heartbeat(id.to_string(), 0.0, 0, jails, vec![]).unwrap();
}

fn running(name: &str) -> JailHealth {
    JailHealth {
        name: name.to_string(),
        running: true,
    }
}

#[test]
fn reconcile_services_after_a_simulated_restart_does_not_duplicate_an_already_placed_replica() {
    let mut commands = Worker::new();
    register_node(&mut commands, "node-1", "10.0.0.1", 4.0, 8 * 1024 * 1024 * 1024);
    apply_service(&mut commands, "web", 1);
    record_placement(&mut commands, "web-0", "node-1");
    commands.record_replica_address("web-0".to_string(), "node-1".to_string(), ip("10.0.60.2"));
    heartbeat_with_jails(&mut commands, "node-1", vec![running("web-0")]);

    let mut restarted_commands = commands.restarted();
    register_node(&mut restarted_commands, "node-1", "10.0.0.1", 4.0, 8 * 1024 * 1024 * 1024);
    heartbeat_with_jails(&mut restarted_commands, "node-1", vec![running("web-0")]);

    assert_eq!(
        reconcile(&mut restarted_commands),
        vec![],
        "the already-placed replica must not be seen as missing and rescheduled after a restart"
    );
}

#[test]
fn every_remaining_mutating_command_persists_and_survives_a_simulated_restart() {
    let mut commands = Worker::new();
    register_node(&mut commands, "node-1", "10.0.0.1", 4.0, 8 * 1024 * 1024 * 1024);

    commands.record_standby("db-0".to_string(), "node-2".to_string());

    commands.record_pending_fence("db-1".to_string(), "node-3".to_string());

    commands.record_pending_fence("db-2".to_string(), "node-4".to_string());
    commands.remove_pending_fence("db-2".to_string());

    commands.record_replica_address("db-3".to_string(), "node-1".to_string(), ip("10.0.60.5"));
    commands.record_replica_address("db-4".to_string(), "node-1".to_string(), ip("10.0.60.6"));
    commands.release_replica_address("db-4".to_string());

    commands.record_placement("db-5".to_string(), "node-1".to_string());
    commands.record_placement("db-6".to_string(), "node-1".to_string());
    commands.remove_placement("db-6".to_string());

    apply_service(&mut commands, "web", 1);
    apply_service(&mut commands, "api", 1);
    commands.delete_service("api".to_string()).unwrap();

    let restarted = commands.restarted().state;
    assert_eq!(restarted.standbys.get("db-0"), Some("node-2"), "RecordStandby must survive a restart");
    assert_eq!(
        restarted.pending_fences.for_node("node-3"),
        vec!["db-1".to_string()],
        "RecordPendingFence must survive a restart"
    );
    assert_eq!(
        restarted.pending_fences.for_node("node-4"),
        Vec::<String>::new(),
        "RemovePendingFence must survive a restart"
    );
    assert_eq!(
        restarted.used_addresses.address_of("db-3"),
        Some(ip("10.0.60.5")),
        "RecordReplicaAddress must survive a restart"
    );
    assert_eq!(
        restarted.used_addresses.address_of("db-4"),
        None,
        "ReleaseReplicaAddress must survive a restart"
    );
    assert_eq!(restarted.placements.get("db-5"), Some("node-1"), "RecordPlacement must survive a restart");
    assert_eq!(restarted.placements.get("db-6"), None, "RemovePlacement must survive a restart");
    assert!(restarted.services.get("web").is_some(), "ApplyService must survive a restart");
    assert!(restarted.services.get("api").is_none(), "DeleteService must survive a restart");
}

#[test]
fn reconcile_services_tracks_headroom_spent_earlier_in_the_same_pass() {
    let mut commands = Worker::new();
    register_node(&mut commands, "node-1", "10.0.0.1", 4.0, 8 * 1024 * 1024 * 1024);
    register_node(&mut commands, "node-2", "10.0.0.2", 4.0, 8 * 1024 * 1024 * 1024);

    let mut heavy = template();
    heavy.resources.cpu = "3".to_string();
    apply_service_with_template(&mut commands, "svc-a", 1, heavy);

    let mut light = template();
    light.resources.cpu = "1".to_string();
    apply_service_with_template(&mut commands, "svc-b", 1, light);

    let actions = reconcile(&mut commands);
    assert_eq!(actions.len(), 2);
    let node_for = |replica_name: &str| {
        actions
            .iter()
            .find_map(|a| match a {
                ReplicaAction::Schedule {
                    replica_name: r,
                    node_id,
                    ..
                } if r == replica_name => Some(node_id.clone()),
                _ => None,
            })
            .unwrap_or_else(|| {
                panic!("no Schedule action found for {replica_name}, got: {actions:?}")
            })
    };
    let svc_a_node = node_for("svc-a-0");
    let svc_b_node = node_for("svc-b-0");
    assert_ne!(
        svc_a_node, svc_b_node,
        "svc-b must not pile onto the same node svc-a just loaded in this pass while an idle node sits available, got: {actions:?}"
    );
}

#[test]
fn reconcile_services_schedules_every_replica_of_a_brand_new_service_across_distinct_nodes() {
    let mut commands = Worker::new();
    register_node(&mut commands, "node-1", "10.0.0.1", 4.0, 8 * 1024 * 1024 * 1024);
    register_node(&mut commands, "node-2", "10.0.0.2", 4.0, 8 * 1024 * 1024 * 1024);
    apply_service(&mut commands, "web", 2);

    let actions = reconcile(&mut commands);
    assert_eq!(actions.len(), 2);
    let node_ids: HashSet<String> = actions
        .iter()
        .map(|a| match a {
            ReplicaAction::Schedule { node_id, .. } => node_id.clone(),
            ReplicaAction::TearDown { .. } => panic!("expected only Schedule actions"),
        })
        .collect();
    assert_eq!(
        node_ids.len(),
        2,
        "expected the two replicas spread across two distinct nodes, got: {actions:?}"
    );
}

#[test]
fn reconcile_services_is_idempotent_once_replicas_are_recorded_placed_and_reported_healthy() {
    let mut commands = Worker::new();
    register_node(&mut commands, "node-1", "10.0.0.1", 4.0, 8 * 1024 * 1024 * 1024);
    apply_service(&mut commands, "web", 1);
    reconcile(&mut commands); // computed, but not yet "recorded" as actually placed

    commands.record_placement("web-0".to_string(), "node-1".to_string());
    heartbeat_with_jails(&mut commands, "node-1", vec![running("web-0")]);

    assert_eq!(
        reconcile(&mut commands),
        vec![],
        "a fully healthy, fully-placed service needs no further actions"
    );
}

#[test]
fn reconcile_services_leaves_a_crash_looping_replica_on_a_still_alive_node_alone() {
    let mut commands = Worker::new();
    register_node(&mut commands, "node-1", "10.0.0.1", 4.0, 8 * 1024 * 1024 * 1024);
    apply_service(&mut commands, "web", 1);
    commands.record_placement("web-0".to_string(), "node-1".to_string());
    heartbeat_with_jails(
        &mut commands,
        "node-1",
        vec![JailHealth {
            name: "web-0".to_string(),
            running: false,
        }],
    );

    assert_eq!(
        reconcile(&mut commands),
        vec![],
        "a crash-looping replica on a still-Alive node must be left to local backoff, not rescheduled"
    );
}

#[test]
fn reconcile_services_reschedules_a_replica_whose_node_is_unreachable() {
    let mut commands = Worker::new();
    register_node(&mut commands, "node-1", "10.0.0.1", 4.0, 8 * 1024 * 1024 * 1024);
    apply_service(&mut commands, "web", 1);
    commands.record_placement("web-0".to_string(), "node-unreachable".to_string());

    let actions = reconcile(&mut commands);
    assert_eq!(actions.len(), 1);
    assert!(
        matches!(&actions[0], ReplicaAction::Schedule { replica_name, node_id, .. } if replica_name == "web-0" && node_id == "node-1"),
        "expected web-0 rescheduled onto the one real Alive node, got: {actions:?}"
    );
}

#[test]
fn reconcile_services_leaves_a_stateful_replica_pinned_to_a_dead_node_alone() {
    let mut commands = Worker::new();
    register_node(&mut commands, "node-1", "10.0.0.1", 4.0, 8 * 1024 * 1024 * 1024);
    apply_service_with_template(&mut commands, "db", 1, stateful_template());
    record_placement(&mut commands, "db-0", "node-unreachable");

    assert_eq!(
        reconcile(&mut commands),
        vec![],
        "a stateful replica pinned to an unreachable node must be neither torn down nor rescheduled"
    );
}

#[test]
fn reconcile_services_stateful_scale_down_skips_a_dead_pinned_replica_until_its_node_is_alive_again(
) {
    let mut commands = Worker::new();
    register_node(&mut commands, "node-1", "10.0.0.1", 4.0, 8 * 1024 * 1024 * 1024);
    apply_service_with_template(&mut commands, "db", 2, stateful_template());
    record_placement(&mut commands, "db-0", "node-1");
    record_placement(&mut commands, "db-1", "node-unreachable");
    heartbeat_with_jails(&mut commands, "node-1", vec![running("db-0")]);

    apply_service_with_template(&mut commands, "db", 1, stateful_template()); // scale down to 1, removing index 1
    assert_eq!(
        reconcile(&mut commands),
        vec![],
        "scale-down of a stateful replica pinned to an unreachable node must be skipped this tick, not errored"
    );

    register_node(
        &mut commands,
        "node-unreachable",
        "10.0.0.9",
        4.0,
        8 * 1024 * 1024 * 1024,
    );
    let actions = reconcile(&mut commands);
    assert_eq!(actions.len(), 1);
    assert!(
        matches!(&actions[0], ReplicaAction::TearDown { replica_name, node_id, .. } if replica_name == "db-1" && node_id == "node-unreachable"),
        "expected db-1 torn down once its pinned node is reachable again, got: {actions:?}"
    );
}

#[test]
fn reconcile_services_schedules_a_brand_new_stateful_service_across_distinct_nodes() {
    let mut commands = Worker::new();
    register_node(&mut commands, "node-1", "10.0.0.1", 4.0, 8 * 1024 * 1024 * 1024);
    register_node(&mut commands, "node-2", "10.0.0.2", 4.0, 8 * 1024 * 1024 * 1024);
    apply_service_with_template(&mut commands, "db", 2, stateful_template());

    let actions = reconcile(&mut commands);
    assert_eq!(actions.len(), 2);
    let node_ids: HashSet<String> = actions
        .iter()
        .map(|a| match a {
            ReplicaAction::Schedule { node_id, .. } => node_id.clone(),
            ReplicaAction::TearDown { .. } => panic!("expected only Schedule actions"),
        })
        .collect();
    assert_eq!(
        node_ids.len(),
        2,
        "expected the two replicas spread across two distinct nodes, got: {actions:?}"
    );
}

#[test]
fn reconcile_services_tears_down_from_the_highest_index_on_scale_down() {
    let mut commands = Worker::new();
    register_node(&mut commands, "node-1", "10.0.0.1", 4.0, 8 * 1024 * 1024 * 1024);
    apply_service(&mut commands, "web", 3);
    for i in 0..3 {
        commands.record_placement(format!("web-{i}"), "node-1".to_string());
    }
    heartbeat_with_jails(
        &mut commands,
        "node-1",
        vec![running("web-0"), running("web-1"), running("web-2")],
    );

    apply_service(&mut commands, "web", 1); // scale down to 1
    let actions = reconcile(&mut commands);
    assert_eq!(actions.len(), 2);
    assert!(
        matches!(&actions[0], ReplicaAction::TearDown { replica_name, .. } if replica_name == "web-2")
    );
    assert!(
        matches!(&actions[1], ReplicaAction::TearDown { replica_name, .. } if replica_name == "web-1")
    );
}

#[test]
fn reconcile_services_never_double_assigns_an_address_within_one_pass() {
    let mut commands = Worker::new();
    register_node(&mut commands, "node-1", "10.0.0.1", 4.0, 8 * 1024 * 1024 * 1024);
    apply_service(&mut commands, "web", 2); // only one alive node: both replicas land on it

    let actions = reconcile(&mut commands);
    let addresses: HashSet<u32> = actions
        .iter()
        .map(|a| match a {
            ReplicaAction::Schedule { address, .. } => *address,
            ReplicaAction::TearDown { .. } => panic!("expected only Schedule actions"),
        })
        .collect();
    assert_eq!(
        addresses.len(),
        2,
        "expected two distinct addresses, got: {actions:?}"
    );
}

#[test]
fn discover_service_on_an_unknown_service_returns_unknown_service() {
    let mut commands = Worker::new();
    let reply = commands.discover_service("missing".to_string());
    assert_eq!(
        reply,
        Err(UnknownService("missing".to_string()))
    );
}

#[test]
fn discover_service_omits_a_replica_that_is_not_reported_running() {
    let mut commands = Worker::new();
    register_node(&mut commands, "node-1", "10.0.0.1", 4.0, 8 * 1024 * 1024 * 1024);
    apply_service(&mut commands, "web", 2);
    for i in 0..2 {
        commands.record_placement(format!("web-{i}"), "node-1".to_string());
        commands.record_replica_address(format!("web-{i}"), "node-1".to_string(), ip(&format!("10.0.131.{}", 2 + i)));
    }
    heartbeat_with_jails(
        &mut commands,
        "node-1",
        vec![
            running("web-0"),
            JailHealth {
                name: "web-1".to_string(),
                running: false,
            },
        ],
    );

    let replicas = commands.discover_service("web".to_string()).unwrap();
    assert_eq!(
        replicas,
        vec![ServiceReplica {
            name: "web-0".to_string(),
            node: "node-1".to_string(),
            address: "10.0.131.2".to_string()
        }]
    );
}

#[test]
fn list_services_returns_every_service_sorted_by_name() {
    let mut commands = Worker::new();
    apply_service(&mut commands, "web", 3);
    apply_service(&mut commands, "api", 1);

    let reply = commands.list_services();
    assert_eq!(
        reply,
        vec![
            ServiceSummary {
                name: "api".to_string(),
                desired_replicas: 1,
                vip: address_text(vip("api")),
                port: 8080,
            },
            ServiceSummary {
                name: "web".to_string(),
                desired_replicas: 3,
                vip: address_text(vip("web")),
                port: 8080,
            },
        ]
    );
}

#[test]
fn delete_service_on_an_unknown_name_returns_unknown_service() {
    let mut commands = Worker::new();
    let reply = commands.delete_service("missing".to_string());
    assert_eq!(
        reply,
        Err(UnknownService("missing".to_string()))
    );
}

#[test]
fn delete_service_returns_a_teardown_action_per_current_placement_and_forgets_the_service() {
    let mut commands = Worker::new();
    register_node(&mut commands, "node-1", "10.0.0.1", 4.0, 8 * 1024 * 1024 * 1024);
    apply_service(&mut commands, "web", 2);
    for i in 0..2 {
        commands.record_placement(format!("web-{i}"), "node-1".to_string());
    }

    let actions = commands.delete_service("web".to_string()).unwrap();
    assert_eq!(actions.len(), 2);

    for i in 0..2 {
        commands.remove_placement(format!("web-{i}"));
    }

    let mut different = template();
    different.image = "base/different-image".to_string();
    let reply2 = commands.apply_service("web".to_string(), 1, different, 8080);
    assert_eq!(reply2, Ok(()));
}

#[test]
fn record_then_release_replica_address_round_trips() {
    let mut commands = Worker::new();
    commands.record_replica_address("web-0".to_string(), "node-1".to_string(), ip("10.0.60.2"));

    register_node(&mut commands, "node-1", "10.0.0.1", 4.0, 8 * 1024 * 1024 * 1024);
    apply_service(&mut commands, "web", 1);
    commands.record_placement("web-0".to_string(), "node-1".to_string());
    heartbeat_with_jails(&mut commands, "node-1", vec![running("web-0")]);

    let d_reply = commands.discover_service("web".to_string());
    assert_eq!(d_reply.unwrap()[0].address, "10.0.60.2");

    commands.release_replica_address("web-0".to_string());
    commands.remove_placement("web-0".to_string());

    let d_reply2 = commands.discover_service("web".to_string());
    assert_eq!(
        d_reply2.unwrap(),
        vec![],
        "a fully torn-down replica is no longer discoverable"
    );
}

#[test]
fn reconcile_services_picks_a_distinct_standby_for_a_new_stateful_replica() {
    let mut commands = Worker::new();
    register_node_with_replicate_addr(
        &mut commands,
        "node-1",
        "10.0.0.1",
        "10.0.0.1:7622",
        4.0,
        8 * 1024 * 1024 * 1024,
    );
    register_node_with_replicate_addr(
        &mut commands,
        "node-2",
        "10.0.0.2",
        "10.0.0.2:7622",
        4.0,
        8 * 1024 * 1024 * 1024,
    );
    apply_service_with_template(&mut commands, "db", 1, stateful_template());

    let actions = reconcile(&mut commands);
    assert_eq!(actions.len(), 1);
    match &actions[0] {
        ReplicaAction::Schedule {
            node_id,
            standby_node_id,
            standby_addr,
            ..
        } => {
            let standby = standby_node_id
                .as_ref()
                .expect("expected a standby to be picked for a stateful replica");
            assert_ne!(
                standby, node_id,
                "standby must be a different node than the primary"
            );
            assert_eq!(
                *standby_addr,
                Some("10.0.0.2:7622".to_string()),
                "expected the standby's advertised replicate_addr, not its HTTP addr"
            );
        }
        other => panic!("expected a Schedule action, got: {other:?}"),
    }
}

#[test]
fn reconcile_services_picks_no_standby_for_a_stateless_replica() {
    let mut commands = Worker::new();
    register_node(&mut commands, "node-1", "10.0.0.1", 4.0, 8 * 1024 * 1024 * 1024);
    register_node(&mut commands, "node-2", "10.0.0.2", 4.0, 8 * 1024 * 1024 * 1024);
    apply_service(&mut commands, "web", 1);

    let actions = reconcile(&mut commands);
    match &actions[0] {
        ReplicaAction::Schedule {
            standby_node_id,
            standby_addr,
            ..
        } => {
            assert_eq!(*standby_node_id, None);
            assert_eq!(*standby_addr, None);
        }
        other => panic!("expected a Schedule action, got: {other:?}"),
    }
}

#[test]
fn reconcile_services_leaves_a_stateful_replica_without_a_standby_when_only_one_node_is_alive()
{
    let mut commands = Worker::new();
    register_node(&mut commands, "node-1", "10.0.0.1", 4.0, 8 * 1024 * 1024 * 1024);
    apply_service_with_template(&mut commands, "db", 1, stateful_template());

    let actions = reconcile(&mut commands);
    match &actions[0] {
        ReplicaAction::Schedule {
            standby_node_id,
            standby_addr,
            ..
        } => {
            assert_eq!(
                *standby_node_id, None,
                "no second node exists to serve as a standby"
            );
            assert_eq!(*standby_addr, None);
        }
        other => panic!("expected a Schedule action, got: {other:?}"),
    }
}

fn prepare_force_repin(
    commands: &mut Worker,
    replica_name: &str,
) -> Result<ForceRepinPrep, ForceRepinError> {
    commands.prepare_force_repin(replica_name.to_string())
}

fn prepare_drain_repin(
    commands: &mut Worker,
    replica_name: &str,
) -> Result<ForceRepinPrep, ForceRepinError> {
    commands.prepare_drain_repin(replica_name.to_string())
}

#[test]
fn prepare_force_repin_on_an_unplaced_name_returns_not_placed() {
    let mut commands = Worker::new();
    assert_eq!(
        prepare_force_repin(&mut commands, "db-0"),
        Err(ForceRepinError::NotPlaced("db-0".to_string()))
    );
}

#[test]
fn prepare_force_repin_on_a_name_with_no_standby_returns_not_stateful() {
    let mut commands = Worker::new();
    register_node(&mut commands, "node-1", "10.0.0.1", 4.0, 8 * 1024 * 1024 * 1024);
    apply_service(&mut commands, "web", 1);
    record_placement(&mut commands, "web-0", "node-1");

    assert_eq!(
        prepare_force_repin(&mut commands, "web-0"),
        Err(ForceRepinError::NotStateful("web-0".to_string()))
    );
}

#[test]
fn prepare_force_repin_while_the_primary_still_resolves_alive_is_rejected() {
    let mut commands = Worker::new();
    register_node(&mut commands, "node-1", "10.0.0.1", 4.0, 8 * 1024 * 1024 * 1024);
    register_node(&mut commands, "node-2", "10.0.0.2", 4.0, 8 * 1024 * 1024 * 1024);
    apply_service_with_template(&mut commands, "db", 1, stateful_template());
    record_placement(&mut commands, "db-0", "node-1");
    commands.record_standby("db-0".to_string(), "node-2".to_string());

    assert_eq!(
        prepare_force_repin(&mut commands, "db-0"),
        Err(ForceRepinError::PrimaryStillAlive("node-1".to_string()))
    );
}

#[test]
fn prepare_force_repin_still_refuses_against_a_still_alive_primary() {
    let mut commands = Worker::new();
    register_node(&mut commands, "node-1", "10.0.0.1", 4.0, 8 * 1024 * 1024 * 1024);
    register_node(&mut commands, "node-2", "10.0.0.2", 4.0, 8 * 1024 * 1024 * 1024);
    apply_service_with_template(&mut commands, "db", 1, stateful_template());
    record_placement(&mut commands, "db-0", "node-1");
    commands.record_standby("db-0".to_string(), "node-2".to_string());

    assert!(matches!(
        prepare_force_repin(&mut commands, "db-0"),
        Err(ForceRepinError::PrimaryStillAlive(_))
    ));
}

#[test]
fn prepare_drain_repin_succeeds_against_a_still_alive_primary() {
    let mut commands = Worker::new();
    register_node(&mut commands, "node-1", "10.0.0.1", 4.0, 8 * 1024 * 1024 * 1024);
    register_node(&mut commands, "node-2", "10.0.0.2", 4.0, 8 * 1024 * 1024 * 1024);
    register_node_with_replicate_addr(
        &mut commands,
        "node-3",
        "10.0.0.3",
        "10.0.0.3",
        4.0,
        8 * 1024 * 1024 * 1024,
    );
    apply_service_with_template(&mut commands, "db", 1, stateful_template());
    record_placement(&mut commands, "db-0", "node-1");
    commands.record_standby("db-0".to_string(), "node-2".to_string());

    let prep = prepare_drain_repin(&mut commands, "db-0").unwrap();
    assert_eq!(prep.old_node_id, "node-1");
    assert_eq!(prep.standby_node_id, "node-2");
}

#[test]
fn prepare_drain_repin_still_refuses_a_non_stateful_name() {
    let mut commands = Worker::new();
    register_node(&mut commands, "node-1", "10.0.0.1", 4.0, 8 * 1024 * 1024 * 1024);
    apply_service(&mut commands, "web", 1);
    record_placement(&mut commands, "web-0", "node-1");

    assert_eq!(
        prepare_drain_repin(&mut commands, "web-0"),
        Err(ForceRepinError::NotStateful("web-0".to_string()))
    );
}

#[test]
fn prepare_force_repin_happy_path_picks_a_fresh_standby_and_a_free_address() {
    let mut commands = Worker::new();
    register_node(&mut commands, "node-2", "10.0.0.2", 4.0, 8 * 1024 * 1024 * 1024);
    register_node_with_replicate_addr(
        &mut commands,
        "node-3",
        "10.0.0.3",
        "10.0.0.3",
        4.0,
        8 * 1024 * 1024 * 1024,
    );
    apply_service_with_template(&mut commands, "db", 1, stateful_template());
    record_placement(&mut commands, "db-0", "node-unreachable");
    commands.record_standby("db-0".to_string(), "node-2".to_string());

    let prep = prepare_force_repin(&mut commands, "db-0").unwrap();
    assert_eq!(prep.old_node_id, "node-unreachable");
    assert_eq!(prep.standby_node_id, "node-2");
    assert_eq!(prep.standby_addr, "10.0.0.2");
    assert_eq!(prep.fresh_standby_node_id, "node-3");
    assert_eq!(prep.fresh_standby_addr, "10.0.0.3");
    assert_eq!(prep.template, stateful_template());
}

#[test]
fn prepare_force_repin_with_no_alive_node_left_for_a_fresh_standby_is_rejected() {
    let mut commands = Worker::new();
    register_node(&mut commands, "node-2", "10.0.0.2", 4.0, 8 * 1024 * 1024 * 1024);
    apply_service_with_template(&mut commands, "db", 1, stateful_template());
    record_placement(&mut commands, "db-0", "node-unreachable");
    commands.record_standby("db-0".to_string(), "node-2".to_string());

    assert_eq!(
        prepare_force_repin(&mut commands, "db-0"),
        Err(ForceRepinError::NoFreshStandby)
    );
}

const GIB: u64 = 1024 * 1024 * 1024;

fn three_nodes() -> Worker {
    let mut commands = Worker::new();
    for id in ["node-1", "node-2", "node-3"] {
        register_node_with_replicate_addr(&mut commands, id, id, &format!("{id}-repl"), 4.0, 8 * GIB);
    }
    commands
}

#[test]
fn questions_are_answered_the_same_twice_and_write_nothing() {
    let mut commands = three_nodes();
    apply_service_with_template(&mut commands, "db", 2, stateful_template());
    let written = commands.persisted.len();
    let first = commands.reconcile_services();
    assert_eq!(first.len(), 2);
    commands.now += 5 * SECOND;
    assert_eq!(commands.reconcile_services(), first, "the nodes are still alive");
    assert_eq!(commands.list(), commands.list());
    assert_eq!(commands.resolve_or_schedule("x".to_string()), commands.resolve_or_schedule("x".to_string()));
    assert_eq!(commands.discover_service("db".to_string()), commands.discover_service("db".to_string()));
    assert_eq!(commands.prepare_force_repin("db-0".to_string()), commands.prepare_force_repin("db-0".to_string()));
    assert_eq!(commands.list_services(), commands.list_services());
    assert_eq!(commands.owner_of("db-0".to_string()), None);
    assert_eq!(commands.persisted.len(), written);
}

#[test]
fn every_change_names_its_file() {
    let mut commands = three_nodes();
    assert!(commands.persisted.is_empty(), "nodes are not written down");
    commands.apply_service("web".to_string(), 1, template(), 80).unwrap();
    commands.record_placement("web-0".to_string(), "node-1".to_string());
    commands.record_replica_address("web-0".to_string(), "node-1".to_string(), 1);
    commands.record_standby("web-0".to_string(), "node-2".to_string());
    commands.record_pending_fence("web-0".to_string(), "node-1".to_string());
    commands.cordon("node-1".to_string()).unwrap();
    assert_eq!(
        commands.persisted,
        vec![
            StateFile::Services,
            StateFile::Placements,
            StateFile::UsedAddresses,
            StateFile::Standbys,
            StateFile::PendingFences,
            StateFile::Cordoned,
        ]
    );
    assert!(commands.apply_service("web".to_string(), 1, stateful_template(), 80).is_err());
    assert_eq!(commands.delete_service("nope".to_string()), Err(UnknownService("nope".to_string())));
    assert_eq!(commands.persisted.len(), 6, "what was refused is not written down");
}

#[test]
fn only_a_registered_node_is_cordoned_or_uncordoned() {
    let mut commands = three_nodes();
    assert_eq!(commands.cordon("ghost".to_string()), Err(UnknownNode("ghost".to_string())));
    assert_eq!(commands.uncordon("ghost".to_string()), Err(UnknownNode("ghost".to_string())));
    commands.cordon("node-1".to_string()).unwrap();
    assert_eq!(commands.resolve_or_schedule("x".to_string()).unwrap().0, "node-2");
    commands.uncordon("node-1".to_string()).unwrap();
    assert_eq!(commands.resolve_or_schedule("x".to_string()).unwrap().0, "node-1");
}

#[test]
fn a_service_keeps_its_template_and_address_until_it_is_deleted() {
    let mut commands = Worker::new();
    commands.apply_service("web".to_string(), 1, template(), 80).unwrap();
    let first = commands.list_services();
    commands.apply_service("web".to_string(), 1, template(), 80).unwrap();
    assert_eq!(commands.list_services(), first);
    let other_vip = Command::ApplyService("web".to_string(), 2, template(), 81, ip("1.2.3.4"));
    assert_eq!(commands.send(other_vip), Reply::Applied(Ok(())));
    let changed = commands.list_services();
    assert_eq!(changed[0].vip, first[0].vip);
    assert_eq!((changed[0].desired_replicas, changed[0].port), (2, 81));
    assert_eq!(
        commands.apply_service("web".to_string(), 1, stateful_template(), 80),
        Err(ApplyServiceError::TemplateChanged("web".to_string()))
    );
    commands.delete_service("web".to_string()).unwrap();
    assert_eq!(commands.apply_service("web".to_string(), 1, stateful_template(), 80), Ok(()));
}

#[test]
fn replicas_are_spread_and_their_standbys_are_elsewhere() {
    let mut commands = three_nodes();
    apply_service_with_template(&mut commands, "db", 3, stateful_template());
    let actions = commands.reconcile_services();
    let mut nodes = HashSet::new();
    let mut names = Vec::new();
    for action in actions {
        match action {
            ReplicaAction::Schedule { replica_name, node_id, standby_node_id, generation, .. } => {
                assert_ne!(Some(node_id.clone()), standby_node_id);
                assert_eq!(generation, 1);
                nodes.insert(node_id);
                names.push(replica_name);
            }
            other => panic!("unexpected: {other:?}"),
        }
    }
    assert_eq!(nodes.len(), 3);
    assert_eq!(names, vec!["db-0", "db-1", "db-2"]);
}

#[test]
fn a_replica_is_promoted_with_a_higher_generation_and_never_past_a_live_primary() {
    let mut commands = three_nodes();
    apply_service_with_template(&mut commands, "db", 1, stateful_template());
    for node in ["gone", "gone", "node-1"] {
        record_placement(&mut commands, "db-0", node);
    }
    commands.record_standby("db-0".to_string(), "node-2".to_string());
    assert_eq!(
        commands.prepare_force_repin("db-0".to_string()),
        Err(ForceRepinError::PrimaryStillAlive("node-1".to_string()))
    );
    let prep = commands.prepare_drain_repin("db-0".to_string()).unwrap();
    assert_eq!(prep.next_generation, 4);
    assert_eq!(prep.fresh_standby_node_id, "node-3");
    assert_eq!(prep.fresh_standby_addr, "node-3-repl");
    assert_eq!(prep.old_node_last_known_addr, Some("node-1".to_string()));
    commands.now += 31 * SECOND;
    assert_eq!(
        commands.prepare_force_repin("db-0".to_string()),
        Err(ForceRepinError::StandbyUnresolvable(ResolveError::Dead("node-2".to_string())))
    );
}

#[test]
fn a_full_block_leaves_no_address() {
    let mut commands = three_nodes();
    apply_service_with_template(&mut commands, "db", 1, stateful_template());
    record_placement(&mut commands, "db-0", "gone");
    commands.record_standby("db-0".to_string(), "node-2".to_string());
    let first = pod_cidr("node-2").addr;
    for i in 2..255 {
        commands.record_replica_address(format!("x-{i}"), "node-2".to_string(), first + i);
    }
    assert_eq!(commands.prepare_force_repin("db-0".to_string()), Err(ForceRepinError::NoFreeAddress));
    commands.release_replica_address("x-77".to_string());
    assert_eq!(commands.prepare_force_repin("db-0".to_string()).unwrap().address, first + 77);
}

#[test]
fn two_nodes_cannot_have_one_block() {
    let mut commands = Worker::new();
    let registration = |addr: &str| Registration {
        addr: addr.to_string(),
        replicate_addr: None,
        pod_cidr: Ipv4Cidr { addr: ip("10.0.4.0"), prefix_len: 24 },
        capacity_cpu: cores(1.0),
        capacity_memory: 1,
    };
    let block = Ipv4Cidr { addr: ip("10.0.4.0"), prefix_len: 24 };
    let first = commands.send(Command::Register("a".to_string(), registration("x")));
    assert_eq!(first, Reply::Registered(Ok(block)));
    let again = commands.send(Command::Register("a".to_string(), registration("y")));
    assert_eq!(again, Reply::Registered(Ok(block)), "a node may register again");
    let second = commands.send(Command::Register("b".to_string(), registration("z")));
    let collision = PodCidrCollision { id: "b".to_string(), other: "a".to_string() };
    assert_eq!(second, Reply::Registered(Err(collision)));
    assert_eq!(commands.resolve("a".to_string()), Ok("y".to_string()));
    assert_eq!(address_text(block.addr + 5), "10.0.4.5");
}

#[test]
fn a_name_conflict_says_whose_the_name_is() {
    let mut commands = Worker::new();
    record_placement(&mut commands, "web-1", "node-1");
    assert_eq!(
        commands.apply_service("web".to_string(), 2, template(), 80),
        Err(ApplyServiceError::NameConflict { name: "web-1".to_string(), owner: Owner::Unmanaged })
    );
    assert_eq!(commands.apply_service("web".to_string(), 1, template(), 80), Ok(()));
}

#[test]
fn errors_are_put_in_words() {
    let dead = || ResolveError::Dead("n".to_string());
    assert_eq!(dead().message(), "node 'n' is dead");
    assert_eq!(ResolveError::Unknown("n".to_string()).message(), "no node 'n' has registered");
    assert_eq!(PlacementError::NotPlaced("web-0".to_string()).message(), "no known placement for jail 'web-0'");
    assert_eq!(PlacementError::Resolve(dead()).message(), "node 'n' is dead");
    assert_eq!(
        ScheduleOrResolveError::Schedule(ScheduleError::NoAvailableNodes).message(),
        "no alive node is available"
    );
    assert_eq!(ScheduleOrResolveError::Resolve(dead()).message(), "node 'n' is dead");
    let repin = [
        (ForceRepinError::NotPlaced("r".to_string()), "no known placement for replica 'r'"),
        (ForceRepinError::NotStateful("r".to_string()), "'r' is not a stateful replica with a standby"),
        (ForceRepinError::PrimaryStillAlive("n".to_string()), "current primary node 'n' still resolves as alive"),
        (ForceRepinError::StandbyUnresolvable(dead()), "standby node is unreachable: node 'n' is dead"),
        (ForceRepinError::NoFreshStandby, "no alive node available to serve as a fresh standby"),
        (ForceRepinError::NoFreeAddress, "no free address available for the promoted primary"),
    ];
    for (error, words) in repin {
        assert_eq!(error.message(), words);
    }
}
