//! Building a configuration step by step.

use vstd::prelude::*;

use crate::clock::{ClockDrift, NodeId};
use crate::net::{IpAddr, IpNet};
use crate::replica::declared_nets;
use crate::replicated_map::config::{ClusterKey, Config, ConfigError, Keys, DEFAULT_PORT, MAX_NETS};
use crate::time::Duration;

verus! {

/// Every slot before `i` is taken.
pub open spec fn taken_below(nets: Seq<Option<IpNet>>, i: int) -> bool {
    forall|j: int| 0 <= j < i ==> #[trigger] nets[j] is Some
}

/// `i` is the first free slot.
pub open spec fn first_free(nets: Seq<Option<IpNet>>, i: int) -> bool {
    0 <= i < nets.len() && nets[i] is None && taken_below(nets, i)
}

/// `nets` with `net` in the first free slot.
pub open spec fn declared(nets: Seq<Option<IpNet>>, net: IpNet) -> Seq<Option<IpNet>> {
    nets.update(choose|i: int| first_free(nets, i), Some(net))
}

/// How many slots are free.
pub open spec fn free_slots(nets: Seq<Option<IpNet>>) -> nat {
    nets.filter(|slot: Option<IpNet>| slot is None).len()
}

/// `slots` with each of `nets` declared, in turn.
pub open spec fn declared_all(slots: Seq<Option<IpNet>>, nets: Seq<IpNet>) -> Seq<Option<IpNet>>
    decreases nets.len(),
{
    if nets.len() == 0 {
        slots
    } else {
        declared(declared_all(slots, nets.drop_last()), nets.last())
    }
}

/// A slot is free exactly when there is a first free slot.
proof fn lemma_free(nets: Seq<Option<IpNet>>)
    ensures
        free_slots(nets) == 0 <==> taken_below(nets, nets.len() as int),
    decreases nets.len(),
{
    reveal(Seq::filter);
    if nets.len() > 0 {
        let rest = nets.drop_last();
        lemma_free(rest);
        if taken_below(nets, nets.len() as int) {
            assert forall|j: int| 0 <= j < rest.len() implies #[trigger] rest[j] is Some by {
                assert(nets[j] is Some);
            }
        } else if taken_below(rest, rest.len() as int) && nets.last() is Some {
            assert forall|j: int| 0 <= j < nets.len() implies #[trigger] nets[j] is Some by {
                if j < rest.len() {
                    assert(rest[j] is Some);
                }
            }
        }
    }
}

/// Taking a free slot leaves one fewer.
proof fn lemma_take_slot(nets: Seq<Option<IpNet>>, i: int, net: IpNet)
    requires
        0 <= i < nets.len(),
        nets[i] is None,
    ensures
        free_slots(nets.update(i, Some(net))) + 1 == free_slots(nets),
    decreases nets.len(),
{
    reveal(Seq::filter);
    let after = nets.update(i, Some(net));
    let rest = nets.drop_last();
    if i == nets.len() - 1 {
        assert(after.drop_last() =~= rest);
    } else {
        lemma_take_slot(rest, i, net);
        assert(after.drop_last() =~= rest.update(i, Some(net)));
        assert(after.last() == nets.last());
    }
}

impl Config {
    /// The usual starting point: the defaults, on the port every node of the cluster agrees on.
    #[must_use]
    pub fn new(port: u16) -> (config: Self)
        ensures
            (Config { port: DEFAULT_PORT, ..config }).is_default(),
            config.port == port,
    {
        Config::default().with_port(port)
    }

    /// Declare a network. Each network of the cluster is declared once, this node's own among them.
    pub fn with_net(self, net: IpNet) -> (result: Result<Self, ConfigError>)
        ensures
            result is Ok <==> free_slots(self.nets@) > 0,
            result matches Ok(config) ==> config == (Config { nets: config.nets, ..self })
                && config.nets@ == declared(self.nets@, net) && free_slots(config.nets@) + 1
                == free_slots(self.nets@),
            result matches Err(error) ==> error == ConfigError::TooManyNets,
    {
        let ghost before = self.nets@;
        let mut config: Config = self;
        let mut i: usize = 0;
        while i < MAX_NETS
            invariant
                i <= MAX_NETS,
                config == self,
                before == self.nets@,
                before.len() == MAX_NETS,
                taken_below(before, i as int),
            decreases MAX_NETS - i,
        {
            let slot: Option<IpNet> = config.nets[i];
            match slot {
                None => {
                    config.nets[i] = Some(net);
                    proof {
                        lemma_free(before);
                        lemma_take_slot(before, i as int, net);
                        assert(first_free(before, i as int));
                        let first = choose|j: int| first_free(before, j);
                        assert(first == i) by {
                            if first < i {
                                assert(before[first] is Some);
                            } else if i < first {
                                assert(before[i as int] is Some);
                            }
                        }
                        assert(config == (Config { nets: config.nets, ..self }));
                    }
                    return Ok(config);
                },
                Some(_) => {},
            }
            i = i + 1;
        }
        proof {
            lemma_free(before);
        }
        Err(ConfigError::TooManyNets)
    }

    /// Declare several networks.
    pub fn with_nets(self, nets: &[IpNet]) -> (result: Result<Self, ConfigError>)
        ensures
            result is Ok <==> nets@.len() <= free_slots(self.nets@),
            result matches Ok(config) ==> config == (Config { nets: config.nets, ..self })
                && config.nets@ == declared_all(self.nets@, nets@),
            result matches Err(error) ==> error == ConfigError::TooManyNets,
    {
        let ghost before = self.nets@;
        let mut config: Config = self;
        let mut i: usize = 0;
        assert(nets@.take(0) =~= Seq::empty());
        while i < nets.len()
            invariant
                i <= nets@.len(),
                before == self.nets@,
                config == (Config { nets: config.nets, ..self }),
                config.nets@ == declared_all(before, nets@.take(i as int)),
                free_slots(config.nets@) + i == free_slots(before),
            decreases nets@.len() - i,
        {
            match config.with_net(nets[i]) {
                Ok(more) => {
                    config = more;
                    proof {
                        assert(nets@.take(i + 1).drop_last() =~= nets@.take(i as int));
                        assert(nets@.take(i + 1).last() == nets@[i as int]);
                    }
                },
                Err(error) => {
                    return Err(error);
                },
            }
            i = i + 1;
        }
        assert(nets@.take(i as int) =~= nets@);
        Ok(config)
    }

    /// Set [`port`](Self::port).
    #[must_use]
    pub fn with_port(self, port: u16) -> (config: Self)
        ensures
            config == (Config { port, ..self }),
    {
        Config { port, ..self }
    }

    /// Set [`listen_addr`](Self::listen_addr).
    #[must_use]
    pub fn with_listen_addr(self, listen_addr: IpAddr) -> (config: Self)
        ensures
            config == (Config { listen_addr, ..self }),
    {
        Config { listen_addr, ..self }
    }

    /// Set how often, in rounds, remote networks are contacted (default 6).
    #[must_use]
    pub fn with_remote_interval(self, interval: u32) -> (config: Self)
        ensures
            config == (Config { remote_interval: interval, ..self }),
    {
        Config { remote_interval: interval, ..self }
    }

    /// Set how many peers of each remote network are contacted then (default 2).
    #[must_use]
    pub fn with_remote_fanout(self, fanout: usize) -> (config: Self)
        ensures
            config == (Config { remote_fanout: fanout, ..self }),
    {
        Config { remote_fanout: fanout, ..self }
    }

    /// Set the reconciliation cadence (default 1 s).
    #[must_use]
    pub fn with_reconcile_interval(self, interval: Duration) -> (config: Self)
        ensures
            config == (Config { reconcile_interval: interval, ..self }),
    {
        Config { reconcile_interval: interval, ..self }
    }

    /// Set the repair timer (default 150 ms).
    #[must_use]
    pub fn with_repair_interval(self, interval: Duration) -> (config: Self)
        ensures
            config == (Config { repair_interval: interval, ..self }),
    {
        Config { repair_interval: interval, ..self }
    }

    /// Set the pace of a bulk transfer to one peer (default 32 MiB/s).
    #[must_use]
    pub fn with_bulk_send_rate(self, bytes_per_sec: usize) -> (config: Self)
        ensures
            config == (Config { bulk_send_rate: Some(bytes_per_sec), ..self }),
    {
        Config { bulk_send_rate: Some(bytes_per_sec), ..self }
    }

    /// Ask the socket for a receive buffer of `size` bytes.
    #[must_use]
    pub fn with_recv_buffer_size(self, size: usize) -> (config: Self)
        ensures
            config == (Config { recv_buffer_size: Some(size), ..self }),
    {
        Config { recv_buffer_size: Some(size), ..self }
    }

    /// Ask the socket for a send buffer of `size` bytes.
    #[must_use]
    pub fn with_send_buffer_size(self, size: usize) -> (config: Self)
        ensures
            config == (Config { send_buffer_size: Some(size), ..self }),
    {
        Config { send_buffer_size: Some(size), ..self }
    }

    /// Authenticate every datagram with one shared secret. Closes a rotation window, if one is open.
    #[must_use]
    pub fn with_cluster_key(self, key: ClusterKey) -> (config: Self)
        ensures
            config == (Config { cluster_key: Some(key), rotation_key: None, ..self }),
    {
        Config { cluster_key: Some(key), rotation_key: None, ..self }
    }

    /// Open a rotation window: seal with `primary`, and accept either secret.
    #[must_use]
    pub fn with_cluster_key_rotation(self, primary: ClusterKey, also_accept: ClusterKey) -> (config: Self)
        ensures
            config == (Config {
                cluster_key: Some(primary),
                rotation_key: Some(also_accept),
                ..self
            }),
    {
        Config { cluster_key: Some(primary), rotation_key: Some(also_accept), ..self }
    }

    /// The keys to authenticate with: none without a cluster key, and the rotation key only beside
    /// one.
    pub fn auth_keys(&self) -> (keys: Option<Keys>)
        ensures
            keys == match self.cluster_key {
                Some(primary) => Some(Keys { primary, also_accept: self.rotation_key }),
                None => None,
            },
    {
        match self.cluster_key {
            Some(primary) => Some(Keys { primary, also_accept: self.rotation_key }),
            None => None,
        }
    }

    /// Opt in to running without a cluster key.
    #[must_use]
    pub fn with_insecure_no_key(self) -> (config: Self)
        ensures
            config == (Config { insecure_no_key: true, ..self }),
    {
        Config { insecure_no_key: true, ..self }
    }

    /// The configuration says how traffic is trusted: a cluster key, or the explicit opt-in to run
    /// without one.
    pub open spec fn has_security_mode(&self) -> bool {
        self.cluster_key is Some || self.insecure_no_key
    }

    /// Refuse a configuration that does not say how traffic is trusted.
    pub fn check_key_or_insecure_opt_in(&self) -> (result: Result<(), ConfigError>)
        ensures
            result == if self.has_security_mode() {
                Ok::<(), ConfigError>(())
            } else {
                Err(ConfigError::MissingSecurityMode)
            },
    {
        if self.cluster_key.is_some() || self.insecure_no_key {
            Ok(())
        } else {
            Err(ConfigError::MissingSecurityMode)
        }
    }

    /// Set the node identity; distinct on every node.
    #[must_use]
    pub fn with_node_id(self, node_id: NodeId) -> (config: Self)
        ensures
            config == (Config { node_id: Some(node_id), ..self }),
    {
        Config { node_id: Some(node_id), ..self }
    }

    /// Set how old an authenticated datagram may be.
    #[must_use]
    pub fn with_freshness_window(self, window: Duration) -> (config: Self)
        ensures
            config == (Config { freshness_window: window, ..self }),
    {
        Config { freshness_window: window, ..self }
    }

    /// Set the most peers kept track of (default 1024).
    #[must_use]
    pub fn with_max_peers(self, max: usize) -> (config: Self)
        ensures
            config == (Config { max_peers: max, ..self }),
    {
        Config { max_peers: max, ..self }
    }

    /// Set the most bulk transfers in flight (default 4).
    #[must_use]
    pub fn with_max_concurrent_bulk_dumps(self, max: usize) -> (config: Self)
        ensures
            config == (Config { max_concurrent_bulk_dumps: max, ..self }),
    {
        Config { max_concurrent_bulk_dumps: max, ..self }
    }

    /// Set the most write broadcasts in flight (default 1024).
    #[must_use]
    pub fn with_max_concurrent_broadcasts(self, max: usize) -> (config: Self)
        ensures
            config == (Config { max_concurrent_broadcasts: max, ..self }),
    {
        Config { max_concurrent_broadcasts: max, ..self }
    }

    /// Set how often a periodic snapshot is considered (default 5 s); `None` disables it.
    #[must_use]
    pub fn with_snapshot_interval(self, interval: Option<Duration>) -> (config: Self)
        ensures
            config == (Config { snapshot_interval: interval, ..self }),
    {
        Config { snapshot_interval: interval, ..self }
    }

    /// Set how many changes a periodic snapshot waits for (default 1).
    #[must_use]
    pub fn with_snapshot_change_threshold(self, threshold: usize) -> (config: Self)
        ensures
            config == (Config { snapshot_change_threshold: threshold, ..self }),
    {
        Config { snapshot_change_threshold: threshold, ..self }
    }

    /// Set how far remote timestamps may run ahead of local time.
    #[must_use]
    pub fn with_max_clock_drift(self, drift: ClockDrift) -> (config: Self)
        ensures
            config == (Config { max_clock_drift: drift, ..self }),
    {
        Config { max_clock_drift: drift, ..self }
    }

    /// Set how long writes are collected before they are broadcast together (default zero).
    #[must_use]
    pub fn with_coalesce_window(self, window: Duration) -> (config: Self)
        ensures
            config == (Config { coalesce_window: window, ..self }),
    {
        Config { coalesce_window: window, ..self }
    }

    /// Set the largest encoded value a checked write accepts (default: no limit).
    #[must_use]
    pub fn with_max_value_size(self, max: usize) -> (config: Self)
        ensures
            config == (Config { max_value_size: Some(max), ..self }),
    {
        Config { max_value_size: Some(max), ..self }
    }

    /// Encrypt payloads with the cluster key.
    #[must_use]
    pub fn with_encryption(self) -> (config: Self)
        ensures
            config == (Config { encrypt: true, ..self }),
    {
        Config { encrypt: true, ..self }
    }
}

/// A network goes into the first free slot and leaves every other slot as it was.
pub proof fn declaring_takes_the_first_free_slot(slots: Seq<Option<IpNet>>, net: IpNet, i: int)
    requires
        0 <= i < slots.len(),
        slots[i] is None,
        forall|j: int| 0 <= j < i ==> #[trigger] slots[j] is Some,
    ensures
        declared(slots, net).len() == slots.len(),
        declared(slots, net)[i] == Some(net),
        forall|j: int| 0 <= j < slots.len() && j != i ==> #[trigger] declared(slots, net)[j] == slots[j],
{
    assert(first_free(slots, i));
    let first = choose|j: int| first_free(slots, j);
    if first < i {
        assert(slots[first] is Some);
    } else if i < first {
        assert(slots[i] is Some);
    }
}

/// Every slot is either free or holds a declared network.
pub proof fn slots_are_free_or_declared(slots: Seq<Option<IpNet>>)
    ensures
        free_slots(slots) + declared_nets(slots).len() == slots.len(),
        free_slots(slots) > 0 <==> exists|k: int| 0 <= k < slots.len() && #[trigger] slots[k] is None,
    decreases slots.len(),
{
    reveal(Seq::filter);
    if slots.len() > 0 {
        slots_are_free_or_declared(slots.drop_last());
    }
    lemma_free(slots);
    if free_slots(slots) == 0 {
        assert forall|k: int| 0 <= k < slots.len() implies !(#[trigger] slots[k] is None) by {
            assert(slots[k] is Some);
        }
    } else {
        let k = choose|k: int| 0 <= k < slots.len() && !(#[trigger] slots[k] is Some);
        assert(slots[k] is None);
    }
}

/// Where no free slot comes before a taken one, the taken ones are the first.
proof fn lemma_packed(slots: Seq<Option<IpNet>>)
    requires
        forall|i: int, j: int|
            0 <= i < j < slots.len() && #[trigger] slots[j] is Some ==> #[trigger] slots[i] is Some,
    ensures
        declared_nets(slots).len() <= slots.len(),
        forall|k: int| 0 <= k < slots.len() ==> (#[trigger] slots[k] is Some <==> k < declared_nets(slots).len()),
    decreases slots.len(),
{
    if slots.len() > 0 {
        let rest = slots.drop_last();
        let last = slots.len() - 1;
        assert forall|i: int, j: int|
            0 <= i < j < rest.len() && #[trigger] rest[j] is Some implies #[trigger] rest[i] is Some by {
            assert(slots[j] is Some);
            assert(slots[i] is Some);
        }
        lemma_packed(rest);
        assert(slots[last] == slots.last());
        if slots.last() is Some {
            if declared_nets(rest).len() < rest.len() {
                let k = declared_nets(rest).len() as int;
                assert(!(rest[k] is Some));
                assert(slots[k] is Some);
            }
        }
        assert forall|k: int| 0 <= k < slots.len() implies (#[trigger] slots[k] is Some <==> k < declared_nets(
            slots,
        ).len()) by {
            if k < last {
                assert(rest[k] == slots[k]);
            }
        }
    }
}

/// Taking the first free slot behind the taken ones adds the network behind the declared ones.
proof fn lemma_packed_take(slots: Seq<Option<IpNet>>, net: IpNet)
    requires
        forall|i: int, j: int|
            0 <= i < j < slots.len() && #[trigger] slots[j] is Some ==> #[trigger] slots[i] is Some,
        declared_nets(slots).len() < slots.len(),
    ensures
        declared_nets(slots.update(declared_nets(slots).len() as int, Some(net))) == declared_nets(slots).push(
            net,
        ),
    decreases slots.len(),
{
    lemma_packed(slots);
    let n = declared_nets(slots).len() as int;
    let rest = slots.drop_last();
    let last = slots.len() - 1;
    let after = slots.update(n, Some(net));
    assert(slots[last] == slots.last());
    assert(!(slots[last] is Some));
    if n == last {
        assert(after.drop_last() =~= rest);
    } else {
        assert forall|i: int, j: int|
            0 <= i < j < rest.len() && #[trigger] rest[j] is Some implies #[trigger] rest[i] is Some by {
            assert(slots[j] is Some);
            assert(slots[i] is Some);
        }
        lemma_packed_take(rest, net);
        assert(after.drop_last() =~= rest.update(n, Some(net)));
        assert(after.last() == slots.last());
    }
}

/// Declaring networks adds them behind the ones already declared, all of them and in the order in
/// which they were given: on a configuration without any, exactly those are declared.
pub proof fn nets_are_declared_in_order(slots: Seq<Option<IpNet>>, nets: Seq<IpNet>)
    requires
        forall|i: int, j: int|
            0 <= i < j < slots.len() && #[trigger] slots[j] is Some ==> #[trigger] slots[i] is Some,
        declared_nets(slots).len() + nets.len() <= slots.len(),
    ensures
        declared_nets(declared_all(slots, nets)) == declared_nets(slots) + nets,
        declared_all(slots, nets).len() == slots.len(),
        forall|i: int, j: int|
            0 <= i < j < slots.len() && #[trigger] declared_all(slots, nets)[j] is Some
                ==> #[trigger] declared_all(slots, nets)[i] is Some,
    decreases nets.len(),
{
    if nets.len() == 0 {
        assert(declared_nets(slots) + nets =~= declared_nets(slots));
    } else {
        let rest = nets.drop_last();
        nets_are_declared_in_order(slots, rest);
        let before = declared_all(slots, rest);
        let n = declared_nets(before).len() as int;
        let net = nets.last();
        let after = declared_all(slots, nets);
        lemma_packed(before);
        assert(!(before[n] is Some));
        assert forall|j: int| 0 <= j < n implies #[trigger] before[j] is Some by {
        }
        declaring_takes_the_first_free_slot(before, net, n);
        assert(after =~= before.update(n, Some(net)));
        lemma_packed_take(before, net);
        assert(declared_nets(slots) + nets =~= (declared_nets(slots) + rest).push(net));
        assert forall|i: int, j: int|
            0 <= i < j < slots.len() && #[trigger] after[j] is Some implies #[trigger] after[i] is Some by {
            if j != n {
                assert(before[j] is Some);
                assert(before[i] is Some);
            } else {
                assert(before[i] is Some);
            }
        }
    }
}

/// A configuration says how traffic is trusted once it has a key or opted out of having one, and not
/// before.
pub proof fn a_key_or_an_opt_in_is_a_security_mode(config: Config, key: ClusterKey)
    ensures
        (Config { cluster_key: Some(key), ..config }).has_security_mode(),
        (Config { insecure_no_key: true, ..config }).has_security_mode(),
        !(Config { cluster_key: None, insecure_no_key: false, ..config }).has_security_mode(),
{
}

/// While a rotation is open the new key seals and both keys are accepted; setting a key on its own
/// closes it again, and only that key is left.
pub proof fn setting_a_key_closes_the_rotation(
    config: Config,
    primary: ClusterKey,
    also_accept: ClusterKey,
    key: ClusterKey,
    rotating: Config,
    settled: Config,
    during: Option<Keys>,
    afterwards: Option<Keys>,
)
    requires
        call_ensures(Config::with_cluster_key_rotation, (config, primary, also_accept), rotating),
        call_ensures(Config::auth_keys, (&rotating,), during),
        call_ensures(Config::with_cluster_key, (rotating, key), settled),
        call_ensures(Config::auth_keys, (&settled,), afterwards),
    ensures
        during is Some && during->0.primary == primary && during->0.also_accept == Some(also_accept),
        afterwards is Some && afterwards->0.primary == key && afterwards->0.also_accept is None,
        rotating.has_security_mode(),
        settled.has_security_mode(),
{
}

/// Networks declared on a fresh configuration are all declared, in the order given, however they
/// were grouped, as long as there are no more than sixteen; one more is refused.
pub proof fn sixteen_nets_fit_a_configuration(port: u16, config: Config, nets: &[IpNet], result: Result<Config, ConfigError>)
    requires
        call_ensures(Config::new, (port,), config),
        call_ensures(Config::with_nets, (config, nets), result),
    ensures
        config.port == port,
        result is Ok <==> nets@.len() <= 16,
        result matches Ok(declared) ==> declared_nets(declared.nets@) == nets@,
        result is Err ==> result->Err_0 == ConfigError::TooManyNets,
{
    let slots = config.nets@;
    slots_are_free_or_declared(slots);
    lemma_packed(slots);
    if declared_nets(slots).len() > 0 {
        assert(slots[0] is Some);
    }
    assert(declared_nets(slots) =~= Seq::empty());
    if nets@.len() <= 16 {
        nets_are_declared_in_order(slots, nets@);
        assert(declared_nets(slots) + nets@ =~= nets@);
    }
}

} // verus!
