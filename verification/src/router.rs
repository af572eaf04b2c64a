//! The command router of the HTTP endpoint: devices subscribe under a name
//! with a handle of type `D`, and a command broadcast to the router goes to
//! every subscribed device once, after which the router forgets them all.
use crate::registry::{
    entries_map, has_key, key_at, keys_distinct, lemma_entry_in_map, lemma_keys_len, Registry,
};
use vstd::prelude::*;

verus! {

/// A command broadcast to every subscribed device.
#[derive(Clone, Debug)]
pub struct CommandMessage(pub String);

impl View for CommandMessage {
    type V = Seq<char>;

    open spec fn view(&self) -> Seq<char> {
        self.0@
    }
}

/// A request to subscribe device `0` with handle `1`.
pub struct CommandSubscribe<D>(pub String, pub D);

/// A request to unsubscribe device `0`.
#[derive(Clone, Debug)]
pub struct CommandUnsubscribe(pub String);

/// One delivery of a broadcast: the handle of a device and the message for it.
pub struct Delivery<D> {
    pub device_id: String,
    pub device: D,
    pub message: CommandMessage,
}

/// The device names and handles that a sequence of deliveries reaches.
pub open spec fn delivery_entries<D>(s: Seq<Delivery<D>>) -> Seq<(String, D)> {
    Seq::new(s.len(), |i: int| (s[i].device_id, s[i].device))
}

/// Routes commands to the devices that subscribed.
pub struct CommandRouter<D> {
    devices: Registry<String, D>,
}

impl<D> View for CommandRouter<D> {
    type V = Map<Seq<char>, D>;

    closed spec fn view(&self) -> Map<Seq<char>, D> {
        self.devices@
    }
}

impl<D> CommandRouter<D> {
    /// The router's invariant: one entry per device name.
    pub closed spec fn wf(&self) -> bool {
        self.devices.wf()
    }

    /// The router holds finitely many devices.
    pub proof fn lemma_finite(&self)
        requires
            self.wf(),
        ensures
            self@.dom().finite(),
    {
        self.devices.lemma_len();
    }

    /// A router with no device subscribed.
    pub fn new() -> (r: Self)
        ensures
            r.wf(),
            r@ == Map::<Seq<char>, D>::empty(),
    {
        CommandRouter { devices: Registry::new() }
    }

    /// Subscribes `device` under `id`, in place of any earlier device of that name.
    pub fn subscribe(&mut self, id: String, device: D)
        requires
            old(self).wf(),
        ensures
            final(self).wf(),
            final(self)@ == old(self)@.insert(id@, device),
    {
        let _ = self.devices.insert(id, device);
    }

    /// Forgets the device subscribed under `id`, if any.
    pub fn unsubscribe(&mut self, id: String)
        requires
            old(self).wf(),
        ensures
            final(self).wf(),
            final(self)@ == old(self)@.remove(id@),
    {
        let _ = self.devices.remove(&id);
    }

    /// Handles a subscription request.
    pub fn handle_subscribe(&mut self, msg: CommandSubscribe<D>)
        requires
            old(self).wf(),
        ensures
            final(self).wf(),
            final(self)@ == old(self)@.insert(msg.0@, msg.1),
    {
        let CommandSubscribe(id, device) = msg;
        self.subscribe(id, device);
    }

    /// Handles an unsubscription request.
    pub fn handle_unsubscribe(&mut self, msg: CommandUnsubscribe)
        requires
            old(self).wf(),
        ensures
            final(self).wf(),
            final(self)@ == old(self)@.remove(msg.0@),
    {
        self.unsubscribe(msg.0);
    }

    /// Handles a broadcast: every subscribed device gets one delivery of
    /// `msg`, and the router is left with no device subscribed.
    pub fn handle_command(&mut self, msg: CommandMessage) -> (r: Vec<Delivery<D>>)
        requires
            old(self).wf(),
        ensures
            final(self).wf(),
            final(self)@ == Map::<Seq<char>, D>::empty(),
            keys_distinct(delivery_entries(r@)),
            entries_map(delivery_entries(r@)) == old(self)@,
            r@.len() == old(self)@.len(),
            forall|i: int| 0 <= i < r@.len() ==> (#[trigger] r@[i]).message@ == msg@,
    {
        let mut drained = self.devices.drain();
        let ghost orig = drained@;
        let ghost n = orig.len();
        let mut out: Vec<Delivery<D>> = Vec::new();
        while drained.len() > 0
            invariant
                n == orig.len(),
                drained@ == orig.take(drained@.len() as int),
                out@.len() + drained@.len() == n,
                forall|i: int|
                    0 <= i < out@.len() ==> (#[trigger] delivery_entries(out@)[i]) == orig[n - 1 - i],
                forall|i: int| 0 <= i < out@.len() ==> (#[trigger] out@[i]).message@ == msg@,
            decreases drained@.len(),
        {
            let ghost before = drained@;
            let (device_id, device) = drained.pop().unwrap();
            assert(before[before.len() - 1] == orig[before.len() - 1]);
            assert(drained@ =~= orig.take(drained@.len() as int));
            let ghost old_out = out@;
            out.push(Delivery { device_id, device, message: CommandMessage(msg.0.clone()) });
            assert forall|i: int| 0 <= i < out@.len() implies (#[trigger] delivery_entries(
                out@,
            )[i]) == orig[n - 1 - i] by {
                if i < old_out.len() {
                    assert(out@[i] == old_out[i]);
                    assert(delivery_entries(old_out)[i] == orig[n - 1 - i]);
                }
            }
        }
        proof {
            lemma_reversed(orig, delivery_entries(out@));
        }
        out
    }
}

/// A broadcast reaches every device subscribed at that moment exactly once,
/// with the handle it subscribed with.
pub proof fn law_broadcast_reaches_each_device_once<D>(
    deliveries: Seq<(String, D)>,
    subscribed: Map<Seq<char>, D>,
    device: Seq<char>,
)
    requires
        keys_distinct(deliveries),
        entries_map(deliveries) == subscribed,
        subscribed.contains_key(device),
    ensures
        exists|i: int|
            0 <= i < deliveries.len() && #[trigger] key_at(deliveries, i) == device
                && deliveries[i].1 == subscribed[device] && forall|j: int|
                0 <= j < deliveries.len() && j != i ==> #[trigger] key_at(deliveries, j) != device,
{
    assert(has_key(deliveries, device));
    let i = choose|i: int| 0 <= i < deliveries.len() && #[trigger] key_at(deliveries, i) == device;
    lemma_entry_in_map(deliveries, i);
    assert forall|j: int| 0 <= j < deliveries.len() && j != i implies #[trigger] key_at(
        deliveries,
        j,
    ) != device by {
        assert(key_at(deliveries, i) != key_at(deliveries, j));
    }
}

/// A broadcast reaches no device that is not subscribed at that moment: in
/// particular none that unsubscribed before it.
pub proof fn law_broadcast_skips_unsubscribed<D>(
    deliveries: Seq<(String, D)>,
    subscribed: Map<Seq<char>, D>,
    device: Seq<char>,
)
    requires
        entries_map(deliveries) == subscribed,
        !subscribed.contains_key(device),
    ensures
        forall|i: int| 0 <= i < deliveries.len() ==> #[trigger] key_at(deliveries, i) != device,
{
    assert forall|i: int| 0 <= i < deliveries.len() implies #[trigger] key_at(deliveries, i)
        != device by {
        if key_at(deliveries, i) == device {
            assert(has_key(deliveries, device));
        }
    }
}

/// A broadcast to a router with no device subscribed, as every router is
/// right after a broadcast, delivers nothing.
pub proof fn law_broadcast_after_broadcast_delivers_nothing<D>(deliveries: Seq<(String, D)>)
    requires
        keys_distinct(deliveries),
        entries_map(deliveries) == Map::<Seq<char>, D>::empty(),
    ensures
        deliveries.len() == 0,
{
    lemma_keys_len(deliveries);
}

/// A command message's view is its full text.
pub proof fn law_message_view_is_text(m: CommandMessage)
    ensures
        m@ == m.0@,
{
}

/// The entries that deliveries reach are the deliveries' names and
/// handles, one for one and in order.
pub proof fn law_delivery_entries_pointwise<D>(s: Seq<Delivery<D>>)
    ensures
        delivery_entries(s).len() == s.len(),
        forall|i: int|
            0 <= i < s.len() ==> #[trigger] delivery_entries(s)[i] == (s[i].device_id, s[i].device),
{
}

/// A request handled by the router.
pub enum RouterCall<D> {
    /// `handle_subscribe(CommandSubscribe(name, device))`.
    Subscribe(String, D),
    /// `handle_unsubscribe(CommandUnsubscribe(name))`.
    Unsubscribe(String),
    /// `handle_command(message)`.
    Broadcast(CommandMessage),
}

/// The router's devices after it handles `calls`, starting from `start`,
/// each call changing them as its contract says.
pub open spec fn router_after<D>(start: Map<Seq<char>, D>, calls: Seq<RouterCall<D>>) -> Map<
    Seq<char>,
    D,
>
    decreases calls.len(),
{
    if calls.len() == 0 {
        start
    } else {
        let before = router_after(start, calls.drop_last());
        match calls.last() {
            RouterCall::Subscribe(name, device) => before.insert(name@, device),
            RouterCall::Unsubscribe(name) => before.remove(name@),
            RouterCall::Broadcast(_) => Map::empty(),
        }
    }
}

/// If `device` is held under no name other than `name` before a sequence of
/// calls, and none of them subscribes `device`, then afterwards it is still
/// held under no name other than `name`.
pub proof fn lemma_device_stays_under_name<D>(
    start: Map<Seq<char>, D>,
    calls: Seq<RouterCall<D>>,
    name: Seq<char>,
    device: D,
)
    requires
        forall|k: Seq<char>| k != name && #[trigger] start.contains_key(k) ==> start[k] != device,
        forall|i: int|
            0 <= i < calls.len() ==> (#[trigger] calls[i] matches RouterCall::Subscribe(_, d)
                ==> d != device),
    ensures
        forall|k: Seq<char>|
            k != name && #[trigger] router_after(start, calls).contains_key(k) ==> router_after(
                start,
                calls,
            )[k] != device,
    decreases calls.len(),
{
    if calls.len() > 0 {
        let prefix = calls.drop_last();
        assert forall|i: int|
            0 <= i < prefix.len() implies (#[trigger] prefix[i] matches RouterCall::Subscribe(
            _,
            d,
        ) ==> d != device) by {
            assert(prefix[i] == calls[i]);
        }
        lemma_device_stays_under_name(start, prefix, name, device);
        let n = calls.len() - 1;
        assert(calls[n] == calls.last());
        let m = router_after(start, prefix);
        let r = router_after(start, calls);
        assert forall|k: Seq<char>| k != name && #[trigger] r.contains_key(k) implies r[k]
            != device by {
            match calls[n] {
                RouterCall::Subscribe(nm, d) => {
                    assert(d != device);
                    if k != nm@ {
                        assert(m.contains_key(k));
                    }
                },
                RouterCall::Unsubscribe(nm) => {
                    assert(m.contains_key(k));
                },
                RouterCall::Broadcast(_) => {},
            }
        }
    }
}

/// Unsubscribing from a router with no device subscribed, as every router is
/// right after a broadcast, leaves it with none.
pub proof fn law_unsubscribe_keeps_empty_router_empty<D>(name: Seq<char>)
    ensures
        Map::<Seq<char>, D>::empty().remove(name) == Map::<Seq<char>, D>::empty(),
{
    assert(Map::<Seq<char>, D>::empty().remove(name) =~= Map::<Seq<char>, D>::empty());
}

/// A sequence of entries in reverse order stands for the same map.
proof fn lemma_reversed<D>(s: Seq<(String, D)>, t: Seq<(String, D)>)
    requires
        keys_distinct(s),
        t.len() == s.len(),
        forall|i: int| 0 <= i < t.len() ==> #[trigger] t[i] == s[s.len() - 1 - i],
    ensures
        keys_distinct(t),
        entries_map(t) == entries_map(s),
{
    let n = s.len();
    assert forall|i: int| 0 <= i < n implies #[trigger] key_at(t, i) == key_at(s, n - 1 - i) by {
        assert(t[i] == s[n - 1 - i]);
    }
    assert forall|i: int, j: int|
        0 <= i < n && 0 <= j < n && i != j implies #[trigger] key_at(t, i) != #[trigger] key_at(
            t,
            j,
        ) by {
        assert(key_at(s, n - 1 - i) != key_at(s, n - 1 - j));
    }
    assert forall|k: Seq<char>| #[trigger] entries_map(t).contains_key(k) == entries_map(
        s,
    ).contains_key(k) by {
        if entries_map(t).contains_key(k) {
            let i = choose|i: int| 0 <= i < n && #[trigger] key_at(t, i) == k;
            assert(key_at(s, n - 1 - i) == k);
        }
        if entries_map(s).contains_key(k) {
            let i = choose|i: int| 0 <= i < n && #[trigger] key_at(s, i) == k;
            assert(key_at(t, n - 1 - i) == k);
        }
    }
    assert forall|k: Seq<char>| #[trigger] entries_map(t).contains_key(k) implies entries_map(t)[k]
        == entries_map(s)[k] by {
        let i = choose|i: int| 0 <= i < n && #[trigger] key_at(t, i) == k;
        lemma_entry_in_map(t, i);
        lemma_entry_in_map(s, n - 1 - i);
    }
    assert(entries_map(t) =~= entries_map(s));
}

} // verus!
