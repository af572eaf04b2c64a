//! The device command table of an endpoint: each subscribed device has a
//! bounded channel, and a command addressed to a device goes to the sending
//! half of that device's channel.
use crate::registry::{Registry, RegistryKey};
use tokio::sync::mpsc::{Receiver, Sender};
use vstd::prelude::*;

verus! {

#[verifier::external_type_specification]
#[verifier::external_body]
#[verifier::reject_recursive_types(T)]
pub struct ExtSender<T>(tokio::sync::mpsc::Sender<T>);

#[verifier::external_type_specification]
#[verifier::external_body]
#[verifier::reject_recursive_types(T)]
pub struct ExtReceiver<T>(tokio::sync::mpsc::Receiver<T>);

/// How many commands a device's channel buffers before a sender waits.
pub const COMMAND_BUFFER: usize = 32;

/// The largest buffer a tokio channel accepts (`Semaphore::MAX_PERMITS`).
pub open spec fn max_channel_buffer() -> int {
    (usize::MAX / 8) as int
}

/// Whether a sending half and a receiving half are the two ends of one
/// channel: what the sender sends, the receiver receives.
pub uninterp spec fn same_channel(tx: Sender<String>, rx: Receiver<String>) -> bool;

/// The number of messages that the channel of a sending half buffers before
/// a send waits: the bound it was created with, which `Sender::max_capacity`
/// reports.
pub uninterp spec fn channel_capacity(tx: Sender<String>) -> usize;

/// Calls `tokio::sync::mpsc::channel(buffer)`, which creates one bounded
/// channel with room for `buffer` messages and returns its sending and
/// receiving halves. tokio panics when `buffer` is 0 or above
/// `usize::MAX >> 3`; `requires` leaves those out.
#[verifier::external_body]
fn bounded_channel(buffer: usize) -> (r: (Sender<String>, Receiver<String>))
    requires
        0 < buffer <= max_channel_buffer(),
    ensures
        same_channel(r.0, r.1),
        channel_capacity(r.0) == buffer,
{
    tokio::sync::mpsc::channel(buffer)
}

/// The identity of a device: the application it belongs to and its own name.
#[derive(Clone, Debug)]
pub struct Id {
    pub app_id: String,
    pub device_id: String,
}

impl View for Id {
    type V = (Seq<char>, Seq<char>);

    open spec fn view(&self) -> (Seq<char>, Seq<char>) {
        (self.app_id@, self.device_id@)
    }
}

impl Id {
    /// The device `device_id` of the application `app_id`.
    pub fn new(app_id: &str, device_id: &str) -> (r: Id)
        ensures
            r.app_id@ == app_id@,
            r.device_id@ == device_id@,
    {
        Id { app_id: app_id.to_owned(), device_id: device_id.to_owned() }
    }
}

impl RegistryKey for Id {
    fn same_key(&self, other: &Self) -> (r: bool) {
        self.app_id == other.app_id && self.device_id == other.device_id
    }
}

impl PartialEq for Id {
    fn eq(&self, other: &Self) -> (r: bool) {
        self.app_id == other.app_id && self.device_id == other.device_id
    }
}

impl vstd::std_specs::cmp::PartialEqSpecImpl for Id {
    open spec fn obeys_eq_spec() -> bool {
        true
    }

    open spec fn eq_spec(&self, other: &Id) -> bool {
        self@ == other@
    }
}

/// A command addressed to one device.
#[derive(Clone, Debug)]
pub struct Command {
    pub device_id: Id,
    pub command: String,
}

/// Where a command for `device` goes in a table whose view is `table`:
/// the sender subscribed under that device, if there is one.
pub open spec fn route_of(table: Map<(Seq<char>, Seq<char>), Sender<String>>, device: (
    Seq<char>,
    Seq<char>,
)) -> Option<Sender<String>> {
    if table.contains_key(device) {
        Some(table[device])
    } else {
        None
    }
}

/// The devices that currently listen for commands, each with the sending
/// half of its channel.
pub struct Commands {
    devices: Registry<Id, Sender<String>>,
}

impl View for Commands {
    type V = Map<(Seq<char>, Seq<char>), Sender<String>>;

    closed spec fn view(&self) -> Map<(Seq<char>, Seq<char>), Sender<String>> {
        self.devices@
    }
}

impl Commands {
    /// The table's invariant: one entry per device.
    pub closed spec fn wf(&self) -> bool {
        self.devices.wf()
    }

    /// The table holds finitely many devices.
    pub proof fn lemma_finite(&self)
        requires
            self.wf(),
        ensures
            self@.dom().finite(),
    {
        self.devices.lemma_len();
    }

    /// A table with no device in it.
    pub fn new() -> (r: Commands)
        ensures
            r.wf(),
            r@ == Map::<(Seq<char>, Seq<char>), Sender<String>>::empty(),
    {
        Commands { devices: Registry::new() }
    }

    /// Resolves where `msg` goes: the sender of its device's channel and the
    /// command to hand it, or nothing when the device does not listen. The
    /// caller awaits the delivery on the sender, and reports success whether
    /// or not anything was delivered.
    pub fn send<'a>(&'a self, msg: Command) -> (r: Option<(&'a Sender<String>, String)>)
        requires
            self.wf(),
        ensures
            match r {
                Some((sender, command)) => route_of(self@, msg.device_id@) == Some(*sender)
                    && command@ == msg.command@,
                None => route_of(self@, msg.device_id@) is None,
            },
    {
        match self.devices.get(&msg.device_id) {
            Some(sender) => Some((sender, msg.command)),
            None => None,
        }
    }

    /// Opens a channel for `device_id` and stores its sending half in the
    /// table, in place of any earlier one (whose channel then closes once
    /// its last sender is gone); returns the receiving half.
    pub fn subscribe(&mut self, device_id: Id) -> (rx: Receiver<String>)
        requires
            old(self).wf(),
        ensures
            final(self).wf(),
            exists|tx: Sender<String>|
                final(self)@ == old(self)@.insert(device_id@, tx) && same_channel(tx, rx)
                    && channel_capacity(tx) == COMMAND_BUFFER,
    {
        let (tx, rx) = bounded_channel(COMMAND_BUFFER);
        let ghost k = device_id@;
        let ghost t = tx;
        let _ = self.devices.insert(device_id, tx);
        assert(self@ == old(self)@.insert(k, t) && same_channel(t, rx) && channel_capacity(t)
            == COMMAND_BUFFER);
        rx
    }

    /// Removes `device_id` from the table; its channel closes once no sender
    /// of it is left.
    pub fn unsubscribe(&mut self, device_id: Id)
        requires
            old(self).wf(),
        ensures
            final(self).wf(),
            final(self)@ == old(self)@.remove(device_id@),
    {
        let _ = self.devices.remove(&device_id);
    }
}

/// After a device subscribes, commands for it go to the sender it was given.
pub proof fn law_subscribed_device_receives(
    before: Map<(Seq<char>, Seq<char>), Sender<String>>,
    device: (Seq<char>, Seq<char>),
    tx: Sender<String>,
)
    ensures
        route_of(before.insert(device, tx), device) == Some(tx),
{
}

/// A command for a device that has just subscribed goes into the channel
/// whose receiver the subscription handed out, which buffers up to
/// `COMMAND_BUFFER` commands.
pub proof fn law_command_reaches_returned_receiver(
    before: Map<(Seq<char>, Seq<char>), Sender<String>>,
    after: Map<(Seq<char>, Seq<char>), Sender<String>>,
    device: (Seq<char>, Seq<char>),
    rx: Receiver<String>,
)
    requires
        exists|tx: Sender<String>|
            after == before.insert(device, tx) && same_channel(tx, rx) && channel_capacity(tx)
                == COMMAND_BUFFER,
    ensures
        route_of(after, device) matches Some(s) && same_channel(s, rx) && channel_capacity(s)
            == COMMAND_BUFFER,
{
    let tx = choose|tx: Sender<String>|
        after == before.insert(device, tx) && same_channel(tx, rx) && channel_capacity(tx)
            == COMMAND_BUFFER;
    assert(route_of(after, device) == Some(tx));
}

/// When a device subscribes twice, its commands go into the channel of the
/// second subscription's receiver.
pub proof fn law_resubscribe_routes_to_latest_receiver(
    before: Map<(Seq<char>, Seq<char>), Sender<String>>,
    middle: Map<(Seq<char>, Seq<char>), Sender<String>>,
    after: Map<(Seq<char>, Seq<char>), Sender<String>>,
    device: (Seq<char>, Seq<char>),
    first: Receiver<String>,
    second: Receiver<String>,
)
    requires
        exists|tx: Sender<String>|
            middle == before.insert(device, tx) && same_channel(tx, first) && channel_capacity(tx)
                == COMMAND_BUFFER,
        exists|tx: Sender<String>|
            after == middle.insert(device, tx) && same_channel(tx, second) && channel_capacity(tx)
                == COMMAND_BUFFER,
    ensures
        route_of(after, device) matches Some(s) && same_channel(s, second),
{
    law_command_reaches_returned_receiver(middle, after, device, second);
}

/// Commands for a device go to the sender stored under it, and nowhere when
/// none is stored.
pub proof fn law_route_is_table_entry(
    table: Map<(Seq<char>, Seq<char>), Sender<String>>,
    device: (Seq<char>, Seq<char>),
)
    ensures
        route_of(table, device) is Some <==> table.contains_key(device),
        table.contains_key(device) ==> route_of(table, device) == Some(table[device]),
{
}

/// A device's identity is its application and its name, both whole.
pub proof fn law_id_view_is_both_parts(id: Id)
    ensures
        id@.0 == id.app_id@,
        id@.1 == id.device_id@,
{
}

/// A call on the command table, with what a subscription handed out.
pub enum TableCall {
    /// `subscribe(id)`, which stored the sender and returned the receiver.
    Subscribe(Id, Sender<String>, Receiver<String>),
    /// `unsubscribe(id)`.
    Unsubscribe(Id),
    /// `send(command)`.
    Send(Command),
}

/// The table after a sequence of calls on a new table, each call changing
/// it as its contract says.
pub open spec fn table_after(calls: Seq<TableCall>) -> Map<(Seq<char>, Seq<char>), Sender<String>>
    decreases calls.len(),
{
    if calls.len() == 0 {
        Map::empty()
    } else {
        let before = table_after(calls.drop_last());
        match calls.last() {
            TableCall::Subscribe(id, tx, _) => before.insert(id@, tx),
            TableCall::Unsubscribe(id) => before.remove(id@),
            TableCall::Send(_) => before,
        }
    }
}

/// Whether a call subscribes or unsubscribes `device`.
pub open spec fn touches(call: TableCall, device: (Seq<char>, Seq<char>)) -> bool {
    match call {
        TableCall::Subscribe(id, _, _) => id@ == device,
        TableCall::Unsubscribe(id) => id@ == device,
        TableCall::Send(_) => false,
    }
}

/// The position of the last call that subscribes or unsubscribes `device`.
pub open spec fn latest_touch(calls: Seq<TableCall>, device: (Seq<char>, Seq<char>)) -> Option<int>
    decreases calls.len(),
{
    if calls.len() == 0 {
        None
    } else if touches(calls.last(), device) {
        Some(calls.len() - 1)
    } else {
        latest_touch(calls.drop_last(), device)
    }
}

/// Over any sequence of calls on a new table, a device is in the table
/// exactly when its latest subscribe is not followed by an unsubscribe, and
/// then its commands go into the channel of the receiver that latest
/// subscribe returned.
pub proof fn law_table_tracks_latest_subscription(
    calls: Seq<TableCall>,
    device: (Seq<char>, Seq<char>),
)
    requires
        forall|i: int|
            0 <= i < calls.len() ==> (#[trigger] calls[i] matches TableCall::Subscribe(_, tx, rx)
                ==> same_channel(tx, rx)),
    ensures
        table_after(calls).contains_key(device) <==> (latest_touch(calls, device) matches Some(i)
            && calls[i] is Subscribe),
        latest_touch(calls, device) matches Some(i) ==> 0 <= i < calls.len() && touches(
            calls[i],
            device,
        ),
        latest_touch(calls, device) matches Some(i) ==> (calls[i] matches TableCall::Subscribe(
            _,
            tx,
            rx,
        ) ==> route_of(table_after(calls), device) == Some(tx) && same_channel(tx, rx)),
    decreases calls.len(),
{
    if calls.len() > 0 {
        let prefix = calls.drop_last();
        assert forall|i: int|
            0 <= i < prefix.len() implies (#[trigger] prefix[i] matches TableCall::Subscribe(
            _,
            tx,
            rx,
        ) ==> same_channel(tx, rx)) by {
            assert(prefix[i] == calls[i]);
        }
        law_table_tracks_latest_subscription(prefix, device);
        let n = calls.len() - 1;
        assert(calls[n] == calls.last());
        if !touches(calls.last(), device) {
            if let Some(i) = latest_touch(prefix, device) {
                assert(prefix[i] == calls[i]);
            }
        }
    }
}

/// After a device unsubscribes, commands for it go nowhere.
pub proof fn law_unsubscribed_device_receives_nothing(
    before: Map<(Seq<char>, Seq<char>), Sender<String>>,
    device: (Seq<char>, Seq<char>),
)
    ensures
        route_of(before.remove(device), device) is None,
{
}

/// Subscribing or unsubscribing one device does not change where commands
/// for any other device go.
pub proof fn law_other_devices_unaffected(
    before: Map<(Seq<char>, Seq<char>), Sender<String>>,
    device: (Seq<char>, Seq<char>),
    other: (Seq<char>, Seq<char>),
    tx: Sender<String>,
)
    requires
        device != other,
    ensures
        route_of(before.insert(device, tx), other) == route_of(before, other),
        route_of(before.remove(device), other) == route_of(before, other),
{
}

/// Unsubscribing a device that had just subscribed, and was not subscribed
/// before, gives back the table as it was.
pub proof fn law_unsubscribe_undoes_subscribe(
    before: Map<(Seq<char>, Seq<char>), Sender<String>>,
    device: (Seq<char>, Seq<char>),
    tx: Sender<String>,
)
    requires
        !before.contains_key(device),
    ensures
        before.insert(device, tx).remove(device) == before,
{
    assert(before.insert(device, tx).remove(device) =~= before);
}

/// A device that subscribes again keeps only its newest subscription.
pub proof fn law_resubscribe_replaces(
    before: Map<(Seq<char>, Seq<char>), Sender<String>>,
    device: (Seq<char>, Seq<char>),
    first: Sender<String>,
    second: Sender<String>,
)
    ensures
        before.insert(device, first).insert(device, second) == before.insert(device, second),
{
    assert(before.insert(device, first).insert(device, second) =~= before.insert(device, second));
}

} // verus!
